use crate::commands::{chapter_records, push_arg, record_title, CommandOutcome};
use crate::error::{Collaborator, PipelineError};
use crate::json::{entries_map, entries_of, values_of, Json, JsonValue};
use crate::tags::TagDocument;
use crate::text::{decimal, i64_to_decimal, lemma_decimal_injective};
use vstd::prelude::*;

verus! {

/// The file that receives the probe document.
pub const METADATA_FILE_NAME: &'static str = "metadata.json";

/// The file that receives the merged tags.
pub const TAGS_FILE_NAME: &'static str = "tags.yaml";

/// The file that receives the cover image.
pub const COVER_FILE_NAME: &'static str = "folder.jpg";

/// Decides what a run of the probe has given.
///
/// `outcome` is how the probe ended, `diagnostics` what it wrote about
/// errors, and `parsed` its output as a structured document, where the output
/// is one. A probe that reported failure gives `ProbeFailure` with its
/// diagnostics; one that succeeded gives its document, or
/// `MetadataParseFailure` where there is none.
pub fn run_ffprobe_json(outcome: CommandOutcome, diagnostics: String, parsed: Option<Json>) -> (probed:
    Result<Json, PipelineError>)
    ensures
        match outcome {
            CommandOutcome::NotStarted => probed == Err::<Json, PipelineError>(
                PipelineError::InvocationFailure(Collaborator::Probe),
            ),
            CommandOutcome::Failed => probed == Err::<Json, PipelineError>(
                PipelineError::ProbeFailure(diagnostics),
            ),
            CommandOutcome::Succeeded => match parsed {
                Some(document) => probed == Ok::<Json, PipelineError>(document),
                None => probed == Err::<Json, PipelineError>(PipelineError::MetadataParseFailure),
            },
        },
{
    match outcome {
        CommandOutcome::NotStarted => Err(PipelineError::InvocationFailure(Collaborator::Probe)),
        CommandOutcome::Failed => Err(PipelineError::ProbeFailure(diagnostics)),
        CommandOutcome::Succeeded => match parsed {
            Some(document) => Ok(document),
            None => Err(PipelineError::MetadataParseFailure),
        },
    }
}

/// The container-level tags of a probe document: the entries of the object
/// under `format.tags`, and none where there is no such object.
pub open spec fn format_tags(doc: JsonValue) -> Seq<(Seq<char>, JsonValue)> {
    match doc.get("format"@) {
        Some(format) => match format.get("tags"@) {
            Some(JsonValue::Object(entries)) => entries,
            _ => Seq::empty(),
        },
        None => Seq::empty(),
    }
}

/// The tag name of the chapter with the given `id`.
pub open spec fn chapter_key(id: i64) -> Seq<char> {
    "Chapter_"@ + decimal(id as int)
}

/// The `id` of a chapter record, where it has one that is an integer.
pub open spec fn record_id(record: JsonValue) -> Option<i64> {
    record.member("id"@).as_int()
}

/// The value of a chapter's tag: its title, or `Untitled`.
pub open spec fn chapter_tag_value(record: JsonValue) -> JsonValue {
    match record_title(record) {
        Some(title) => JsonValue::Text(title),
        None => JsonValue::Text("Untitled"@),
    }
}

/// `base` with the tag of every record that has an integer `id`, a later
/// record overwriting what was there under its name.
pub open spec fn with_chapter_tags(
    base: Map<Seq<char>, JsonValue>,
    records: Seq<JsonValue>,
) -> Map<Seq<char>, JsonValue>
    decreases records.len(),
{
    if records.len() == 0 {
        base
    } else {
        let before = with_chapter_tags(base, records.drop_last());
        match record_id(records.last()) {
            Some(id) => before.insert(chapter_key(id), chapter_tag_value(records.last())),
            None => before,
        }
    }
}

/// The chapter records of a document, and none where it has no `chapters`
/// array.
pub open spec fn records_or_none(doc: JsonValue) -> Seq<JsonValue> {
    match chapter_records(doc) {
        Some(records) => records,
        None => Seq::empty(),
    }
}

/// The merged tags of a probe document: the container-level tags, overlaid
/// with one `Chapter_<id>` tag for each chapter record with an integer `id`.
pub open spec fn tag_document(doc: JsonValue) -> Map<Seq<char>, JsonValue> {
    with_chapter_tags(entries_map(format_tags(doc)), records_or_none(doc))
}

fn chapter_title_or_untitled(record: &Json) -> (title: String)
    ensures
        JsonValue::Text(title@) == chapter_tag_value(record@),
{
    let found = match record.get("tags") {
        Some(tags) => match tags.get("title") {
            Some(title) => title.as_str(),
            None => None,
        },
        None => None,
    };
    match found {
        Some(title) => String::from_str(title),
        None => String::from_str("Untitled"),
    }
}

fn chapter_id(record: &Json) -> (id: Option<i64>)
    ensures
        id == record_id(record@),
{
    match record.get("id") {
        Some(value) => value.as_i64(),
        None => None,
    }
}

/// Builds the merged tags that go to the tags file beside the verbatim
/// copy of the probe document.
pub fn write_metadata_files(json: &Json) -> (tags: TagDocument)
    ensures
        tags@ == tag_document(json@),
{
    let mut tags = TagDocument::new();
    let format_members = match json.get("format") {
        Some(format) => match format.get("tags") {
            Some(format_tags) => format_tags.as_object(),
            None => None,
        },
        None => None,
    };
    match format_members {
        Some(members) => {
            let ghost entries = entries_of(members@);
            assert(entries.take(0) =~= Seq::empty());
            let mut i: usize = 0;
            while i < members.len()
                invariant
                    i <= members.len(),
                    entries == entries_of(members@),
                    tags@ == entries_map(entries.take(i as int)),
                decreases members.len() - i,
            {
                let member = &members[i];
                proof {
                    let longer = entries.take(i + 1);
                    assert(longer.drop_last() =~= entries.take(i as int));
                    assert(longer.last() == (member.key@, member.value@));
                }
                tags.insert(member.key.clone(), member.value.deep_copy());
                i = i + 1;
            }
            assert(entries.take(i as int) =~= entries);
        },
        None => {},
    }
    assert(tags@ == entries_map(format_tags(json@)));
    let chapters = match json.get("chapters") {
        Some(chapters) => chapters.as_array(),
        None => None,
    };
    match chapters {
        Some(records) => {
            let ghost base = entries_map(format_tags(json@));
            let ghost values = values_of(records@);
            assert(values.take(0) =~= Seq::empty());
            let mut i: usize = 0;
            while i < records.len()
                invariant
                    i <= records.len(),
                    values == values_of(records@),
                    tags@ == with_chapter_tags(base, values.take(i as int)),
                decreases records.len() - i,
            {
                let record = &records[i];
                proof {
                    let longer = values.take(i + 1);
                    assert(longer.drop_last() =~= values.take(i as int));
                    assert(longer.last() == record@);
                }
                match chapter_id(record) {
                    Some(id) => {
                        let key = String::from_str("Chapter_").concat(i64_to_decimal(id).as_str());
                        tags.insert(key, Json::Text(chapter_title_or_untitled(record)));
                    },
                    None => {},
                }
                i = i + 1;
            }
            assert(values.take(i as int) =~= values);
        },
        None => {},
    }
    tags
}

/// Chapters with different ids have different tag names.
pub proof fn lemma_chapter_key_injective(a: i64, b: i64)
    requires
        chapter_key(a) == chapter_key(b),
    ensures
        a == b,
{
    let prefix = "Chapter_"@;
    let start: int = prefix.len() as int;
    assert(chapter_key(a).subrange(start, chapter_key(a).len() as int) =~= decimal(a as int));
    assert(chapter_key(b).subrange(start, chapter_key(b).len() as int) =~= decimal(b as int));
    lemma_decimal_injective(a as int, b as int);
}

/// True where some record among `records` has an integer `id` whose tag
/// name is `key`.
pub open spec fn is_chapter_key(records: Seq<JsonValue>, key: Seq<char>) -> bool {
    exists|i: int|
        0 <= i < records.len() && (#[trigger] record_id(records[i])) is Some && chapter_key(
            record_id(records[i])->0,
        ) == key
}

/// The names in the overlay are those of `base` and those of the chapters.
pub proof fn lemma_chapter_tags_domain(
    base: Map<Seq<char>, JsonValue>,
    records: Seq<JsonValue>,
    key: Seq<char>,
)
    ensures
        with_chapter_tags(base, records).contains_key(key) <==> base.contains_key(key)
            || is_chapter_key(records, key),
    decreases records.len(),
{
    if records.len() > 0 {
        let shorter = records.drop_last();
        let at: int = records.len() - 1;
        lemma_chapter_tags_domain(base, shorter, key);
        if is_chapter_key(shorter, key) {
            let i = choose|i: int|
                0 <= i < shorter.len() && (#[trigger] record_id(shorter[i])) is Some
                    && chapter_key(record_id(shorter[i])->0) == key;
            assert(shorter[i] == records[i]);
            assert(record_id(records[i]) is Some);
        }
        if is_chapter_key(records, key) {
            let i = choose|i: int|
                0 <= i < records.len() && (#[trigger] record_id(records[i])) is Some
                    && chapter_key(record_id(records[i])->0) == key;
            if i < at {
                assert(shorter[i] == records[i]);
                assert(record_id(shorter[i]) is Some);
            }
        }
        if record_id(records[at]) is Some && chapter_key(record_id(records[at])->0) == key {
            assert(is_chapter_key(records, key));
        }
    }
}

/// A name of `base` that is no chapter's tag name keeps its value.
pub proof fn lemma_chapter_tags_keep(
    base: Map<Seq<char>, JsonValue>,
    records: Seq<JsonValue>,
    key: Seq<char>,
)
    requires
        base.contains_key(key),
        !is_chapter_key(records, key),
    ensures
        with_chapter_tags(base, records).contains_key(key),
        with_chapter_tags(base, records)[key] == base[key],
    decreases records.len(),
{
    if records.len() > 0 {
        let shorter = records.drop_last();
        let at: int = records.len() - 1;
        if is_chapter_key(shorter, key) {
            let i = choose|i: int|
                0 <= i < shorter.len() && (#[trigger] record_id(shorter[i])) is Some
                    && chapter_key(record_id(shorter[i])->0) == key;
            assert(shorter[i] == records[i]);
            assert(record_id(records[i]) is Some);
        }
        lemma_chapter_tags_keep(base, shorter, key);
        if record_id(records[at]) is Some && chapter_key(record_id(records[at])->0) == key {
            assert(is_chapter_key(records, key));
        }
    }
}

/// The tag of a chapter holds the title of the last record with its id.
pub proof fn lemma_chapter_tags_hold(
    base: Map<Seq<char>, JsonValue>,
    records: Seq<JsonValue>,
    at: int,
)
    requires
        0 <= at < records.len(),
        record_id(records[at]) is Some,
        forall|j: int| at < j < records.len() ==> record_id(records[j]) != record_id(records[at]),
    ensures
        with_chapter_tags(base, records).contains_key(chapter_key(record_id(records[at])->0)),
        with_chapter_tags(base, records)[chapter_key(record_id(records[at])->0)]
            == chapter_tag_value(records[at]),
    decreases records.len(),
{
    let last: int = records.len() - 1;
    if at < last {
        let shorter = records.drop_last();
        assert(shorter[at] == records[at]);
        assert forall|j: int| at < j < shorter.len() implies record_id(shorter[j]) != record_id(
            shorter[at],
        ) by {
            assert(shorter[j] == records[j]);
        }
        lemma_chapter_tags_hold(base, shorter, at);
        if record_id(records[last]) is Some {
            if chapter_key(record_id(records[last])->0) == chapter_key(record_id(records[at])->0) {
                lemma_chapter_key_injective(
                    record_id(records[last])->0,
                    record_id(records[at])->0,
                );
            }
        }
    }
}

/// The merged tags hold every container-level tag whose name is no
/// chapter's tag name, with its value.
pub proof fn lemma_tags_keep_container_tags(doc: JsonValue, key: Seq<char>)
    requires
        entries_map(format_tags(doc)).contains_key(key),
        !is_chapter_key(records_or_none(doc), key),
    ensures
        tag_document(doc).contains_key(key),
        tag_document(doc)[key] == entries_map(format_tags(doc))[key],
{
    lemma_chapter_tags_keep(entries_map(format_tags(doc)), records_or_none(doc), key);
}

/// The merged tags hold a `Chapter_<id>` tag for every chapter record with
/// an integer `id`. Records with different ids have different tags, and the
/// tag holds the title of the record, unless a later record has the same id.
pub proof fn lemma_tags_hold_each_chapter(doc: JsonValue, at: int)
    requires
        0 <= at < records_or_none(doc).len(),
        record_id(records_or_none(doc)[at]) is Some,
    ensures
        tag_document(doc).contains_key(chapter_key(record_id(records_or_none(doc)[at])->0)),
        (forall|j: int|
            at < j < records_or_none(doc).len() ==> record_id(records_or_none(doc)[j])
                != record_id(records_or_none(doc)[at])) ==> tag_document(doc)[chapter_key(
            record_id(records_or_none(doc)[at])->0,
        )] == chapter_tag_value(records_or_none(doc)[at]),
        forall|j: int|
            0 <= j < records_or_none(doc).len() && (#[trigger] record_id(
                records_or_none(doc)[j],
            )) is Some && chapter_key(record_id(records_or_none(doc)[j])->0) == chapter_key(
                record_id(records_or_none(doc)[at])->0,
            ) ==> record_id(records_or_none(doc)[j]) == record_id(records_or_none(doc)[at]),
{
    let records = records_or_none(doc);
    let base = entries_map(format_tags(doc));
    let id = record_id(records[at])->0;
    lemma_chapter_tags_domain(base, records, chapter_key(id));
    assert(is_chapter_key(records, chapter_key(id)));
    if forall|j: int| at < j < records.len() ==> record_id(records[j]) != record_id(records[at]) {
        lemma_chapter_tags_hold(base, records, at);
    }
    assert forall|j: int|
        0 <= j < records.len() && (#[trigger] record_id(records[j])) is Some && chapter_key(
            record_id(records[j])->0,
        ) == chapter_key(id) implies record_id(records[j]) == record_id(records[at]) by {
        lemma_chapter_key_injective(record_id(records[j])->0, id);
    }
}

/// The merged tags hold nothing but container-level tags and chapter tags.
pub proof fn lemma_tags_hold_nothing_else(doc: JsonValue, key: Seq<char>)
    requires
        tag_document(doc).contains_key(key),
    ensures
        entries_map(format_tags(doc)).contains_key(key) || is_chapter_key(
            records_or_none(doc),
            key,
        ),
{
    lemma_chapter_tags_domain(entries_map(format_tags(doc)), records_or_none(doc), key);
}

/// The streams of a probe document: its `streams` array.
pub open spec fn stream_records(doc: JsonValue) -> Option<Seq<JsonValue>> {
    doc.member("streams"@).as_array()
}

/// The index of a stream that can serve as the cover: the stream is marked
/// as an attached picture, and its `index` is an integer.
pub open spec fn cover_index(stream: JsonValue) -> Option<i64> {
    if stream.member("disposition"@).member("attached_pic"@).as_int() == Some(1i64) {
        stream.member("index"@).as_int()
    } else {
        None
    }
}

fn stream_cover_index(stream: &Json) -> (index: Option<i64>)
    ensures
        index == cover_index(stream@),
{
    let flag = match stream.get("disposition") {
        Some(disposition) => match disposition.get("attached_pic") {
            Some(flag) => flag.as_i64(),
            None => None,
        },
        None => None,
    };
    let marked = match flag {
        Some(value) => value == 1,
        None => false,
    };
    if marked {
        match stream.get("index") {
            Some(index) => index.as_i64(),
            None => None,
        }
    } else {
        None
    }
}

/// The streams of a document, and none where it has no `streams` array.
pub open spec fn streams_or_none(doc: JsonValue) -> Seq<JsonValue> {
    match stream_records(doc) {
        Some(streams) => streams,
        None => Seq::empty(),
    }
}

/// What the search for the cover stream of `doc` gives: the index of the
/// first stream that can serve as the cover, or `None` where no stream can.
/// A document without a `streams` array has no such stream.
pub open spec fn covers_as(doc: JsonValue, cover: Option<i64>) -> bool {
    let streams = streams_or_none(doc);
    match cover {
        Some(index) => exists|at: int|
            {
                &&& 0 <= at < streams.len()
                &&& #[trigger] cover_index(streams[at]) == Some(index)
                &&& forall|j: int| 0 <= j < at ==> cover_index(#[trigger] streams[j]) is None
            },
        None => forall|j: int| 0 <= j < streams.len() ==> cover_index(#[trigger] streams[j]) is None,
    }
}

/// Finds the stream that holds the cover image: the first stream that is
/// marked as an attached picture and has an integer index.
///
/// Gives the index of that stream, or `None` where no stream qualifies; a
/// document without a `streams` array has none that does. The search never
/// fails: the cover is extracted as far as it can be.
pub fn extract_cover(json: &Json) -> (cover: Option<i64>)
    ensures
        covers_as(json@, cover),
{
    let streams = match json.get("streams") {
        Some(streams) => match streams.as_array() {
            Some(streams) => streams,
            None => {
                return None;
            },
        },
        None => {
            return None;
        },
    };
    let ghost values = values_of(streams@);
    let mut i: usize = 0;
    while i < streams.len()
        invariant
            i <= streams.len(),
            values == values_of(streams@),
            streams_or_none(json@) == values,
            forall|j: int| 0 <= j < i ==> cover_index(#[trigger] values[j]) is None,
        decreases streams.len() - i,
    {
        assert(streams[i as int]@ == values[i as int]);
        match stream_cover_index(&streams[i]) {
            Some(index) => {
                assert(cover_index(values[i as int]) == Some(index));
                return Some(index);
            },
            None => {},
        }
        i = i + 1;
    }
    None
}

/// Where no stream of a document can serve as the cover, the search gives
/// none. That is so for every document without a `streams` array, and for
/// every document none of whose streams is marked as an attached picture.
pub proof fn lemma_unmarked_streams_have_no_cover(doc: JsonValue, cover: Option<i64>)
    requires
        covers_as(doc, cover),
        forall|j: int|
            0 <= j < streams_or_none(doc).len() ==> cover_index(
                #[trigger] streams_or_none(doc)[j],
            ) is None,
    ensures
        cover is None,
{
    let streams = streams_or_none(doc);
    if cover is Some {
        let at = choose|at: int|
            0 <= at < streams.len() && #[trigger] cover_index(streams[at]) == cover;
        assert(cover_index(streams[at]) is None);
    }
}

/// A document has one cover stream at most: the search gives one answer.
pub proof fn lemma_cover_is_determined(doc: JsonValue, one: Option<i64>, other: Option<i64>)
    requires
        covers_as(doc, one),
        covers_as(doc, other),
    ensures
        one == other,
{
    let streams = streams_or_none(doc);
    match (one, other) {
        (Some(a), Some(b)) => {
            let first = choose|at: int|
                {
                    &&& 0 <= at < streams.len()
                    &&& #[trigger] cover_index(streams[at]) == Some(a)
                    &&& forall|j: int| 0 <= j < at ==> cover_index(#[trigger] streams[j]) is None
                };
            let second = choose|at: int|
                {
                    &&& 0 <= at < streams.len()
                    &&& #[trigger] cover_index(streams[at]) == Some(b)
                    &&& forall|j: int| 0 <= j < at ==> cover_index(#[trigger] streams[j]) is None
                };
            if first < second {
                assert(cover_index(streams[first]) is None);
            } else if second < first {
                assert(cover_index(streams[second]) is None);
            }
        },
        (Some(a), None) => {
            let first = choose|at: int|
                0 <= at < streams.len() && #[trigger] cover_index(streams[at]) == Some(a);
            assert(cover_index(streams[first]) is None);
        },
        (None, Some(b)) => {
            let second = choose|at: int|
                0 <= at < streams.len() && #[trigger] cover_index(streams[at]) == Some(b);
            assert(cover_index(streams[second]) is None);
        },
        (None, None) => {},
    }
}

/// The arguments that copy stream `stream` of `input` into `output_path`,
/// without re-encoding.
pub open spec fn cover_args_text(
    input: Seq<char>,
    stream: i64,
    output_path: Seq<char>,
) -> Seq<Seq<char>> {
    seq![
        "-hide_banner"@,
        "-loglevel"@,
        "quiet"@,
        "-y"@,
        "-i"@,
        input,
        "-map"@,
        "0:"@ + decimal(stream as int),
        "-c"@,
        "copy"@,
        output_path,
    ]
}

/// The arguments that the extraction tool is started with for the cover.
pub fn cover_args(input: &str, stream: i64, output_path: &str) -> (args: Vec<String>)
    ensures
        args.deep_view() == cover_args_text(input@, stream, output_path@),
{
    let mut args: Vec<String> = Vec::new();
    assert(args.deep_view() =~= Seq::empty());
    push_arg(&mut args, "-hide_banner");
    push_arg(&mut args, "-loglevel");
    push_arg(&mut args, "quiet");
    push_arg(&mut args, "-y");
    push_arg(&mut args, "-i");
    push_arg(&mut args, input);
    push_arg(&mut args, "-map");
    push_arg(&mut args, String::from_str("0:").concat(i64_to_decimal(stream).as_str()).as_str());
    push_arg(&mut args, "-c");
    push_arg(&mut args, "copy");
    push_arg(&mut args, output_path);
    assert(args.deep_view() =~= cover_args_text(input@, stream, output_path@));
    args
}

} // verus!
