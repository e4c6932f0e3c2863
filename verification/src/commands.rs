use crate::args::Args;
use crate::error::{ChapterField, PipelineError};
use crate::json::{values_of, Json, JsonValue};
use crate::text::{decimal, u64_to_decimal};
use crate::utils::{sanitize_filename, sanitized};
use vstd::prelude::*;

verus! {

/// One chapter of the source, ready to be extracted.
#[derive(Debug, Clone, PartialEq, Eq)]
pub struct ChapterDescriptor {
    /// The chapter's position in the source, counted from 1.
    pub ordinal: usize,
    /// Where the chapter starts, as the probe writes it.
    pub start: String,
    /// Where the chapter ends, as the probe writes it.
    pub end: String,
    /// The chapter's title as the source has it.
    pub title: String,
    /// The title as it is used in the segment's file name.
    pub safe_title: String,
}

/// The mathematical value of a [`ChapterDescriptor`].
pub struct ChapterValue {
    pub ordinal: int,
    pub start: Seq<char>,
    pub end: Seq<char>,
    pub title: Seq<char>,
    pub safe_title: Seq<char>,
}

impl View for ChapterDescriptor {
    type V = ChapterValue;

    open spec fn view(&self) -> ChapterValue {
        ChapterValue {
            ordinal: self.ordinal as int,
            start: self.start@,
            end: self.end@,
            title: self.title@,
            safe_title: self.safe_title@,
        }
    }
}

/// The chapter records of a probe document: its `chapters` array.
pub open spec fn chapter_records(doc: JsonValue) -> Option<Seq<JsonValue>> {
    doc.member("chapters"@).as_array()
}

/// The title of a chapter record: the string under `tags.title`.
pub open spec fn record_title(record: JsonValue) -> Option<Seq<char>> {
    record.member("tags"@).member("title"@).as_text()
}

/// The timestamp that a chapter record lacks, the start before the end.
pub open spec fn missing_field(record: JsonValue) -> Option<ChapterField> {
    if record.member("start_time"@).as_text() is None {
        Some(ChapterField::StartTime)
    } else if record.member("end_time"@).as_text() is None {
        Some(ChapterField::EndTime)
    } else {
        None
    }
}

/// The descriptor of the well-formed record at `position` (counted from 0).
/// A record without a title is called `Chapter`.
pub open spec fn descriptor_of(record: JsonValue, position: int, sanitize: bool) -> ChapterValue {
    let title = match record_title(record) {
        Some(t) => t,
        None => "Chapter"@,
    };
    ChapterValue {
        ordinal: position + 1,
        start: record.member("start_time"@).as_text()->0,
        end: record.member("end_time"@).as_text()->0,
        title: title,
        safe_title: if sanitize {
            sanitized(title)
        } else {
            title
        },
    }
}

fn member_text<'a>(record: &'a Json, key: &str) -> (text: Option<&'a str>)
    ensures
        match text {
            Some(s) => record@.member(key@).as_text() == Some(s@),
            None => record@.member(key@).as_text() is None,
        },
{
    match record.get(key) {
        Some(value) => value.as_str(),
        None => None,
    }
}

fn title_of(record: &Json) -> (title: Option<&str>)
    ensures
        match title {
            Some(s) => record_title(record@) == Some(s@),
            None => record_title(record@) is None,
        },
{
    match record.get("tags") {
        Some(tags) => member_text(tags, "title"),
        None => None,
    }
}

/// The values of a list of descriptors, in order.
pub open spec fn chapter_values(descriptors: Seq<ChapterDescriptor>) -> Seq<ChapterValue> {
    Seq::new(descriptors.len(), |i: int| descriptors[i]@)
}

/// What the chapter records of `doc` are split into.
///
/// A document without a `chapters` array gives `MissingChapters`. The first
/// record that lacks a timestamp gives `MalformedChapter` with its ordinal.
/// Otherwise there is one descriptor for each record, in the order of the
/// records and numbered from 1.
pub open spec fn splits_as(
    doc: JsonValue,
    sanitize: bool,
    plan: Result<Seq<ChapterValue>, PipelineError>,
) -> bool {
    match plan {
        Ok(chapters) => {
            &&& chapter_records(doc) matches Some(records)
            &&& chapters.len() == records.len()
            &&& forall|i: int|
                0 <= i < records.len() ==> {
                    &&& missing_field(#[trigger] records[i]) is None
                    &&& chapters[i] == descriptor_of(records[i], i, sanitize)
                }
        },
        Err(PipelineError::MissingChapters) => chapter_records(doc) is None,
        Err(PipelineError::MalformedChapter { ordinal, field }) => {
            &&& chapter_records(doc) matches Some(records)
            &&& 1 <= ordinal <= records.len()
            &&& missing_field(records[ordinal - 1]) == Some(field)
            &&& forall|i: int| 0 <= i < ordinal - 1 ==> missing_field(#[trigger] records[i]) is None
        },
        Err(_) => false,
    }
}

/// The outcome of [`split_chapters`] as a value.
pub open spec fn split_value(plan: Result<Vec<ChapterDescriptor>, PipelineError>) -> Result<
    Seq<ChapterValue>,
    PipelineError,
> {
    match plan {
        Ok(descriptors) => Ok(chapter_values(descriptors@)),
        Err(e) => Err(e),
    }
}

/// Turns the chapter records of a probe document into descriptors, in the
/// order of the source and numbered from 1.
///
/// Fails with `MissingChapters` where the document has no `chapters` array,
/// and with `MalformedChapter` for the first record that lacks a timestamp.
/// With `args.sanitize` the title is sanitized for the file name.
pub fn split_chapters(args: &Args, json: &Json) -> (plan: Result<
    Vec<ChapterDescriptor>,
    PipelineError,
>)
    ensures
        splits_as(json@, args.sanitize, split_value(plan)),
{
    let records = match json.get("chapters") {
        Some(chapters) => match chapters.as_array() {
            Some(records) => records,
            None => {
                return Err(PipelineError::MissingChapters);
            },
        },
        None => {
            return Err(PipelineError::MissingChapters);
        },
    };
    let ghost values = values_of(records@);
    let mut descriptors: Vec<ChapterDescriptor> = Vec::new();
    let mut i: usize = 0;
    while i < records.len()
        invariant
            i <= records.len(),
            descriptors.len() == i,
            values == values_of(records@),
            chapter_records(json@) == Some(values),
            forall|j: int|
                0 <= j < i ==> {
                    &&& missing_field(#[trigger] values[j]) is None
                    &&& descriptors[j]@ == descriptor_of(values[j], j, args.sanitize)
                },
        decreases records.len() - i,
    {
        let record = &records[i];
        assert(record@ == values[i as int]);
        let start = match member_text(record, "start_time") {
            Some(start) => start,
            None => {
                return Err(
                    PipelineError::MalformedChapter { ordinal: i + 1, field: ChapterField::StartTime },
                );
            },
        };
        let end = match member_text(record, "end_time") {
            Some(end) => end,
            None => {
                return Err(
                    PipelineError::MalformedChapter { ordinal: i + 1, field: ChapterField::EndTime },
                );
            },
        };
        let title = match title_of(record) {
            Some(title) => title,
            None => "Chapter",
        };
        let safe_title = if args.sanitize {
            sanitize_filename(title)
        } else {
            String::from_str(title)
        };
        descriptors.push(
            ChapterDescriptor {
                ordinal: i + 1,
                start: String::from_str(start),
                end: String::from_str(end),
                title: String::from_str(title),
                safe_title,
            },
        );
        i = i + 1;
    }
    Ok(descriptors)
}

/// A document whose chapter records all have both timestamps is split into
/// one descriptor for each record, in the order of the records, with the
/// ordinals 1, 2, 3 and so on.
pub proof fn lemma_well_formed_chapters_split(
    doc: JsonValue,
    sanitize: bool,
    plan: Result<Seq<ChapterValue>, PipelineError>,
)
    requires
        splits_as(doc, sanitize, plan),
        chapter_records(doc) is Some,
        forall|i: int|
            0 <= i < chapter_records(doc)->0.len() ==> missing_field(
                #[trigger] chapter_records(doc)->0[i],
            ) is None,
    ensures
        plan is Ok,
        plan->Ok_0.len() == chapter_records(doc)->0.len(),
        forall|i: int|
            0 <= i < plan->Ok_0.len() ==> {
                &&& (#[trigger] plan->Ok_0[i]).ordinal == i + 1
                &&& plan->Ok_0[i] == descriptor_of(chapter_records(doc)->0[i], i, sanitize)
            },
{
    let records = chapter_records(doc)->0;
    match plan {
        Ok(chapters) => {
            assert forall|i: int| 0 <= i < chapters.len() implies {
                &&& (#[trigger] chapters[i]).ordinal == i + 1
                &&& chapters[i] == descriptor_of(records[i], i, sanitize)
            } by {
                assert(missing_field(records[i]) is None);
            }
        },
        Err(PipelineError::MalformedChapter { ordinal, field }) => {
            assert(missing_field(records[ordinal - 1]) is None);
        },
        Err(_) => {},
    }
}

/// A document is split in one way only.
pub proof fn lemma_split_is_determined(
    doc: JsonValue,
    sanitize: bool,
    one: Result<Seq<ChapterValue>, PipelineError>,
    other: Result<Seq<ChapterValue>, PipelineError>,
)
    requires
        splits_as(doc, sanitize, one),
        splits_as(doc, sanitize, other),
    ensures
        one == other,
{
    match (one, other) {
        (Ok(a), Ok(b)) => {
            let records = chapter_records(doc)->0;
            assert forall|i: int| 0 <= i < a.len() implies a[i] == b[i] by {
                assert(missing_field(records[i]) is None);
            }
            assert(a =~= b);
        },
        (Ok(a), Err(PipelineError::MalformedChapter { ordinal, field })) => {
            let records = chapter_records(doc)->0;
            assert(missing_field(records[ordinal - 1]) is None);
        },
        (Err(PipelineError::MalformedChapter { ordinal, field }), Ok(b)) => {
            let records = chapter_records(doc)->0;
            assert(missing_field(records[ordinal - 1]) is None);
        },
        (
            Err(PipelineError::MalformedChapter { ordinal: first, field: a }),
            Err(PipelineError::MalformedChapter { ordinal: second, field: b }),
        ) => {
            let records = chapter_records(doc)->0;
            if first < second {
                assert(missing_field(records[first - 1]) is None);
            } else if second < first {
                assert(missing_field(records[second - 1]) is None);
            }
        },
        _ => {},
    }
}

/// The extension of the segments that are cut from the source.
pub const CONTAINER_EXTENSION: &'static str = "m4b";

/// The extension of the segments after conversion.
pub const COMPRESSED_EXTENSION: &'static str = "mp3";

/// The file name of a chapter's segment: ordinal, underscore, safe title,
/// and the container extension.
pub open spec fn segment_name(chapter: ChapterValue) -> Seq<char> {
    decimal(chapter.ordinal) + "_"@ + chapter.safe_title + "."@ + CONTAINER_EXTENSION@
}

/// The notice that announces the extraction of a chapter.
pub open spec fn chapter_notice(chapter: ChapterValue) -> Seq<char> {
    "🎵 Chapter "@ + decimal(chapter.ordinal) + ": "@ + chapter.safe_title
}

impl ChapterDescriptor {
    /// The notice to give when the extraction of the chapter begins.
    pub fn notice(&self) -> (text: String)
        ensures
            text@ == chapter_notice(self@),
    {
        String::from_str("🎵 Chapter ").concat(u64_to_decimal(self.ordinal as u64).as_str()).concat(
            ": ",
        ).concat(self.safe_title.as_str())
    }

    /// The file name of the chapter's segment.
    pub fn file_name(&self) -> (name: String)
        ensures
            name@ == segment_name(self@),
    {
        u64_to_decimal(self.ordinal as u64).concat("_").concat(self.safe_title.as_str()).concat(
            ".",
        ).concat(CONTAINER_EXTENSION)
    }
}

/// Appends one argument to a command line.
pub(crate) fn push_arg(args: &mut Vec<String>, text: &str)
    ensures
        final(args).deep_view() == old(args).deep_view().push(text@),
{
    args.push(String::from_str(text));
    assert(args.deep_view() =~= old(args).deep_view().push(text@));
}

/// The arguments of the probe: report format, streams and chapters of
/// `input` as JSON, and print errors only.
pub open spec fn probe_args_text(input: Seq<char>) -> Seq<Seq<char>> {
    seq![
        "-v"@,
        "error"@,
        "-print_format"@,
        "json"@,
        "-show_format"@,
        "-show_streams"@,
        "-show_chapters"@,
        input,
    ]
}

/// The arguments that the probe is started with for `input`.
pub fn probe_args(input: &str) -> (args: Vec<String>)
    ensures
        args.deep_view() == probe_args_text(input@),
{
    let mut args: Vec<String> = Vec::new();
    assert(args.deep_view() =~= Seq::empty());
    push_arg(&mut args, "-v");
    push_arg(&mut args, "error");
    push_arg(&mut args, "-print_format");
    push_arg(&mut args, "json");
    push_arg(&mut args, "-show_format");
    push_arg(&mut args, "-show_streams");
    push_arg(&mut args, "-show_chapters");
    push_arg(&mut args, input);
    assert(args.deep_view() =~= probe_args_text(input@));
    args
}

/// The arguments that copy the time range of `chapter` out of `input` into
/// `output_path`, without re-encoding.
pub open spec fn split_args_text(
    input: Seq<char>,
    chapter: ChapterValue,
    output_path: Seq<char>,
) -> Seq<Seq<char>> {
    seq![
        "-loglevel"@,
        "error"@,
        "-y"@,
        "-i"@,
        input,
        "-ss"@,
        chapter.start,
        "-to"@,
        chapter.end,
        "-c"@,
        "copy"@,
        output_path,
    ]
}

/// The arguments that the extraction tool is started with for one chapter.
pub fn split_args(input: &str, chapter: &ChapterDescriptor, output_path: &str) -> (args: Vec<
    String,
>)
    ensures
        args.deep_view() == split_args_text(input@, chapter@, output_path@),
{
    let mut args: Vec<String> = Vec::new();
    assert(args.deep_view() =~= Seq::empty());
    push_arg(&mut args, "-loglevel");
    push_arg(&mut args, "error");
    push_arg(&mut args, "-y");
    push_arg(&mut args, "-i");
    push_arg(&mut args, input);
    push_arg(&mut args, "-ss");
    push_arg(&mut args, chapter.start.as_str());
    push_arg(&mut args, "-to");
    push_arg(&mut args, chapter.end.as_str());
    push_arg(&mut args, "-c");
    push_arg(&mut args, "copy");
    push_arg(&mut args, output_path);
    assert(args.deep_view() =~= split_args_text(input@, chapter@, output_path@));
    args
}

/// The position of the last dot in a file name.
pub open spec fn last_dot(name: Seq<char>) -> Option<int>
    decreases name.len(),
{
    if name.len() == 0 {
        None
    } else if name.last() == '.' {
        Some(name.len() - 1)
    } else {
        last_dot(name.drop_last())
    }
}

/// The extension of a file name: what follows its last dot. A name without
/// a dot has none, nor has a name whose only dot is its first character.
pub open spec fn extension(name: Seq<char>) -> Option<Seq<char>> {
    match last_dot(name) {
        Some(dot) => if dot > 0 {
            Some(name.subrange(dot + 1, name.len() as int))
        } else {
            None
        },
        None => None,
    }
}

/// A file name without its extension and the dot before it.
pub open spec fn stem(name: Seq<char>) -> Seq<char> {
    match last_dot(name) {
        Some(dot) => if dot > 0 {
            name.subrange(0, dot)
        } else {
            name
        },
        None => name,
    }
}

/// A file name with `ext` in place of its extension.
pub open spec fn with_extension(name: Seq<char>, ext: Seq<char>) -> Seq<char> {
    stem(name) + "."@ + ext
}

proof fn lemma_last_dot(name: Seq<char>)
    ensures
        match last_dot(name) {
            Some(dot) => {
                &&& 0 <= dot < name.len()
                &&& name[dot] == '.'
                &&& forall|i: int| dot < i < name.len() ==> name[i] != '.'
            },
            None => forall|i: int| 0 <= i < name.len() ==> name[i] != '.',
        },
    decreases name.len(),
{
    if name.len() > 0 && name.last() != '.' {
        let shorter = name.drop_last();
        lemma_last_dot(shorter);
        assert forall|i: int| 0 <= i < shorter.len() implies shorter[i] == name[i] by {}
        match last_dot(shorter) {
            Some(dot) => {
                assert(name[dot] == shorter[dot]);
                assert forall|i: int| dot < i < name.len() implies name[i] != '.' by {
                    if i < shorter.len() {
                        assert(shorter[i] != '.');
                    }
                }
            },
            None => {
                assert forall|i: int| 0 <= i < name.len() implies name[i] != '.' by {
                    if i < shorter.len() {
                        assert(shorter[i] != '.');
                    }
                }
            },
        }
    }
}

proof fn lemma_last_dot_found(name: Seq<char>, dot: int)
    requires
        0 <= dot < name.len(),
        name[dot] == '.',
        forall|i: int| dot < i < name.len() ==> name[i] != '.',
    ensures
        last_dot(name) == Some(dot),
{
    lemma_last_dot(name);
}

proof fn lemma_no_dot(name: Seq<char>)
    requires
        forall|i: int| 0 <= i < name.len() ==> name[i] != '.',
    ensures
        last_dot(name) is None,
{
    lemma_last_dot(name);
}

/// Where the extension of `name` starts, counted in characters.
fn extension_start(name: &str) -> (start: Option<usize>)
    ensures
        match start {
            Some(at) => last_dot(name@) == Some(at - 1) && 1 < at <= name@.len(),
            None => extension(name@) is None && stem(name@) == name@,
        },
{
    let len: usize = name.unicode_len();
    let mut i: usize = len;
    while i > 0
        invariant
            i <= len,
            len == name@.len(),
            forall|j: int| i <= j < len ==> name@[j] != '.',
        decreases i,
    {
        i = i - 1;
        if name.get_char(i) == '.' {
            proof {
                lemma_last_dot_found(name@, i as int);
            }
            if i > 0 {
                return Some(i + 1);
            } else {
                return None;
            }
        }
    }
    proof {
        lemma_no_dot(name@);
    }
    None
}

/// Whether the extension of `name` is `ext`.
pub fn has_extension(name: &str, ext: &str) -> (yes: bool)
    ensures
        yes == (extension(name@) == Some(ext@)),
{
    match extension_start(name) {
        Some(at) => *name.substring_char(at, name.unicode_len()) == *ext,
        None => false,
    }
}

/// `name` with `ext` in place of its extension.
pub fn replace_extension(name: &str, ext: &str) -> (renamed: String)
    ensures
        renamed@ == with_extension(name@, ext@),
{
    let kept = match extension_start(name) {
        Some(at) => name.substring_char(0, at - 1),
        None => name,
    };
    String::from_str(kept).concat(".").concat(ext)
}

/// The exit of an external tool.
#[derive(Debug, Clone, Copy, PartialEq, Eq)]
pub enum CommandOutcome {
    /// The tool ran and reported success.
    Succeeded,
    /// The tool ran and reported failure.
    Failed,
    /// The tool could not be started.
    NotStarted,
}

/// The conversion of one segment: the file to read, the file to write
/// beside it, and the quality to encode with.
#[derive(Debug, Clone, PartialEq, Eq)]
pub struct TranscodeJob {
    pub source: String,
    pub target: String,
    pub quality: u8,
}

/// The mathematical value of a [`TranscodeJob`].
pub struct TranscodeValue {
    pub source: Seq<char>,
    pub target: Seq<char>,
    pub quality: u8,
}

impl View for TranscodeJob {
    type V = TranscodeValue;

    open spec fn view(&self) -> TranscodeValue {
        TranscodeValue { source: self.source@, target: self.target@, quality: self.quality }
    }
}

/// The values of a list of jobs, in order.
pub open spec fn job_values(jobs: Seq<TranscodeJob>) -> Seq<TranscodeValue> {
    Seq::new(jobs.len(), |i: int| jobs[i]@)
}

/// True for the file names that carry the container extension.
pub open spec fn is_segment(name: Seq<char>) -> bool {
    extension(name) == Some(CONTAINER_EXTENSION@)
}

/// The conversion of the segment called `name`.
pub open spec fn job_for(name: Seq<char>, quality: u8) -> TranscodeValue {
    TranscodeValue {
        source: name,
        target: with_extension(name, COMPRESSED_EXTENSION@),
        quality,
    }
}

/// One conversion for each segment among `names`, in the order of `names`.
pub open spec fn transcode_plan(names: Seq<Seq<char>>, quality: u8) -> Seq<TranscodeValue> {
    names.filter(|name: Seq<char>| is_segment(name)).map_values(
        |name: Seq<char>| job_for(name, quality),
    )
}

proof fn lemma_transcode_plan_step(names: Seq<Seq<char>>, quality: u8, i: int)
    requires
        0 <= i < names.len(),
    ensures
        transcode_plan(names.take(i + 1), quality) == if is_segment(names[i]) {
            transcode_plan(names.take(i), quality).push(job_for(names[i], quality))
        } else {
            transcode_plan(names.take(i), quality)
        },
{
    reveal(Seq::filter);
    let longer = names.take(i + 1);
    assert(longer.drop_last() =~= names.take(i));
    assert(longer.last() == names[i]);
    let kept = names.take(i).filter(|name: Seq<char>| is_segment(name));
    if is_segment(names[i]) {
        assert(kept.push(names[i]).map_values(|name: Seq<char>| job_for(name, quality))
            =~= kept.map_values(|name: Seq<char>| job_for(name, quality)).push(
            job_for(names[i], quality),
        ));
    }
}

/// True where no name occurs twice among `names`.
pub open spec fn distinct_names(names: Seq<Seq<char>>) -> bool {
    forall|i: int, j: int| 0 <= i < j < names.len() ==> names[i] != names[j]
}

/// A name with an extension is its stem, a dot and the extension.
proof fn lemma_name_parts(name: Seq<char>)
    requires
        extension(name) is Some,
    ensures
        name == stem(name) + seq!['.'] + extension(name)->0,
        stem(name).len() > 0,
{
    lemma_last_dot(name);
    assert(name =~= stem(name) + seq!['.'] + extension(name)->0);
}

/// The extension of a renamed file is the new extension, where that holds
/// no dot.
proof fn lemma_renamed_extension(name: Seq<char>, ext: Seq<char>)
    requires
        extension(name) is Some,
        forall|i: int| 0 <= i < ext.len() ==> ext[i] != '.',
    ensures
        extension(stem(name) + seq!['.'] + ext) == Some(ext),
{
    lemma_name_parts(name);
    let renamed = stem(name) + seq!['.'] + ext;
    let dot: int = stem(name).len() as int;
    assert(renamed[dot] == '.');
    assert forall|i: int| dot < i < renamed.len() implies renamed[i] != '.' by {
        assert(renamed[i] == ext[i - dot - 1]);
    }
    lemma_last_dot_found(renamed, dot);
    assert(renamed.subrange(dot + 1, renamed.len() as int) =~= ext);
}

/// Every job of a plan converts one of the names, a segment, and to the
/// name that the segment has with the compressed extension.
pub proof fn lemma_transcode_plan_sources(names: Seq<Seq<char>>, quality: u8)
    ensures
        transcode_plan(names, quality).len() <= names.len(),
        forall|k: int|
            0 <= k < transcode_plan(names, quality).len() ==> {
                let job = #[trigger] transcode_plan(names, quality)[k];
                &&& names.contains(job.source)
                &&& is_segment(job.source)
                &&& job == job_for(job.source, quality)
            },
    decreases names.len(),
{
    let plan = transcode_plan(names, quality);
    if names.len() == 0 {
        reveal(Seq::filter);
        assert(plan =~= Seq::empty());
    } else {
        let last: int = names.len() - 1;
        let shorter = names.take(last);
        assert(names.take(last + 1) =~= names);
        lemma_transcode_plan_step(names, quality, last);
        lemma_transcode_plan_sources(shorter, quality);
        let before = transcode_plan(shorter, quality);
        assert forall|k: int| 0 <= k < plan.len() implies {
            let job = #[trigger] plan[k];
            &&& names.contains(job.source)
            &&& is_segment(job.source)
            &&& job == job_for(job.source, quality)
        } by {
            if k < before.len() {
                assert(plan[k] == before[k]);
                let at = choose|at: int| 0 <= at < shorter.len() && shorter[at] == before[k].source;
                assert(names[at] == before[k].source);
            } else {
                assert(plan[k] == job_for(names[last], quality));
                assert(names[last] == plan[k].source);
            }
        }
    }
}

/// The jobs of a plan do not get in each other's way: where no name occurs
/// twice in the listing, no two jobs read the same file, no two jobs write
/// the same file, and no job writes a file that a job reads.
pub proof fn lemma_transcode_jobs_do_not_collide(names: Seq<Seq<char>>, quality: u8)
    requires
        distinct_names(names),
    ensures
        forall|i: int, j: int|
            0 <= i < j < transcode_plan(names, quality).len() ==> {
                &&& (#[trigger] transcode_plan(names, quality)[i]).source != (
                #[trigger] transcode_plan(names, quality)[j]).source
                &&& transcode_plan(names, quality)[i].target != transcode_plan(
                    names,
                    quality,
                )[j].target
            },
        forall|i: int, j: int|
            0 <= i < transcode_plan(names, quality).len() && 0 <= j < transcode_plan(
                names,
                quality,
            ).len() ==> (#[trigger] transcode_plan(names, quality)[i]).target != (
            #[trigger] transcode_plan(names, quality)[j]).source,
    decreases names.len(),
{
    let plan = transcode_plan(names, quality);
    lemma_transcode_plan_sources(names, quality);
    reveal_strlit("m4b");
    reveal_strlit("mp3");
    reveal_strlit(".");
    assert("."@ =~= seq!['.']);
    assert("m4b"@[1] != "mp3"@[1]);
    assert forall|i: int, j: int| 0 <= i < plan.len() && 0 <= j < plan.len() implies (
    #[trigger] plan[i]).target != (#[trigger] plan[j]).source by {
        lemma_renamed_extension(plan[i].source, COMPRESSED_EXTENSION@);
    }
    if names.len() > 0 {
        let last: int = names.len() - 1;
        let shorter = names.take(last);
        assert(names.take(last + 1) =~= names);
        lemma_transcode_plan_step(names, quality, last);
        lemma_transcode_jobs_do_not_collide(shorter, quality);
        lemma_transcode_plan_sources(shorter, quality);
        let before = transcode_plan(shorter, quality);
        assert forall|i: int, j: int| 0 <= i < j < plan.len() implies {
            &&& (#[trigger] plan[i]).source != (#[trigger] plan[j]).source
            &&& plan[i].target != plan[j].target
        } by {
            if j < before.len() {
                assert(plan[i] == before[i] && plan[j] == before[j]);
            } else {
                assert(plan[i] == before[i]);
                assert(plan[j].source == names[last]);
                let at = choose|at: int| 0 <= at < shorter.len() && shorter[at] == before[i].source;
                assert(names[at] == plan[i].source);
            }
            let a = plan[i].source;
            let b = plan[j].source;
            lemma_name_parts(a);
            lemma_name_parts(b);
            if plan[i].target == plan[j].target {
                let tail = seq!['.'] + COMPRESSED_EXTENSION@;
                assert(plan[i].target =~= stem(a) + tail);
                assert(plan[j].target =~= stem(b) + tail);
                assert(stem(a).len() == stem(b).len());
                assert(stem(a) =~= (stem(a) + tail).subrange(0, stem(a).len() as int));
                assert(stem(b) =~= (stem(b) + tail).subrange(0, stem(b).len() as int));
                assert(a == b);
            }
        }
    }
}

/// Plans the conversion of the segments in the output directory.
///
/// `file_names` are the names of the files that the directory holds. The
/// plan has one job for each name with the container extension, in the order
/// of `file_names`; the job writes a file of the same name with the
/// compressed extension, at `quality`.
pub fn convert_to_mp3(file_names: &Vec<String>, quality: u8) -> (jobs: Vec<TranscodeJob>)
    ensures
        job_values(jobs@) == transcode_plan(file_names.deep_view(), quality),
{
    let ghost names = file_names.deep_view();
    let mut jobs: Vec<TranscodeJob> = Vec::new();
    let mut i: usize = 0;
    proof {
        reveal(Seq::filter);
        assert(names.take(0) =~= Seq::empty());
        assert(job_values(jobs@) =~= transcode_plan(names.take(0), quality));
    }
    while i < file_names.len()
        invariant
            i <= file_names.len(),
            names == file_names.deep_view(),
            job_values(jobs@) == transcode_plan(names.take(i as int), quality),
        decreases file_names.len() - i,
    {
        let name = file_names[i].as_str();
        assert(name@ == names[i as int]);
        proof {
            lemma_transcode_plan_step(names, quality, i as int);
        }
        if has_extension(name, CONTAINER_EXTENSION) {
            let ghost before = job_values(jobs@);
            jobs.push(
                TranscodeJob {
                    source: String::from_str(name),
                    target: replace_extension(name, COMPRESSED_EXTENSION),
                    quality,
                },
            );
            assert(job_values(jobs@) =~= before.push(job_for(name@, quality)));
        }
        i = i + 1;
    }
    assert(names.take(i as int) =~= names);
    jobs
}

/// The arguments that encode `source_path` into `target_path` at `quality`.
pub open spec fn transcode_args_text(
    source_path: Seq<char>,
    target_path: Seq<char>,
    quality: u8,
) -> Seq<Seq<char>> {
    seq![
        "-loglevel"@,
        "error"@,
        "-y"@,
        "-i"@,
        source_path,
        "-acodec"@,
        "libmp3lame"@,
        "-qscale:a"@,
        decimal(quality as int),
        target_path,
    ]
}

/// The arguments that the encoder is started with for one segment.
pub fn transcode_args(source_path: &str, target_path: &str, quality: u8) -> (args: Vec<String>)
    ensures
        args.deep_view() == transcode_args_text(source_path@, target_path@, quality),
{
    let mut args: Vec<String> = Vec::new();
    assert(args.deep_view() =~= Seq::empty());
    push_arg(&mut args, "-loglevel");
    push_arg(&mut args, "error");
    push_arg(&mut args, "-y");
    push_arg(&mut args, "-i");
    push_arg(&mut args, source_path);
    push_arg(&mut args, "-acodec");
    push_arg(&mut args, "libmp3lame");
    push_arg(&mut args, "-qscale:a");
    push_arg(&mut args, u64_to_decimal(quality as u64).as_str());
    push_arg(&mut args, target_path);
    assert(args.deep_view() =~= transcode_args_text(source_path@, target_path@, quality));
    args
}

/// What becomes of a segment after the attempt to convert it.
#[derive(Debug, Clone, PartialEq, Eq)]
pub enum TranscodeVerdict {
    /// The conversion succeeded: the source segment is deleted.
    RemoveSource,
    /// The conversion failed: the source segment stays, and the warning is
    /// reported.
    KeepSource { warning: String },
}

/// The warning for a segment whose conversion did not succeed.
pub open spec fn transcode_warning(source_path: Seq<char>, outcome: CommandOutcome) -> Seq<char> {
    match outcome {
        CommandOutcome::NotStarted => "Failed to run ffmpeg for '"@ + source_path + "'"@,
        _ => "Conversion failed for '"@ + source_path + "'"@,
    }
}

/// Decides what becomes of the segment at `source_path` once the encoder
/// has ended with `outcome`: only a success lets the source be deleted.
pub fn settle_transcode(source_path: &str, outcome: CommandOutcome) -> (verdict: TranscodeVerdict)
    ensures
        match verdict {
            TranscodeVerdict::RemoveSource => outcome == CommandOutcome::Succeeded,
            TranscodeVerdict::KeepSource { warning } => {
                &&& outcome != CommandOutcome::Succeeded
                &&& warning@ == transcode_warning(source_path@, outcome)
            },
        },
{
    match outcome {
        CommandOutcome::Succeeded => TranscodeVerdict::RemoveSource,
        CommandOutcome::Failed => TranscodeVerdict::KeepSource {
            warning: String::from_str("Conversion failed for '").concat(source_path).concat("'"),
        },
        CommandOutcome::NotStarted => TranscodeVerdict::KeepSource {
            warning: String::from_str("Failed to run ffmpeg for '").concat(source_path).concat(
                "'",
            ),
        },
    }
}

/// What the conversion step reports to the run.
///
/// `verdicts` holds the verdicts on the jobs that were run, or is `None`
/// where the output directory could not be listed. The step has succeeded
/// as soon as the directory was listed, whatever the verdicts: a segment
/// that could not be converted keeps its source and is reported, and does
/// not fail the run.
pub open spec fn conversion_outcome(verdicts: Option<Seq<TranscodeVerdict>>) -> CommandOutcome {
    match verdicts {
        Some(_) => CommandOutcome::Succeeded,
        None => CommandOutcome::Failed,
    }
}

/// Decides how the conversion step ended, from the verdicts on its jobs.
pub fn settle_conversion(verdicts: Option<&Vec<TranscodeVerdict>>) -> (outcome: CommandOutcome)
    ensures
        outcome == conversion_outcome(
            match verdicts {
                Some(list) => Some(list@),
                None => None,
            },
        ),
{
    match verdicts {
        Some(_) => CommandOutcome::Succeeded,
        None => CommandOutcome::Failed,
    }
}

} // verus!
