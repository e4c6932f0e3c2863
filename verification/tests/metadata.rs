use m4b_extractor::commands::CommandOutcome;
use m4b_extractor::error::{Collaborator, PipelineError};
use m4b_extractor::json::{Json, JsonNumber, Member};
use m4b_extractor::metadata::{
    cover_args, extract_cover, run_ffprobe_json, write_metadata_files, COVER_FILE_NAME,
    METADATA_FILE_NAME, TAGS_FILE_NAME,
};
use m4b_extractor::tags::TagDocument;

fn text(s: &str) -> Json {
    Json::Text(s.to_string())
}

fn object(members: Vec<(&str, Json)>) -> Json {
    Json::Object(
        members.into_iter().map(|(key, value)| Member { key: key.to_string(), value }).collect(),
    )
}

fn chapter(id: Json, title: Option<&str>) -> Json {
    let mut members = vec![("id", id), ("start_time", text("0")), ("end_time", text("1"))];
    if let Some(title) = title {
        members.push(("tags", object(vec![("title", text(title))])));
    }
    object(members)
}

fn stream(index: Json, attached_pic: Json) -> Json {
    object(vec![("index", index), ("disposition", object(vec![("attached_pic", attached_pic)]))])
}

fn keys(tags: &TagDocument) -> Vec<String> {
    let mut keys: Vec<String> = tags.entries().iter().map(|m| m.key.clone()).collect();
    keys.sort();
    keys
}

#[test]
fn tags_hold_chapter_titles_as_the_source_has_them() {
    let doc = object(vec![(
        "chapters",
        Json::Array(vec![
            chapter(Json::integer(0), Some("Intro")),
            chapter(Json::integer(1), Some("Ch:1!")),
        ]),
    )]);
    let tags = write_metadata_files(&doc);
    assert_eq!(tags.len(), 2);
    assert_eq!(tags.get("Chapter_0"), Some(&text("Intro")));
    assert_eq!(tags.get("Chapter_1"), Some(&text("Ch:1!")));
    assert_eq!(tags.get("Chapter_2"), None);
}

#[test]
fn tags_overlay_container_tags_with_chapter_tags() {
    let doc = object(vec![
        (
            "format",
            object(vec![(
                "tags",
                object(vec![
                    ("title", text("The Book")),
                    ("artist", text("An Author")),
                    ("Chapter_1", text("shadowed")),
                    ("track", Json::integer(3)),
                ]),
            )]),
        ),
        (
            "chapters",
            Json::Array(vec![
                chapter(Json::integer(1), Some("One")),
                chapter(text("2"), Some("no integer id")),
                chapter(Json::integer(-3), None),
                object(vec![]),
            ]),
        ),
    ]);
    let tags = write_metadata_files(&doc);
    assert_eq!(keys(&tags), vec!["Chapter_-3", "Chapter_1", "artist", "title", "track"]);
    assert_eq!(tags.get("title"), Some(&text("The Book")));
    assert_eq!(tags.get("artist"), Some(&text("An Author")));
    assert_eq!(tags.get("track"), Some(&Json::integer(3)));
    assert_eq!(tags.get("Chapter_1"), Some(&text("One")));
    assert_eq!(tags.get("Chapter_-3"), Some(&text("Untitled")));
    assert_eq!(tags.len(), 5);
}

#[test]
fn later_chapter_with_the_same_id_wins() {
    let doc = object(vec![(
        "chapters",
        Json::Array(vec![
            chapter(Json::integer(4), Some("first")),
            chapter(Json::integer(5), Some("other")),
            chapter(Json::integer(4), Some("second")),
        ]),
    )]);
    let tags = write_metadata_files(&doc);
    assert_eq!(tags.len(), 2);
    assert_eq!(tags.get("Chapter_4"), Some(&text("second")));
    assert_eq!(tags.get("Chapter_5"), Some(&text("other")));
}

#[test]
fn tags_are_empty_without_format_tags_and_chapters() {
    assert_eq!(write_metadata_files(&object(vec![])).len(), 0);
    assert_eq!(write_metadata_files(&Json::Null).len(), 0);
    let doc = object(vec![
        ("format", object(vec![("tags", Json::Array(vec![text("x")]))])),
        ("chapters", text("none")),
    ]);
    assert_eq!(write_metadata_files(&doc).len(), 0);
    let doc = object(vec![("format", object(vec![("duration", text("12.0"))]))]);
    assert_eq!(write_metadata_files(&doc).len(), 0);
}

#[test]
fn tags_copy_structured_values() {
    let nested = object(vec![("a", Json::Array(vec![Json::Bool(true), Json::Null]))]);
    let fraction = Json::Number(JsonNumber { integer: None, text: "1.5".to_string() });
    let doc = object(vec![(
        "format",
        object(vec![(
            "tags",
            object(vec![
                ("nested", object(vec![("a", Json::Array(vec![Json::Bool(true), Json::Null]))])),
                ("rate", Json::Number(JsonNumber { integer: None, text: "1.5".to_string() })),
            ]),
        )]),
    )]);
    let tags = write_metadata_files(&doc);
    assert_eq!(tags.get("nested"), Some(&nested));
    assert_eq!(tags.get("rate"), Some(&fraction));
}

#[test]
fn chapter_ids_are_written_in_decimal() {
    let doc = object(vec![(
        "chapters",
        Json::Array(vec![
            chapter(Json::integer(i64::MAX), Some("last")),
            chapter(Json::integer(i64::MIN), Some("first")),
            chapter(Json::integer(10), Some("ten")),
        ]),
    )]);
    let tags = write_metadata_files(&doc);
    assert_eq!(tags.get("Chapter_9223372036854775807"), Some(&text("last")));
    assert_eq!(tags.get("Chapter_-9223372036854775808"), Some(&text("first")));
    assert_eq!(tags.get("Chapter_10"), Some(&text("ten")));
}

#[test]
fn tag_document_replaces_the_value_of_a_key() {
    let mut tags = TagDocument::new();
    assert_eq!(tags.len(), 0);
    tags.insert("a".to_string(), text("1"));
    tags.insert("b".to_string(), text("2"));
    tags.insert("a".to_string(), text("3"));
    assert_eq!(tags.len(), 2);
    assert_eq!(tags.get("a"), Some(&text("3")));
    assert_eq!(tags.get("b"), Some(&text("2")));
    assert_eq!(tags.get("c"), None);
    assert_eq!(tags.entries()[0], Member { key: "a".to_string(), value: text("3") });
}

#[test]
fn cover_is_the_first_attached_picture_with_an_index() {
    let doc = object(vec![(
        "streams",
        Json::Array(vec![
            stream(Json::integer(0), Json::integer(0)),
            stream(text("1"), Json::integer(1)),
            stream(Json::integer(2), Json::integer(1)),
            stream(Json::integer(3), Json::integer(1)),
        ]),
    )]);
    assert_eq!(extract_cover(&doc), Some(2));
}

#[test]
fn source_without_attached_picture_has_no_cover() {
    let doc = object(vec![(
        "streams",
        Json::Array(vec![
            stream(Json::integer(0), Json::integer(0)),
            stream(Json::integer(1), Json::integer(2)),
            stream(Json::integer(2), text("1")),
            object(vec![("index", Json::integer(3))]),
        ]),
    )]);
    assert_eq!(extract_cover(&doc), None);
    assert_eq!(extract_cover(&object(vec![("streams", Json::Array(vec![]))])), None);
}

#[test]
fn document_without_streams_has_no_cover() {
    assert_eq!(extract_cover(&object(vec![])), None);
    assert_eq!(extract_cover(&object(vec![("chapters", Json::Array(vec![]))])), None);
    assert_eq!(extract_cover(&object(vec![("streams", object(vec![]))])), None);
    assert_eq!(extract_cover(&object(vec![("streams", text("none"))])), None);
    assert_eq!(extract_cover(&Json::Null), None);
}

#[test]
fn cover_arguments_map_the_stream() {
    assert_eq!(
        cover_args("book.m4b", 2, "out/folder.jpg"),
        vec![
            "-hide_banner", "-loglevel", "quiet", "-y", "-i", "book.m4b", "-map", "0:2", "-c",
            "copy", "out/folder.jpg",
        ]
    );
}

#[test]
fn probe_failure_carries_the_diagnostics() {
    assert_eq!(
        run_ffprobe_json(CommandOutcome::Failed, "no such file".to_string(), None),
        Err(PipelineError::ProbeFailure("no such file".to_string()))
    );
    assert_eq!(
        run_ffprobe_json(CommandOutcome::Failed, "bad".to_string(), Some(Json::Null)),
        Err(PipelineError::ProbeFailure("bad".to_string()))
    );
}

#[test]
fn probe_output_that_is_no_document_is_a_parse_failure() {
    assert_eq!(
        run_ffprobe_json(CommandOutcome::Succeeded, String::new(), None),
        Err(PipelineError::MetadataParseFailure)
    );
}

#[test]
fn probe_that_cannot_start_is_an_invocation_failure() {
    assert_eq!(
        run_ffprobe_json(CommandOutcome::NotStarted, String::new(), None),
        Err(PipelineError::InvocationFailure(Collaborator::Probe))
    );
}

#[test]
fn probe_success_gives_the_document() {
    let doc = object(vec![("chapters", Json::Array(vec![]))]);
    let same = object(vec![("chapters", Json::Array(vec![]))]);
    assert_eq!(run_ffprobe_json(CommandOutcome::Succeeded, "warning".to_string(), Some(doc)), Ok(same));
}

#[test]
fn output_files_have_fixed_names() {
    assert_eq!(METADATA_FILE_NAME, "metadata.json");
    assert_eq!(TAGS_FILE_NAME, "tags.yaml");
    assert_eq!(COVER_FILE_NAME, "folder.jpg");
}
