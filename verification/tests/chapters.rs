use m4b_extractor::args::Args;
use m4b_extractor::commands::{probe_args, split_args, split_chapters, ChapterDescriptor};
use m4b_extractor::error::{ChapterField, PipelineError};
use m4b_extractor::json::{Json, Member};

fn text(s: &str) -> Json {
    Json::Text(s.to_string())
}

fn object(members: Vec<(&str, Json)>) -> Json {
    Json::Object(
        members.into_iter().map(|(key, value)| Member { key: key.to_string(), value }).collect(),
    )
}

fn chapter(id: i64, title: &str, start: &str, end: &str) -> Json {
    object(vec![
        ("id", Json::integer(id)),
        ("start_time", text(start)),
        ("end_time", text(end)),
        ("tags", object(vec![("title", text(title))])),
    ])
}

fn options(sanitize: bool) -> Args {
    Args { input: "book.m4b".to_string(), output: None, no_convert: false, quality: 2, sanitize }
}

fn two_chapters() -> Json {
    object(vec![(
        "chapters",
        Json::Array(vec![chapter(0, "Intro", "0.0", "60.0"), chapter(1, "Ch:1!", "60.0", "120.0")]),
    )])
}

fn descriptor(ordinal: usize, start: &str, end: &str, title: &str, safe: &str) -> ChapterDescriptor {
    ChapterDescriptor {
        ordinal,
        start: start.to_string(),
        end: end.to_string(),
        title: title.to_string(),
        safe_title: safe.to_string(),
    }
}

#[test]
fn chapters_are_split_in_order_with_sanitized_titles() {
    let plan = split_chapters(&options(true), &two_chapters()).unwrap();
    assert_eq!(
        plan,
        vec![
            descriptor(1, "0.0", "60.0", "Intro", "Intro"),
            descriptor(2, "60.0", "120.0", "Ch:1!", "Ch_1_"),
        ]
    );
    assert_eq!(plan[0].file_name(), "1_Intro.m4b");
    assert_eq!(plan[1].file_name(), "2_Ch_1_.m4b");
}

#[test]
fn titles_are_kept_without_sanitization() {
    let plan = split_chapters(&options(false), &two_chapters()).unwrap();
    assert_eq!(plan[1], descriptor(2, "60.0", "120.0", "Ch:1!", "Ch:1!"));
    assert_eq!(plan[1].file_name(), "2_Ch:1!.m4b");
}

#[test]
fn every_record_gives_one_descriptor() {
    let records: Vec<Json> =
        (0..12).map(|i| chapter(i, &format!("Part {}", i), "0", "1")).collect();
    let doc = object(vec![("chapters", Json::Array(records))]);
    let plan = split_chapters(&options(true), &doc).unwrap();
    assert_eq!(plan.len(), 12);
    for (position, chapter) in plan.iter().enumerate() {
        assert_eq!(chapter.ordinal, position + 1);
        assert_eq!(chapter.title, format!("Part {}", position));
    }
    assert_eq!(plan[11].file_name(), "12_Part 11.m4b");
}

#[test]
fn empty_chapter_list_gives_no_descriptor() {
    let doc = object(vec![("chapters", Json::Array(vec![]))]);
    assert_eq!(split_chapters(&options(true), &doc), Ok(vec![]));
}

#[test]
fn missing_title_defaults_to_chapter() {
    let untitled = object(vec![("start_time", text("1.5")), ("end_time", text("2.5"))]);
    let odd_title = object(vec![
        ("start_time", text("2.5")),
        ("end_time", text("3.5")),
        ("tags", object(vec![("title", Json::integer(7))])),
    ]);
    let doc = object(vec![("chapters", Json::Array(vec![untitled, odd_title]))]);
    let plan = split_chapters(&options(true), &doc).unwrap();
    assert_eq!(plan[0], descriptor(1, "1.5", "2.5", "Chapter", "Chapter"));
    assert_eq!(plan[1], descriptor(2, "2.5", "3.5", "Chapter", "Chapter"));
    assert_eq!(plan[0].file_name(), "1_Chapter.m4b");
}

#[test]
fn missing_chapters_are_reported() {
    assert_eq!(
        split_chapters(&options(false), &object(vec![])),
        Err(PipelineError::MissingChapters)
    );
    assert_eq!(
        split_chapters(&options(false), &object(vec![("chapters", text("none"))])),
        Err(PipelineError::MissingChapters)
    );
    assert_eq!(split_chapters(&options(false), &Json::Null), Err(PipelineError::MissingChapters));
    assert_eq!(
        split_chapters(&options(false), &Json::Array(vec![])),
        Err(PipelineError::MissingChapters)
    );
}

#[test]
fn first_malformed_chapter_is_reported() {
    let no_start = object(vec![("end_time", text("2.0"))]);
    let no_end = object(vec![("start_time", text("2.0"))]);
    let neither = object(vec![]);
    let numeric_start =
        object(vec![("start_time", Json::integer(0)), ("end_time", text("2.0"))]);
    let good = || chapter(0, "ok", "0.0", "1.0");

    let doc = object(vec![("chapters", Json::Array(vec![good(), no_end, no_start]))]);
    assert_eq!(
        split_chapters(&options(false), &doc),
        Err(PipelineError::MalformedChapter { ordinal: 2, field: ChapterField::EndTime })
    );
    let doc = object(vec![("chapters", Json::Array(vec![neither]))]);
    assert_eq!(
        split_chapters(&options(false), &doc),
        Err(PipelineError::MalformedChapter { ordinal: 1, field: ChapterField::StartTime })
    );
    let doc = object(vec![("chapters", Json::Array(vec![good(), good(), numeric_start]))]);
    assert_eq!(
        split_chapters(&options(false), &doc),
        Err(PipelineError::MalformedChapter { ordinal: 3, field: ChapterField::StartTime })
    );
}

#[test]
fn chapter_notice_names_ordinal_and_safe_title() {
    let plan = split_chapters(&options(true), &two_chapters()).unwrap();
    assert_eq!(plan[1].notice(), "🎵 Chapter 2: Ch_1_");
}

#[test]
fn split_arguments_copy_the_time_range() {
    let chapter = descriptor(2, "60.0", "120.0", "Ch:1!", "Ch_1_");
    assert_eq!(
        split_args("book.m4b", &chapter, "out/2_Ch_1_.m4b"),
        vec![
            "-loglevel", "error", "-y", "-i", "book.m4b", "-ss", "60.0", "-to", "120.0", "-c",
            "copy", "out/2_Ch_1_.m4b",
        ]
    );
}

#[test]
fn probe_arguments_ask_for_format_streams_and_chapters() {
    assert_eq!(
        probe_args("book.m4b"),
        vec![
            "-v", "error", "-print_format", "json", "-show_format", "-show_streams",
            "-show_chapters", "book.m4b",
        ]
    );
}
