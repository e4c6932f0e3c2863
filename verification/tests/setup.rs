use m4b_extractor::args::Args;
use m4b_extractor::error::{
    Artifact, ChapterField, Collaborator, PipelineError, SetupFault,
};
use m4b_extractor::utils::{check_commands, check_input, required_tools, ToolLookup};

fn lookup(name: &str, found: bool) -> ToolLookup {
    ToolLookup { name: name.to_string(), found }
}

fn options(output: Option<&str>) -> Args {
    Args {
        input: "books/book.m4b".to_string(),
        output: output.map(|dir| dir.to_string()),
        no_convert: false,
        quality: 2,
        sanitize: false,
    }
}

#[test]
fn all_tools_found_passes_the_check() {
    let lookups: Vec<ToolLookup> =
        required_tools().into_iter().map(|name| ToolLookup { name, found: true }).collect();
    assert_eq!(lookups.len(), 4);
    assert_eq!(check_commands(&lookups), Ok(()));
    assert_eq!(check_commands(&vec![]), Ok(()));
}

#[test]
fn first_missing_tool_is_reported() {
    let lookups =
        vec![lookup("ffmpeg", true), lookup("ffprobe", false), lookup("jq", true), lookup("yq", false)];
    assert_eq!(
        check_commands(&lookups),
        Err(PipelineError::SetupFailure(SetupFault::MissingTool("ffprobe".to_string())))
    );
}

#[test]
fn required_tools_are_listed_in_order() {
    assert_eq!(required_tools(), vec!["ffmpeg", "ffprobe", "jq", "yq"]);
}

#[test]
fn missing_input_is_reported() {
    assert_eq!(check_input("book.m4b", true), Ok(()));
    assert_eq!(
        check_input("book.m4b", false),
        Err(PipelineError::SetupFailure(SetupFault::MissingInput("book.m4b".to_string())))
    );
}

#[test]
fn output_directory_defaults_to_the_input_stem() {
    assert_eq!(options(None).output_dir("book"), "book_chapters");
    assert_eq!(options(None).output_dir(""), "_chapters");
    assert_eq!(options(Some("out")).output_dir("book"), "out");
}

#[test]
fn failures_describe_themselves() {
    let cases = vec![
        (
            PipelineError::SetupFailure(SetupFault::MissingTool("yq".to_string())),
            "Command 'yq' not found in PATH",
        ),
        (
            PipelineError::SetupFailure(SetupFault::MissingInput("a.m4b".to_string())),
            "Input file 'a.m4b' does not exist",
        ),
        (PipelineError::ProbeFailure("boom".to_string()), "ffprobe failed: boom"),
        (PipelineError::MetadataParseFailure, "Failed to parse ffprobe JSON"),
        (PipelineError::MissingChapters, "No chapters found in metadata"),
        (
            PipelineError::MalformedChapter { ordinal: 3, field: ChapterField::StartTime },
            "Chapter missing start_time",
        ),
        (
            PipelineError::MalformedChapter { ordinal: 3, field: ChapterField::EndTime },
            "Chapter missing end_time",
        ),
        (PipelineError::SegmentationFailure { ordinal: 12 }, "ffmpeg failed to split chapter 12"),
        (PipelineError::IoFailure(Artifact::MetadataJson), "Failed to write metadata.json"),
        (PipelineError::IoFailure(Artifact::TagsYaml), "Failed to write tags.yaml"),
        (
            PipelineError::IoFailure(Artifact::OutputDirectory),
            "Failed to read the output directory",
        ),
        (PipelineError::InvocationFailure(Collaborator::Probe), "Failed to execute ffprobe"),
        (
            PipelineError::InvocationFailure(Collaborator::Segmentation),
            "Failed to run ffmpeg for splitting chapters",
        ),
    ];
    for (failure, message) in cases {
        assert_eq!(failure.message(), message);
        assert_eq!(failure.duplicate(), failure);
    }
}
