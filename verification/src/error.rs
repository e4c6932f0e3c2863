use crate::text::{decimal, u64_to_decimal};
use vstd::prelude::*;

verus! {

/// What was missing when the run was set up.
#[derive(Debug, Clone, PartialEq, Eq)]
pub enum SetupFault {
    /// A required tool is not on the search path.
    MissingTool(String),
    /// The input file does not exist.
    MissingInput(String),
}

/// The timestamp of a chapter record.
#[derive(Debug, Clone, Copy, PartialEq, Eq)]
pub enum ChapterField {
    StartTime,
    EndTime,
}

/// The external tool invocations that end the run where the tool cannot be
/// started.
#[derive(Debug, Clone, Copy, PartialEq, Eq)]
pub enum Collaborator {
    Probe,
    Segmentation,
}

/// The files that the run writes or lists itself.
#[derive(Debug, Clone, Copy, PartialEq, Eq)]
pub enum Artifact {
    MetadataJson,
    TagsYaml,
    OutputDirectory,
}

/// The failures that end a run.
#[derive(Debug, Clone, PartialEq, Eq)]
pub enum PipelineError {
    /// A required tool or the input file is missing; nothing has run.
    SetupFailure(SetupFault),
    /// The probe exited with a failure; the text is what it reported.
    ProbeFailure(String),
    /// The probe's output is not a structured document.
    MetadataParseFailure,
    /// The probe document has no `chapters` array.
    MissingChapters,
    /// The chapter at `ordinal` lacks a timestamp.
    MalformedChapter { ordinal: usize, field: ChapterField },
    /// Extracting the chapter at `ordinal` failed.
    SegmentationFailure { ordinal: usize },
    /// A file of the output could not be written, or the output directory
    /// could not be listed.
    IoFailure(Artifact),
    /// An external tool could not be started.
    InvocationFailure(Collaborator),
}

impl PipelineError {
    /// A copy of the failure.
    pub fn duplicate(&self) -> (copy: PipelineError)
        ensures
            copy == *self,
    {
        match self {
            PipelineError::SetupFailure(SetupFault::MissingTool(name)) => {
                PipelineError::SetupFailure(SetupFault::MissingTool(name.clone()))
            },
            PipelineError::SetupFailure(SetupFault::MissingInput(path)) => {
                PipelineError::SetupFailure(SetupFault::MissingInput(path.clone()))
            },
            PipelineError::ProbeFailure(diagnostics) => PipelineError::ProbeFailure(
                diagnostics.clone(),
            ),
            PipelineError::MetadataParseFailure => PipelineError::MetadataParseFailure,
            PipelineError::MissingChapters => PipelineError::MissingChapters,
            PipelineError::MalformedChapter { ordinal, field } => PipelineError::MalformedChapter {
                ordinal: *ordinal,
                field: *field,
            },
            PipelineError::SegmentationFailure { ordinal } => PipelineError::SegmentationFailure {
                ordinal: *ordinal,
            },
            PipelineError::IoFailure(artifact) => PipelineError::IoFailure(*artifact),
            PipelineError::InvocationFailure(collaborator) => PipelineError::InvocationFailure(
                *collaborator,
            ),
        }
    }

    /// The text of [`PipelineError::message`].
    pub open spec fn message_text(self) -> Seq<char> {
        match self {
            PipelineError::SetupFailure(SetupFault::MissingTool(name)) => "Command '"@ + name@
                + "' not found in PATH"@,
            PipelineError::SetupFailure(SetupFault::MissingInput(path)) => "Input file '"@ + path@
                + "' does not exist"@,
            PipelineError::ProbeFailure(diagnostics) => "ffprobe failed: "@ + diagnostics@,
            PipelineError::MetadataParseFailure => "Failed to parse ffprobe JSON"@,
            PipelineError::MissingChapters => "No chapters found in metadata"@,
            PipelineError::MalformedChapter { ordinal, field } => match field {
                ChapterField::StartTime => "Chapter missing start_time"@,
                ChapterField::EndTime => "Chapter missing end_time"@,
            },
            PipelineError::SegmentationFailure { ordinal } => "ffmpeg failed to split chapter "@
                + decimal(ordinal as int),
            PipelineError::IoFailure(artifact) => match artifact {
                Artifact::MetadataJson => "Failed to write metadata.json"@,
                Artifact::TagsYaml => "Failed to write tags.yaml"@,
                Artifact::OutputDirectory => "Failed to read the output directory"@,
            },
            PipelineError::InvocationFailure(collaborator) => match collaborator {
                Collaborator::Probe => "Failed to execute ffprobe"@,
                Collaborator::Segmentation => "Failed to run ffmpeg for splitting chapters"@,
            },
        }
    }

    /// The message that describes the failure to the user.
    pub fn message(&self) -> (text: String)
        ensures
            text@ == self.message_text(),
    {
        match self {
            PipelineError::SetupFailure(SetupFault::MissingTool(name)) => String::from_str(
                "Command '",
            ).concat(name.as_str()).concat("' not found in PATH"),
            PipelineError::SetupFailure(SetupFault::MissingInput(path)) => String::from_str(
                "Input file '",
            ).concat(path.as_str()).concat("' does not exist"),
            PipelineError::ProbeFailure(diagnostics) => String::from_str("ffprobe failed: ").concat(
                diagnostics.as_str(),
            ),
            PipelineError::MetadataParseFailure => String::from_str("Failed to parse ffprobe JSON"),
            PipelineError::MissingChapters => String::from_str("No chapters found in metadata"),
            PipelineError::MalformedChapter { ordinal, field } => match field {
                ChapterField::StartTime => String::from_str("Chapter missing start_time"),
                ChapterField::EndTime => String::from_str("Chapter missing end_time"),
            },
            PipelineError::SegmentationFailure { ordinal } => String::from_str(
                "ffmpeg failed to split chapter ",
            ).concat(u64_to_decimal(*ordinal as u64).as_str()),
            PipelineError::IoFailure(artifact) => match artifact {
                Artifact::MetadataJson => String::from_str("Failed to write metadata.json"),
                Artifact::TagsYaml => String::from_str("Failed to write tags.yaml"),
                Artifact::OutputDirectory => String::from_str("Failed to read the output directory"),
            },
            PipelineError::InvocationFailure(collaborator) => match collaborator {
                Collaborator::Probe => String::from_str("Failed to execute ffprobe"),
                Collaborator::Segmentation => String::from_str(
                    "Failed to run ffmpeg for splitting chapters",
                ),
            },
        }
    }
}

} // verus!
