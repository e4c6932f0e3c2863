use vstd::prelude::*;

verus! {

/// The options of a run.
#[derive(Debug, Clone, PartialEq, Eq)]
pub struct Args {
    /// The chaptered audio file to split.
    pub input: String,
    /// The directory to write to; the default is named after the input.
    pub output: Option<String>,
    /// Keep the segments in the container format: no conversion.
    pub no_convert: bool,
    /// The quality handed to the encoder, 1 (best) to 9 (worst).
    pub quality: u8,
    /// Sanitize chapter titles before they are used in file names.
    pub sanitize: bool,
}

impl Args {
    /// The output directory of a run: the one asked for, or the stem of the
    /// input's file name followed by `_chapters`.
    pub open spec fn output_dir_text(self, input_stem: Seq<char>) -> Seq<char> {
        match self.output {
            Some(dir) => dir@,
            None => input_stem + "_chapters"@,
        }
    }

    /// The output directory of a run. `input_stem` is the input's file name
    /// without its extension.
    pub fn output_dir(&self, input_stem: &str) -> (dir: String)
        ensures
            dir@ == self.output_dir_text(input_stem@),
    {
        match &self.output {
            Some(dir) => dir.clone(),
            None => String::from_str(input_stem).concat("_chapters"),
        }
    }
}

} // verus!
