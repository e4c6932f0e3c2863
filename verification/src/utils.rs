use crate::error::{PipelineError, SetupFault};
use vstd::prelude::*;

verus! {

/// The pattern that matches one character that a sanitized title may not keep.
pub const UNSAFE_CHAR_PATTERN: &'static str = "[^A-Za-z0-9 _-]";

/// The pattern that matches a run of underscores.
pub const UNDERSCORE_RUN_PATTERN: &'static str = "_+";

/// What every match is replaced with.
pub const REPLACEMENT: &'static str = "_";

/// Whether a tool was found on the search path.
#[derive(Debug, Clone, PartialEq, Eq)]
pub struct ToolLookup {
    pub name: String,
    pub found: bool,
}

/// What the check of the required tools gives: the first tool that was not
/// found is reported as missing.
pub open spec fn checks_as(lookups: Seq<ToolLookup>, checked: Result<(), PipelineError>) -> bool {
    match checked {
        Ok(_) => forall|i: int| 0 <= i < lookups.len() ==> (#[trigger] lookups[i]).found,
        Err(PipelineError::SetupFailure(SetupFault::MissingTool(name))) => exists|at: int|
            {
                &&& 0 <= at < lookups.len()
                &&& !(#[trigger] lookups[at]).found
                &&& lookups[at].name@ == name@
                &&& forall|j: int| 0 <= j < at ==> (#[trigger] lookups[j]).found
            },
        Err(_) => false,
    }
}

/// Checks that every required tool was found, in the order of `lookups`.
pub fn check_commands(lookups: &Vec<ToolLookup>) -> (checked: Result<(), PipelineError>)
    ensures
        checks_as(lookups@, checked),
{
    let mut i: usize = 0;
    while i < lookups.len()
        invariant
            i <= lookups.len(),
            forall|j: int| 0 <= j < i ==> (#[trigger] lookups[j]).found,
        decreases lookups.len() - i,
    {
        if !lookups[i].found {
            let name = lookups[i].name.clone();
            assert(!lookups@[i as int].found && lookups@[i as int].name@ == name@);
            return Err(PipelineError::SetupFailure(SetupFault::MissingTool(name)));
        }
        i = i + 1;
    }
    Ok(())
}

/// The tools that a run needs on the search path.
pub open spec fn required_tools_text() -> Seq<Seq<char>> {
    seq!["ffmpeg"@, "ffprobe"@, "jq"@, "yq"@]
}

/// The tools that a run needs on the search path, in the order in which
/// they are checked.
pub fn required_tools() -> (tools: Vec<String>)
    ensures
        tools.deep_view() == required_tools_text(),
{
    let mut tools: Vec<String> = Vec::new();
    tools.push(String::from_str("ffmpeg"));
    tools.push(String::from_str("ffprobe"));
    tools.push(String::from_str("jq"));
    tools.push(String::from_str("yq"));
    assert(tools.deep_view() =~= required_tools_text());
    tools
}

/// Checks that the input file exists.
pub fn check_input(input: &str, exists: bool) -> (checked: Result<(), PipelineError>)
    ensures
        match checked {
            Ok(_) => exists,
            Err(PipelineError::SetupFailure(SetupFault::MissingInput(path))) => !exists && path@
                == input@,
            Err(_) => false,
        },
{
    if exists {
        Ok(())
    } else {
        Err(PipelineError::SetupFailure(SetupFault::MissingInput(String::from_str(input))))
    }
}

/// True for the characters that a sanitized title keeps as they are: ASCII
/// letters, ASCII digits, space, hyphen and underscore.
pub open spec fn is_safe_char(c: char) -> bool {
    ||| 'A' <= c <= 'Z'
    ||| 'a' <= c <= 'z'
    ||| '0' <= c <= '9'
    ||| c == ' '
    ||| c == '_'
    ||| c == '-'
}

/// `s` with an underscore in place of every character that is not safe.
pub open spec fn mask_unsafe(s: Seq<char>) -> Seq<char> {
    Seq::new(s.len(), |i: int| if is_safe_char(s[i]) { s[i] } else { '_' })
}

/// `s` without the underscores that directly follow an underscore: every run
/// of underscores shrinks to one.
pub open spec fn collapse_underscores(s: Seq<char>) -> Seq<char>
    decreases s.len(),
{
    if s.len() == 0 {
        s
    } else if s.len() >= 2 && s[s.len() - 2] == '_' && s.last() == '_' {
        collapse_underscores(s.drop_last())
    } else {
        collapse_underscores(s.drop_last()).push(s.last())
    }
}

/// The sanitized form of a title.
pub open spec fn sanitized(s: Seq<char>) -> Seq<char> {
    collapse_underscores(mask_unsafe(s))
}

/// Compiles `pattern` with `regex::Regex::new` and calls
/// `regex::Regex::replace_all` on `text`.
///
/// The contract covers the two patterns that the sanitization policy is
/// written with, and the replacement `_`, which holds no `$` and is
/// therefore inserted as it stands. `[^A-Za-z0-9 _-]` matches each single
/// character outside the class, so every such character becomes one
/// underscore. `_+` matches each maximal run of underscores, so every run
/// becomes one underscore.
#[verifier::external_body]
fn replace_all(pattern: &str, text: &str, replacement: &str) -> (replaced: String)
    requires
        pattern@ == UNSAFE_CHAR_PATTERN@ || pattern@ == UNDERSCORE_RUN_PATTERN@,
        replacement@ == REPLACEMENT@,
    ensures
        pattern@ == UNSAFE_CHAR_PATTERN@ ==> replaced@ == mask_unsafe(text@),
        pattern@ == UNDERSCORE_RUN_PATTERN@ ==> replaced@ == collapse_underscores(text@),
{
    regex::Regex::new(pattern).unwrap().replace_all(text, replacement).into_owned()
}

/// Rewrites a title into a form that is safe as a file name: every character
/// other than an ASCII letter, an ASCII digit, space, hyphen or underscore
/// becomes an underscore, and every run of underscores becomes one.
pub fn sanitize_filename(name: &str) -> (safe: String)
    ensures
        safe@ == sanitized(name@),
{
    let masked = replace_all(UNSAFE_CHAR_PATTERN, name, REPLACEMENT);
    replace_all(UNDERSCORE_RUN_PATTERN, masked.as_str(), REPLACEMENT)
}

/// True where no two neighbours in `s` are both underscores.
pub open spec fn no_underscore_run(s: Seq<char>) -> bool {
    forall|i: int| 0 <= i < s.len() - 1 ==> !(#[trigger] s[i] == '_' && s[i + 1] == '_')
}

/// True where `s` holds safe characters only.
pub open spec fn all_safe(s: Seq<char>) -> bool {
    forall|i: int| 0 <= i < s.len() ==> is_safe_char(#[trigger] s[i])
}

proof fn lemma_collapse_last(s: Seq<char>)
    requires
        s.len() > 0,
    ensures
        collapse_underscores(s).len() > 0,
        collapse_underscores(s).last() == s.last(),
    decreases s.len(),
{
    if s.len() >= 2 && s[s.len() - 2] == '_' && s.last() == '_' {
        lemma_collapse_last(s.drop_last());
    }
}

proof fn lemma_collapse_keeps_safe(s: Seq<char>)
    requires
        all_safe(s),
    ensures
        all_safe(collapse_underscores(s)),
    decreases s.len(),
{
    if s.len() > 0 {
        let shorter = s.drop_last();
        assert forall|i: int| 0 <= i < shorter.len() implies is_safe_char(
            #[trigger] shorter[i],
        ) by {
            assert(shorter[i] == s[i]);
        }
        lemma_collapse_keeps_safe(shorter);
        assert(is_safe_char(s[s.len() - 1]));
    }
}

proof fn lemma_collapse_no_run(s: Seq<char>)
    ensures
        no_underscore_run(collapse_underscores(s)),
    decreases s.len(),
{
    if s.len() > 0 {
        let shorter = s.drop_last();
        lemma_collapse_no_run(shorter);
        if !(s.len() >= 2 && s[s.len() - 2] == '_' && s.last() == '_') {
            let kept = collapse_underscores(shorter);
            let out = kept.push(s.last());
            if shorter.len() > 0 {
                lemma_collapse_last(shorter);
            }
            assert forall|i: int| 0 <= i < out.len() - 1 implies !(#[trigger] out[i] == '_' && out[i
                + 1] == '_') by {
                if i < kept.len() - 1 {
                    assert(out[i] == kept[i] && out[i + 1] == kept[i + 1]);
                } else {
                    assert(out[i] == kept.last());
                    assert(kept.last() == s[s.len() - 2]);
                }
            }
        }
    }
}

proof fn lemma_collapse_fixed(s: Seq<char>)
    requires
        no_underscore_run(s),
    ensures
        collapse_underscores(s) == s,
    decreases s.len(),
{
    if s.len() > 0 {
        let shorter = s.drop_last();
        assert forall|i: int| 0 <= i < shorter.len() - 1 implies !(#[trigger] shorter[i] == '_'
            && shorter[i + 1] == '_') by {
            assert(shorter[i] == s[i] && shorter[i + 1] == s[i + 1]);
        }
        lemma_collapse_fixed(shorter);
        if s.len() >= 2 {
            assert(!(s[s.len() - 2] == '_' && s[s.len() - 2 + 1] == '_'));
        }
        assert(shorter.push(s.last()) =~= s);
    }
}

/// A sanitized title holds only ASCII letters, ASCII digits, spaces, hyphens
/// and underscores, and no two underscores in a row.
pub proof fn lemma_sanitized_is_clean(s: Seq<char>)
    ensures
        all_safe(sanitized(s)),
        no_underscore_run(sanitized(s)),
{
    lemma_collapse_keeps_safe(mask_unsafe(s));
    lemma_collapse_no_run(mask_unsafe(s));
}

/// Sanitizing leaves a title unchanged where the title is already clean.
pub proof fn lemma_sanitized_fixed(s: Seq<char>)
    requires
        all_safe(s),
        no_underscore_run(s),
    ensures
        sanitized(s) == s,
{
    assert(mask_unsafe(s) =~= s);
    lemma_collapse_fixed(s);
}

/// Sanitizing twice gives what sanitizing once gives.
pub proof fn lemma_sanitize_idempotent(s: Seq<char>)
    ensures
        sanitized(sanitized(s)) == sanitized(s),
{
    lemma_sanitized_is_clean(s);
    lemma_sanitized_fixed(sanitized(s));
}

} // verus!
