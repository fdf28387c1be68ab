use vstd::prelude::*;

verus! {

// A compiled glob pattern from the `glob` crate. The value is opaque here;
// `pattern_source` names the pattern text it was compiled from.
#[verifier::external_type_specification]
#[verifier::external_body]
pub struct ExPattern(glob::Pattern);

// The pattern text that a compiled `glob::Pattern` was built from.
pub uninterp spec fn pattern_source(p: glob::Pattern) -> Seq<char>;

// Whether `glob::Pattern::new` accepts the given pattern text. Compilation
// reads nothing but the text, so this is a function of the text alone.
pub uninterp spec fn glob_compiles(pattern: Seq<char>) -> bool;

// Whether the compiled form of `pattern` matches `path` under the glob
// crate's default match options. The result is a function of the two
// strings alone.
pub uninterp spec fn glob_match(pattern: Seq<char>, path: Seq<char>) -> bool;

/// Relies on `glob::Pattern::new`: it compiles the pattern text
/// deterministically, returning `Ok` exactly on well-formed patterns.
#[verifier::external_body]
pub(crate) fn compile_pattern(text: &str) -> (r: Option<glob::Pattern>)
    ensures
        r is Some <==> glob_compiles(text@),
        r matches Some(p) ==> pattern_source(p) == text@,
{
    glob::Pattern::new(text).ok()
}

/// Relies on `glob::Pattern::matches`: under the default match options the
/// result depends only on the compiled pattern's text and the path string.
#[verifier::external_body]
pub(crate) fn pattern_matches(p: &glob::Pattern, path: &str) -> (r: bool)
    ensures
        r == glob_match(pattern_source(*p), path@),
{
    p.matches(path)
}

} // verus!
