use vstd::prelude::*;

verus! {

/// Whether the regex crate accepts `pattern` as a regular expression.
pub uninterp spec fn pattern_compiles(pattern: Seq<char>) -> bool;

/// Whether the regular expression `pattern` matches somewhere in `text`.
pub uninterp spec fn pattern_finds(pattern: Seq<char>, text: Seq<char>) -> bool;

/// Relies on regex::Regex::new, which returns `Ok` exactly for the patterns
/// that it can compile (the result depends on the pattern alone), and on
/// regex::Regex::is_match, which tells whether the compiled expression matches
/// anywhere in `text`, unanchored.
#[verifier::external_body]
fn regex_finds(pattern: &str, text: &str) -> (r: Option<bool>)
    ensures
        r is Some <==> pattern_compiles(pattern@),
        r matches Some(b) ==> b == pattern_finds(pattern@, text@),
{
    match regex::Regex::new(pattern) {
        Ok(re) => Some(re.is_match(text)),
        Err(_) => None,
    }
}

/// Whether the rule pattern `pattern` fires for `text`: it compiles and
/// matches somewhere in `text`. A pattern that does not compile fires for no
/// text.
pub fn pattern_fires(pattern: &str, text: &str) -> (r: bool)
    ensures
        r == (pattern_compiles(pattern@) && pattern_finds(pattern@, text@)),
{
    match regex_finds(pattern, text) {
        Some(b) => b,
        None => false,
    }
}

} // verus!
