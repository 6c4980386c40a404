use vstd::prelude::*;

verus! {

/// A compiled regular expression.
#[verifier::external_type_specification]
#[verifier::external_body]
pub struct ExCompiledPattern(regex::Regex);

/// Whether a text is a regular expression that the engine accepts.
pub uninterp spec fn regex_compiles(pattern: Seq<char>) -> bool;

/// The text that a compiled regular expression was made of.
pub uninterp spec fn regex_source(compiled: regex::Regex) -> Seq<char>;

/// Whether the regular expression `pattern` matches somewhere in `text`.
pub uninterp spec fn regex_matches(pattern: Seq<char>, text: Seq<char>) -> bool;

/// `text` with every match of the regular expression `pattern` replaced by
/// `replacement`, in which `$` refers to what the groups of the match hold.
pub uninterp spec fn regex_replaced(
    pattern: Seq<char>,
    text: Seq<char>,
    replacement: Seq<char>,
) -> Seq<char>;

/// `regex::Regex::new` compiles a regular expression, or fails if the text
/// is none that the engine accepts; what it compiled remembers the text.
/// Whether it fails depends on the text alone.
#[verifier::external_body]
pub(crate) fn regex_new(pattern: &str) -> (r: Option<regex::Regex>)
    ensures
        r is Some == regex_compiles(pattern@),
        r matches Some(compiled) ==> regex_source(compiled) == pattern@,
{
    regex::Regex::new(pattern).ok()
}

/// `regex::Regex::is_match` tells whether the expression matches somewhere
/// in `text`: a matter of the expression and the text alone.
#[verifier::external_body]
pub(crate) fn regex_is_match(compiled: &regex::Regex, text: &str) -> (r: bool)
    ensures
        r == regex_matches(regex_source(*compiled), text@),
{
    compiled.is_match(text)
}

/// `regex::Regex::replace_all` replaces all matches of the expression in
/// `text` by `replacement`: a matter of the three alone.
#[verifier::external_body]
pub(crate) fn regex_replace_all(compiled: &regex::Regex, text: &str, replacement: &str) -> (r: String)
    ensures
        r@ == regex_replaced(regex_source(*compiled), text@, replacement@),
{
    compiled.replace_all(text, replacement).into_owned()
}

} // verus!
