use vstd::prelude::*;
use vstd::string::StringExecFns;
use crate::data::{views, Data, DataView};
use crate::decimal::{decimal, decimal_of_u64};
use crate::error::{Failure, TemplateRenderError};
use crate::function::{
    argument, index_in, outcome, require_argument, require_string_value, require_text,
    require_u64_value, text_in, Outcome,
};
use crate::pattern::{
    regex_compiles, regex_is_match, regex_matches, regex_new, regex_replace_all, regex_replaced,
};
use crate::search::{ ends_with, replace_text, replaced, split, split_text, starts_with,  text_ends_with, text_starts_with, texts,
};
use crate::text::{
    chars_of, lowercase, slice_chars, string_of, trim_chars, trim_end_chars, trim_start_chars,
    trimmed, trimmed_end, trimmed_start, uppercase,
};
use crate::words::{
    camel_case, capitalize, capitalize_words, capitalized, humped, lines, lines_of, pascal_case,
    words_raised,
};

verus! {

/// The string values of a sequence of texts, one for one.
pub open spec fn strings(parts: Seq<Seq<char>>) -> Seq<DataView> {
    Seq::new(parts.len(), |i: int| DataView::String(parts[i]))
}

/// `n`, or `len` if that is less.
pub open spec fn clamped(n: int, len: nat) -> int {
    if n > len {
        len as int
    } else {
        n
    }
}

/// The sentence that reports a part of a string that ends before it starts.
pub open spec fn backward_range_text(from: int, to: int) -> Seq<char> {
    "The start ("@ + decimal(from) + ") cannot be larger than the end ("@ + decimal(to) + ")"@
}

/// The single character that stands for what was cut off.
pub open spec fn ellipsis() -> char {
    '\u{2026}'
}

/// What a function from strings to strings returns: `change` of the string,
/// or a type error for any other value.
pub open spec fn string_to_string(v: DataView, change: spec_fn(Seq<char>) -> Seq<char>) -> Outcome {
    match text_in(v) {
        Ok(s) => Ok(DataView::String(change(s))),
        Err(e) => Err(e),
    }
}

/// What `lowerCase` returns.
pub open spec fn lower_case_outcome(v: DataView) -> Outcome {
    string_to_string(v, |s: Seq<char>| lowercase(s))
}

/// What `upperCase` returns.
pub open spec fn upper_case_outcome(v: DataView) -> Outcome {
    string_to_string(v, |s: Seq<char>| uppercase(s))
}

/// What `kebabCase` and `snakeCase` return: the lower-case form of the
/// string with every match of `pattern` replaced by `mark`.
pub open spec fn marked_case_outcome(v: DataView, pattern: Seq<char>, mark: Seq<char>) -> Outcome {
    match text_in(v) {
        Ok(s) => if regex_compiles(pattern) {
            Ok(DataView::String(regex_replaced(pattern, lowercase(s), mark)))
        } else {
            Err(Failure::InvalidRegex(pattern))
        },
        Err(e) => Err(e),
    }
}

/// What `kebabCase` returns: every run of characters other than ASCII
/// letters, digits and `_` becomes one `-`.
pub open spec fn kebab_case_outcome(v: DataView) -> Outcome {
    marked_case_outcome(v, "[^a-zA-Z0-9_]+"@, "-"@)
}

/// What `snakeCase` returns: every run of characters other than ASCII
/// letters, digits and `-` becomes one `_`.
pub open spec fn snake_case_outcome(v: DataView) -> Outcome {
    marked_case_outcome(v, "[^a-zA-Z0-9-]+"@, "_"@)
}

/// What `camelCase` returns.
pub open spec fn camel_case_outcome(v: DataView) -> Outcome {
    string_to_string(v, |s: Seq<char>| humped(s, false))
}

/// What `pascalCase` returns.
pub open spec fn pascal_case_outcome(v: DataView) -> Outcome {
    string_to_string(v, |s: Seq<char>| humped(s, true))
}

/// What `capitalize` returns.
pub open spec fn capitalize_outcome(v: DataView) -> Outcome {
    string_to_string(v, |s: Seq<char>| capitalized(s))
}

/// What `capitalizeWords` returns.
pub open spec fn capitalize_words_outcome(v: DataView) -> Outcome {
    string_to_string(v, |s: Seq<char>| words_raised(s, true))
}

/// What `trim` returns.
pub open spec fn trim_outcome(v: DataView) -> Outcome {
    string_to_string(v, |s: Seq<char>| trimmed(s))
}

/// What `trimLeft` returns.
pub open spec fn trim_left_outcome(v: DataView) -> Outcome {
    string_to_string(v, |s: Seq<char>| trimmed_start(s))
}

/// What `trimRight` returns.
pub open spec fn trim_right_outcome(v: DataView) -> Outcome {
    string_to_string(v, |s: Seq<char>| trimmed_end(s))
}

/// What `split` returns: the parts of the string between the occurrences of
/// its argument.
pub open spec fn split_outcome(v: DataView, function: Seq<char>, arguments: Seq<DataView>) -> Outcome {
    match text_in(v) {
        Err(e) => Err(e),
        Ok(s) => match argument(function, arguments, 0) {
            Err(e) => Err(e),
            Ok(a) => match text_in(a) {
                Err(e) => Err(e),
                Ok(separator) => Ok(DataView::Array(strings(split(s, separator)))),
            },
        },
    }
}

/// What `lines` returns: the lines of the trimmed string.
pub open spec fn lines_outcome(v: DataView) -> Outcome {
    match text_in(v) {
        Err(e) => Err(e),
        Ok(s) => Ok(DataView::Array(strings(lines_of(trimmed(s))))),
    }
}

/// What a test of a string against a string argument returns.
pub open spec fn string_test(
    v: DataView,
    function: Seq<char>,
    arguments: Seq<DataView>,
    test: spec_fn(Seq<char>, Seq<char>) -> bool,
) -> Outcome {
    match text_in(v) {
        Err(e) => Err(e),
        Ok(s) => match argument(function, arguments, 0) {
            Err(e) => Err(e),
            Ok(a) => match text_in(a) {
                Err(e) => Err(e),
                Ok(other) => Ok(DataView::Bool(test(s, other))),
            },
        },
    }
}

/// What `startsWith` returns.
pub open spec fn starts_with_outcome(v: DataView, function: Seq<char>, arguments: Seq<DataView>) -> Outcome {
    string_test(v, function, arguments, |s: Seq<char>, other: Seq<char>| starts_with(s, other))
}

/// What `endsWith` returns.
pub open spec fn ends_with_outcome(v: DataView, function: Seq<char>, arguments: Seq<DataView>) -> Outcome {
    string_test(v, function, arguments, |s: Seq<char>, other: Seq<char>| ends_with(s, other))
}

/// What `matches` returns: whether the regular expression that is its
/// argument matches somewhere in the string.
pub open spec fn matches_outcome(v: DataView, function: Seq<char>, arguments: Seq<DataView>) -> Outcome {
    match text_in(v) {
        Err(e) => Err(e),
        Ok(s) => match argument(function, arguments, 0) {
            Err(e) => Err(e),
            Ok(a) => match text_in(a) {
                Err(e) => Err(e),
                Ok(pattern) => if regex_compiles(pattern) {
                    Ok(DataView::Bool(regex_matches(pattern, s)))
                } else {
                    Err(Failure::InvalidRegex(pattern))
                },
            },
        },
    }
}

/// What `regexReplace` returns: the string with every match of the regular
/// expression that is its first argument replaced by its second.
pub open spec fn regex_replace_outcome(
    v: DataView,
    function: Seq<char>,
    arguments: Seq<DataView>,
) -> Outcome {
    match text_in(v) {
        Err(e) => Err(e),
        Ok(s) => match argument(function, arguments, 0) {
            Err(e) => Err(e),
            Ok(a) => match text_in(a) {
                Err(e) => Err(e),
                Ok(pattern) => if !regex_compiles(pattern) {
                    Err(Failure::InvalidRegex(pattern))
                } else {
                    match argument(function, arguments, 1) {
                        Err(e) => Err(e),
                        Ok(b) => match text_in(b) {
                            Err(e) => Err(e),
                            Ok(replacement) => Ok(
                                DataView::String(regex_replaced(pattern, s, replacement)),
                            ),
                        },
                    }
                },
            },
        },
    }
}

/// What `replace` returns: the string with every occurrence of its first
/// argument replaced by its second.
pub open spec fn replace_outcome(v: DataView, function: Seq<char>, arguments: Seq<DataView>) -> Outcome {
    match text_in(v) {
        Err(e) => Err(e),
        Ok(s) => match argument(function, arguments, 0) {
            Err(e) => Err(e),
            Ok(a) => match text_in(a) {
                Err(e) => Err(e),
                Ok(search) => match argument(function, arguments, 1) {
                    Err(e) => Err(e),
                    Ok(b) => match text_in(b) {
                        Err(e) => Err(e),
                        Ok(replacement) => Ok(DataView::String(replaced(s, search, replacement))),
                    },
                },
            },
        },
    }
}

/// What `substring` returns: the characters of the string from the position
/// that is its first argument up to the one that is its second, or to the
/// end if it has no second; both positions count characters and are at most
/// the length of the string.
pub open spec fn substring_outcome(v: DataView, function: Seq<char>, arguments: Seq<DataView>) -> Outcome {
    match text_in(v) {
        Err(e) => Err(e),
        Ok(s) => match argument(function, arguments, 0) {
            Err(e) => Err(e),
            Ok(a) => match index_in(a) {
                Err(e) => Err(e),
                Ok(from) => if arguments.len() > 1 {
                    match index_in(arguments[1]) {
                        Err(e) => Err(e),
                        Ok(to) => if clamped(from, s.len()) > clamped(to, s.len()) {
                            Err(Failure::ArgumentValue(backward_range_text(from, to)))
                        } else {
                            Ok(
                                DataView::String(
                                    s.subrange(clamped(from, s.len()), clamped(to, s.len())),
                                ),
                            )
                        },
                    }
                } else {
                    Ok(DataView::String(s.skip(clamped(from, s.len()))))
                },
            },
        },
    }
}

/// What `abbreviate` returns: the string if it has at most as many
/// characters as its argument says, else one character less than that of it
/// and an ellipsis; an argument of zero counts as one.
pub open spec fn abbreviate_outcome(v: DataView, function: Seq<char>, arguments: Seq<DataView>) -> Outcome {
    match argument(function, arguments, 0) {
        Err(e) => Err(e),
        Ok(a) => match text_in(v) {
            Err(e) => Err(e),
            Ok(s) => match index_in(a) {
                Err(e) => Err(e),
                Ok(n) => if s.len() <= n {
                    Ok(DataView::String(s))
                } else {
                    Ok(DataView::String(s.take(if n < 1 { 0 } else { n - 1 }).push(ellipsis())))
                },
            },
        },
    }
}

/// The string value of a text.
pub fn text_data(chars: &Vec<char>) -> (r: Data)
    ensures
        r@ == DataView::String(chars@),
{
    Data::String(string_of(chars))
}

/// The array of the string values of some texts.
pub fn texts_data(parts: &Vec<Vec<char>>) -> (r: Data)
    ensures
        r@ == DataView::Array(strings(texts(parts@))),
{
    let mut items: Vec<Data> = Vec::new();
    let mut i: usize = 0;
    while i < parts.len()
        invariant
            i <= parts.len(),
            items@.len() == i,
            forall|j: int| 0 <= j < i ==> (#[trigger] items@[j])@ == DataView::String(parts@[j]@),
        decreases parts.len() - i,
    {
        items.push(text_data(&parts[i]));
        i += 1;
    }
    proof {
        crate::data::lemma_array_view(items);
        assert(views(items@) =~= strings(texts(parts@)));
    }
    Data::Array(items)
}

/// `n` as a position in something of length `len`: `n` itself, or `len` if
/// that is less.
pub fn clamp(n: u64, len: usize) -> (r: usize)
    ensures
        r as int == clamped(n as int, len as nat),
{
    if n > len as u64 {
        len
    } else {
        n as usize
    }
}

/// `lowerCase`: the string in lower case.
pub fn lower_case(value: &Data) -> (r: Result<Data, TemplateRenderError>)
    ensures
        outcome(r) == lower_case_outcome(value@),
{
    match require_string_value(value) {
        Ok(s) => Ok(Data::String(s.as_str().to_lowercase())),
        Err(e) => Err(e),
    }
}

/// `upperCase`: the string in upper case.
pub fn upper_case(value: &Data) -> (r: Result<Data, TemplateRenderError>)
    ensures
        outcome(r) == upper_case_outcome(value@),
{
    match require_string_value(value) {
        Ok(s) => Ok(Data::String(s.as_str().to_uppercase())),
        Err(e) => Err(e),
    }
}

/// The lower-case form of `value` with every match of the regular
/// expression `pattern` replaced by `mark`, or nothing if the pattern does
/// not compile.
fn marked_case(value: &String, pattern: &str, mark: &str) -> (r: Option<String>)
    ensures
        r is Some == regex_compiles(pattern@),
        r matches Some(s) ==> s@ == regex_replaced(pattern@, lowercase(value@), mark@),
{
    let lower = value.as_str().to_lowercase();
    match regex_new(pattern) {
        Some(compiled) => Some(regex_replace_all(&compiled, lower.as_str(), mark)),
        None => None,
    }
}

/// The words of `value` in lower case with `-` between them, or nothing if
/// the pattern of what parts words does not compile.
pub fn kebab_case(value: &String) -> (r: Option<String>)
    ensures
        r is Some == regex_compiles("[^a-zA-Z0-9_]+"@),
        r matches Some(s) ==> s@ == regex_replaced("[^a-zA-Z0-9_]+"@, lowercase(value@), "-"@),
{
    marked_case(value, "[^a-zA-Z0-9_]+", "-")
}

/// The words of `value` in lower case with `_` between them, or nothing if
/// the pattern of what parts words does not compile.
pub fn snake_case(value: &String) -> (r: Option<String>)
    ensures
        r is Some == regex_compiles("[^a-zA-Z0-9-]+"@),
        r matches Some(s) ==> s@ == regex_replaced("[^a-zA-Z0-9-]+"@, lowercase(value@), "_"@),
{
    marked_case(value, "[^a-zA-Z0-9-]+", "_")
}

/// `kebabCase`.
pub fn kebab_case_function(value: &Data) -> (r: Result<Data, TemplateRenderError>)
    ensures
        outcome(r) == kebab_case_outcome(value@),
{
    match require_string_value(value) {
        Ok(s) => match kebab_case(s) {
            Some(marked) => Ok(Data::String(marked)),
            None => Err(TemplateRenderError::InvalidRegexError(String::from_str("[^a-zA-Z0-9_]+"))),
        },
        Err(e) => Err(e),
    }
}

/// `snakeCase`.
pub fn snake_case_function(value: &Data) -> (r: Result<Data, TemplateRenderError>)
    ensures
        outcome(r) == snake_case_outcome(value@),
{
    match require_string_value(value) {
        Ok(s) => match snake_case(s) {
            Some(marked) => Ok(Data::String(marked)),
            None => Err(TemplateRenderError::InvalidRegexError(String::from_str("[^a-zA-Z0-9-]+"))),
        },
        Err(e) => Err(e),
    }
}

/// `camelCase`.
pub fn camel_case_function(value: &Data) -> (r: Result<Data, TemplateRenderError>)
    ensures
        outcome(r) == camel_case_outcome(value@),
{
    match require_string_value(value) {
        Ok(s) => Ok(Data::String(camel_case(s))),
        Err(e) => Err(e),
    }
}

/// `pascalCase`.
pub fn pascal_case_function(value: &Data) -> (r: Result<Data, TemplateRenderError>)
    ensures
        outcome(r) == pascal_case_outcome(value@),
{
    match require_string_value(value) {
        Ok(s) => Ok(Data::String(pascal_case(s))),
        Err(e) => Err(e),
    }
}

/// `capitalize`.
pub fn capitalize_function(value: &Data) -> (r: Result<Data, TemplateRenderError>)
    ensures
        outcome(r) == capitalize_outcome(value@),
{
    match require_string_value(value) {
        Ok(s) => Ok(Data::String(capitalize(s))),
        Err(e) => Err(e),
    }
}

/// `capitalizeWords`.
pub fn capitalize_words_function(value: &Data) -> (r: Result<Data, TemplateRenderError>)
    ensures
        outcome(r) == capitalize_words_outcome(value@),
{
    match require_string_value(value) {
        Ok(s) => Ok(Data::String(capitalize_words(s))),
        Err(e) => Err(e),
    }
}

/// `trim`: the string without the white space around it.
pub fn trim(value: &Data) -> (r: Result<Data, TemplateRenderError>)
    ensures
        outcome(r) == trim_outcome(value@),
{
    match require_text(value) {
        Ok(s) => Ok(text_data(&trim_chars(&s))),
        Err(e) => Err(e),
    }
}

/// `trimLeft`: the string without the white space before it.
pub fn trim_left(value: &Data) -> (r: Result<Data, TemplateRenderError>)
    ensures
        outcome(r) == trim_left_outcome(value@),
{
    match require_text(value) {
        Ok(s) => Ok(text_data(&trim_start_chars(&s))),
        Err(e) => Err(e),
    }
}

/// `trimRight`: the string without the white space behind it.
pub fn trim_right(value: &Data) -> (r: Result<Data, TemplateRenderError>)
    ensures
        outcome(r) == trim_right_outcome(value@),
{
    match require_text(value) {
        Ok(s) => Ok(text_data(&trim_end_chars(&s))),
        Err(e) => Err(e),
    }
}

/// `split`.
pub fn split_function(value: &Data, function: &str, arguments: &Vec<Data>) -> (r: Result<
    Data,
    TemplateRenderError,
>)
    ensures
        outcome(r) == split_outcome(value@, function@, views(arguments@)),
{
    let s = match require_text(value) {
        Ok(s) => s,
        Err(e) => { return Err(e); },
    };
    let a = match require_argument(function, arguments, 0) {
        Ok(a) => a,
        Err(e) => { return Err(e); },
    };
    let separator = match require_text(a) {
        Ok(t) => t,
        Err(e) => { return Err(e); },
    };
    Ok(texts_data(&split_text(&s, &separator)))
}

/// `lines`.
pub fn lines_function(value: &Data) -> (r: Result<Data, TemplateRenderError>)
    ensures
        outcome(r) == lines_outcome(value@),
{
    match require_text(value) {
        Ok(s) => Ok(texts_data(&lines(&trim_chars(&s)))),
        Err(e) => Err(e),
    }
}

/// `startsWith`: whether the string begins with its argument.
pub fn starts_with_function(value: &Data, function: &str, arguments: &Vec<Data>) -> (r: Result<
    Data,
    TemplateRenderError,
>)
    ensures
        outcome(r) == starts_with_outcome(value@, function@, views(arguments@)),
{
    let s = match require_text(value) {
        Ok(s) => s,
        Err(e) => { return Err(e); },
    };
    let a = match require_argument(function, arguments, 0) {
        Ok(a) => a,
        Err(e) => { return Err(e); },
    };
    let other = match require_text(a) {
        Ok(t) => t,
        Err(e) => { return Err(e); },
    };
    Ok(Data::Bool(text_starts_with(&s, &other)))
}

/// `endsWith`: whether the string ends with its argument.
pub fn ends_with_function(value: &Data, function: &str, arguments: &Vec<Data>) -> (r: Result<
    Data,
    TemplateRenderError,
>)
    ensures
        outcome(r) == ends_with_outcome(value@, function@, views(arguments@)),
{
    let s = match require_text(value) {
        Ok(s) => s,
        Err(e) => { return Err(e); },
    };
    let a = match require_argument(function, arguments, 0) {
        Ok(a) => a,
        Err(e) => { return Err(e); },
    };
    let other = match require_text(a) {
        Ok(t) => t,
        Err(e) => { return Err(e); },
    };
    Ok(Data::Bool(text_ends_with(&s, &other)))
}

/// `matches`.
pub fn matches_function(value: &Data, function: &str, arguments: &Vec<Data>) -> (r: Result<
    Data,
    TemplateRenderError,
>)
    ensures
        outcome(r) == matches_outcome(value@, function@, views(arguments@)),
{
    let s = match require_string_value(value) {
        Ok(s) => s,
        Err(e) => { return Err(e); },
    };
    let a = match require_argument(function, arguments, 0) {
        Ok(a) => a,
        Err(e) => { return Err(e); },
    };
    let pattern = match require_string_value(a) {
        Ok(t) => t,
        Err(e) => { return Err(e); },
    };
    match regex_new(pattern.as_str()) {
        Some(compiled) => Ok(Data::Bool(regex_is_match(&compiled, s.as_str()))),
        None => Err(TemplateRenderError::InvalidRegexError(pattern.clone())),
    }
}

/// `regexReplace`.
pub fn regex_replace_function(value: &Data, function: &str, arguments: &Vec<Data>) -> (r: Result<
    Data,
    TemplateRenderError,
>)
    ensures
        outcome(r) == regex_replace_outcome(value@, function@, views(arguments@)),
{
    let s = match require_string_value(value) {
        Ok(s) => s,
        Err(e) => { return Err(e); },
    };
    let a = match require_argument(function, arguments, 0) {
        Ok(a) => a,
        Err(e) => { return Err(e); },
    };
    let pattern = match require_string_value(a) {
        Ok(t) => t,
        Err(e) => { return Err(e); },
    };
    let compiled = match regex_new(pattern.as_str()) {
        Some(compiled) => compiled,
        None => { return Err(TemplateRenderError::InvalidRegexError(pattern.clone())); },
    };
    let b = match require_argument(function, arguments, 1) {
        Ok(b) => b,
        Err(e) => { return Err(e); },
    };
    let replacement = match require_string_value(b) {
        Ok(t) => t,
        Err(e) => { return Err(e); },
    };
    Ok(Data::String(regex_replace_all(&compiled, s.as_str(), replacement.as_str())))
}

/// `replace`.
pub fn replace_function(value: &Data, function: &str, arguments: &Vec<Data>) -> (r: Result<
    Data,
    TemplateRenderError,
>)
    ensures
        outcome(r) == replace_outcome(value@, function@, views(arguments@)),
{
    let s = match require_text(value) {
        Ok(s) => s,
        Err(e) => { return Err(e); },
    };
    let a = match require_argument(function, arguments, 0) {
        Ok(a) => a,
        Err(e) => { return Err(e); },
    };
    let search = match require_text(a) {
        Ok(t) => t,
        Err(e) => { return Err(e); },
    };
    let b = match require_argument(function, arguments, 1) {
        Ok(b) => b,
        Err(e) => { return Err(e); },
    };
    let replacement = match require_text(b) {
        Ok(t) => t,
        Err(e) => { return Err(e); },
    };
    Ok(text_data(&replace_text(&s, &search, &replacement)))
}

/// The failure that reports a part of a string that ends before it starts.
fn backward_range(from: u64, to: u64) -> (r: TemplateRenderError)
    ensures
        r@ == Failure::ArgumentValue(backward_range_text(from as int, to as int)),
{
    let mut text = chars_of("The start (");
    let mut a = decimal_of_u64(from);
    text.append(&mut a);
    let mut middle = chars_of(") cannot be larger than the end (");
    text.append(&mut middle);
    let mut b = decimal_of_u64(to);
    text.append(&mut b);
    let mut end = chars_of(")");
    text.append(&mut end);
    assert(text@ =~= backward_range_text(from as int, to as int));
    TemplateRenderError::ArgumentValueError(string_of(&text))
}

/// `substring`.
pub fn substring_function(value: &Data, function: &str, arguments: &Vec<Data>) -> (r: Result<
    Data,
    TemplateRenderError,
>)
    ensures
        outcome(r) == substring_outcome(value@, function@, views(arguments@)),
{
    let s = match require_text(value) {
        Ok(s) => s,
        Err(e) => { return Err(e); },
    };
    let a = match require_argument(function, arguments, 0) {
        Ok(a) => a,
        Err(e) => { return Err(e); },
    };
    let from = match require_u64_value(a) {
        Ok(n) => n,
        Err(e) => { return Err(e); },
    };
    let start = clamp(from, s.len());
    if arguments.len() > 1 {
        let to = match require_u64_value(&arguments[1]) {
            Ok(n) => n,
            Err(e) => { return Err(e); },
        };
        let end = clamp(to, s.len());
        if start > end {
            Err(backward_range(from, to))
        } else {
            Ok(text_data(&slice_chars(&s, start, end)))
        }
    } else {
        let part = slice_chars(&s, start, s.len());
        assert(s@.subrange(start as int, s@.len() as int) =~= s@.skip(start as int));
        Ok(text_data(&part))
    }
}

/// `abbreviate`.
pub fn abbreviate_function(value: &Data, function: &str, arguments: &Vec<Data>) -> (r: Result<
    Data,
    TemplateRenderError,
>)
    ensures
        outcome(r) == abbreviate_outcome(value@, function@, views(arguments@)),
{
    let a = match require_argument(function, arguments, 0) {
        Ok(a) => a,
        Err(e) => { return Err(e); },
    };
    let s = match require_text(value) {
        Ok(s) => s,
        Err(e) => { return Err(e); },
    };
    let n = match require_u64_value(a) {
        Ok(n) => n,
        Err(e) => { return Err(e); },
    };
    if s.len() as u64 <= n {
        Ok(text_data(&s))
    } else {
        let keep: usize = if n < 1 { 0 } else { (n - 1) as usize };
        let mut short = slice_chars(&s, 0, keep);
        short.push('\u{2026}');
        assert(short@ =~= s@.take(keep as int).push(ellipsis()));
        Ok(text_data(&short))
    }
}

} // verus!
