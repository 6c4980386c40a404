use vstd::prelude::*;
use vstd::string::StringExecFns;

verus! {

/// Why a template could not be rendered.
#[derive(Clone, Debug, PartialEq, Eq)]
pub enum TemplateRenderError {
    /// A function was called that the library does not have; holds its name.
    UnknownFunctionError(String),
    /// A value or an argument has the wrong shape for the function; holds
    /// the name of the shape that it has.
    TypeError(String),
    /// An argument of the right shape has a value that the function cannot
    /// work with; holds the explanation.
    ArgumentValueError(String),
    /// A literal could not be read; holds its text.
    LiteralParseError(String),
    /// A function was called with too few arguments; holds the explanation.
    RequiredArgumentMissing(String),
    /// A pattern is no regular expression; holds the pattern.
    InvalidRegexError(String),
    /// A text is no JSON document; holds the explanation.
    JsonParseError(String),
    /// A value could not be written as JSON.
    JsonSerializationError,
}

/// The mathematical content of a [`TemplateRenderError`]: its kind and its
/// detail.
pub enum Failure {
    UnknownFunction(Seq<char>),
    Type(Seq<char>),
    ArgumentValue(Seq<char>),
    LiteralParse(Seq<char>),
    RequiredArgumentMissing(Seq<char>),
    InvalidRegex(Seq<char>),
    JsonParse(Seq<char>),
    JsonSerialization,
}

impl View for TemplateRenderError {
    type V = Failure;

    open spec fn view(&self) -> Failure {
        match self {
            TemplateRenderError::UnknownFunctionError(s) => Failure::UnknownFunction(s@),
            TemplateRenderError::TypeError(s) => Failure::Type(s@),
            TemplateRenderError::ArgumentValueError(s) => Failure::ArgumentValue(s@),
            TemplateRenderError::LiteralParseError(s) => Failure::LiteralParse(s@),
            TemplateRenderError::RequiredArgumentMissing(s) => Failure::RequiredArgumentMissing(s@),
            TemplateRenderError::InvalidRegexError(s) => Failure::InvalidRegex(s@),
            TemplateRenderError::JsonParseError(s) => Failure::JsonParse(s@),
            TemplateRenderError::JsonSerializationError => Failure::JsonSerialization,
        }
    }
}

/// `detail` between `before` and `after`.
fn framed(before: &str, detail: &str, after: &str) -> (r: String)
    ensures
        r@ == before@ + detail@ + after@,
{
    let mut r = String::from_str(before);
    r.append(detail);
    r.append(after);
    r
}

impl TemplateRenderError {
    /// The text of [`TemplateRenderError::message`].
    pub open spec fn message_text(&self) -> Seq<char> {
        match self {
            TemplateRenderError::UnknownFunctionError(s) => "Unknown function '"@ + s@ + "'"@,
            TemplateRenderError::TypeError(s) => "Invalid type '"@ + s@ + "'"@,
            TemplateRenderError::ArgumentValueError(s) => "Invalid arguments: "@ + s@ + ""@,
            TemplateRenderError::LiteralParseError(s) => "Could not parse literal '"@ + s@ + "'"@,
            TemplateRenderError::RequiredArgumentMissing(s) =>
                "Required argument is missing for function "@ + s@ + ""@,
            TemplateRenderError::InvalidRegexError(s) =>
                "Invalid regular expression given: '"@ + s@ + "'"@,
            TemplateRenderError::JsonParseError(s) => "Could not parse JSON: '"@ + s@ + "'"@,
            TemplateRenderError::JsonSerializationError => "Could not serialize JSON"@,
        }
    }

    /// The sentence that tells a person what went wrong.
    pub fn message(&self) -> (r: String)
        ensures
            r@ == self.message_text(),
    {
        match self {
            TemplateRenderError::UnknownFunctionError(s) => framed("Unknown function '", s.as_str(), "'"),
            TemplateRenderError::TypeError(s) => framed("Invalid type '", s.as_str(), "'"),
            TemplateRenderError::ArgumentValueError(s) => framed("Invalid arguments: ", s.as_str(), ""),
            TemplateRenderError::LiteralParseError(s) => framed("Could not parse literal '", s.as_str(), "'"),
            TemplateRenderError::RequiredArgumentMissing(s) => framed(
                "Required argument is missing for function ",
                s.as_str(),
                "",
            ),
            TemplateRenderError::InvalidRegexError(s) => framed(
                "Invalid regular expression given: '",
                s.as_str(),
                "'",
            ),
            TemplateRenderError::JsonParseError(s) => framed("Could not parse JSON: '", s.as_str(), "'"),
            TemplateRenderError::JsonSerializationError => String::from_str("Could not serialize JSON"),
        }
    }
}

} // verus!
