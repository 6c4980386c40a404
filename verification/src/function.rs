use vstd::prelude::*;
pub use crate::text_functions::{kebab_case, snake_case};
pub use crate::words::{camel_case, capitalize, capitalize_words, pascal_case};
use vstd::string::StringExecFns;
use crate::data::{views, well_formed, Data, DataView, Member, MemberView, Number};
use crate::order::{all_well_formed, keeps_order, law_functions_keep_order};
use crate::decimal::{decimal, decimal_of_u64};
use crate::error::{Failure, TemplateRenderError};
use crate::json::{
    json_compact, json_image, json_of, json_pretty, json_read, read_json, value_of, write_json,
    write_json_pretty,
};
use crate::list_functions::{
    all_function, all_outcome, alternate_function, alternate_outcome, any_function, any_outcome,
    chunked_function, chunked_outcome, contains_function, contains_key_function,
    contains_key_outcome, contains_outcome, contains_value_function, contains_value_outcome,
    drop_function, drop_outcome, first_function, first_outcome, index_function, index_outcome,
    invert_function, invert_outcome, keys_function, keys_outcome, last_function, last_outcome,
    length_function, length_outcome, none_function, none_outcome, reverse_function,
    reverse_outcome, some_function, some_outcome, take_function, take_outcome, unique_function,
    unique_outcome, values_function, values_outcome,
};
use crate::moment::{moment_read, moment_written, read_moment, write_moment, Moment};
use crate::text_functions::{
    abbreviate_function, abbreviate_outcome, camel_case_function, camel_case_outcome,
    capitalize_function, capitalize_outcome, capitalize_words_function,
    capitalize_words_outcome, ends_with_function, ends_with_outcome, kebab_case_function,
    kebab_case_outcome, lines_function, lines_outcome, lower_case, lower_case_outcome,
    matches_function, matches_outcome, pascal_case_function, pascal_case_outcome,
    regex_replace_function, regex_replace_outcome, replace_function, replace_outcome,
    snake_case_function, snake_case_outcome, split_function, split_outcome,
    starts_with_function, starts_with_outcome, substring_function, substring_outcome, trim,
    trim_left, trim_left_outcome, trim_outcome, trim_right, trim_right_outcome, upper_case,
    upper_case_outcome,
};
use crate::text::{chars_of, string_of, trim_chars, trimmed};

verus! {

/// `str`'s `==` holds exactly of two strings with the same characters.
pub assume_specification[ <str as PartialEq>::eq ](a: &str, b: &str) -> (r: bool)
    ensures
        r == (a@ == b@),
;

/// The name of the shape of a value.
pub open spec fn kind_name(v: DataView) -> Seq<char> {
    match v {
        DataView::Null => "null"@,
        DataView::Bool(_) => "boolean"@,
        DataView::Number(_) => "number"@,
        DataView::String(_) => "string"@,
        DataView::Array(_) => "array"@,
        DataView::Object(_) => "object"@,
    }
}

/// The name of the shape of a value, as a type error reports it.
pub fn type_of(value: &Data) -> (r: String)
    ensures
        r@ == kind_name(value@),
{
    match value {
        Data::Null => String::from_str("null"),
        Data::Bool(_) => String::from_str("boolean"),
        Data::Number(_) => String::from_str("number"),
        Data::String(_) => String::from_str("string"),
        Data::Array(_) => String::from_str("array"),
        Data::Object(_) => String::from_str("object"),
    }
}

/// Whether a value counts as true: null does not; a boolean is itself; a
/// number does unless it is zero; a string does unless it is empty once
/// trimmed; an array or an object does unless it is empty.
pub open spec fn truthy(v: DataView) -> bool {
    match v {
        DataView::Null => false,
        DataView::Bool(b) => b,
        DataView::Number(n) => !Number::is_zero(n),
        DataView::String(s) => trimmed(s).len() > 0,
        DataView::Array(items) => items.len() > 0,
        DataView::Object(members) => members.len() > 0,
    }
}

/// Decides whether a value counts as true.
pub fn to_boolean(value: &Data) -> (r: bool)
    ensures
        r == truthy(value@),
{
    match value {
        Data::Null => false,
        Data::Bool(b) => *b,
        Data::Number(n) => !n.zero(),
        Data::String(s) => trim_chars(&chars_of(s.as_str())).len() > 0,
        Data::Array(items) => items.len() > 0,
        Data::Object(members) => members.len() > 0,
    }
}

/// Whether two strings have the same characters.
pub fn same_text(a: &str, b: &str) -> (r: bool)
    ensures
        r == (a@ == b@),
{
    a.eq(b)
}

/// A variable of the environment in which a template is rendered.
#[derive(Clone, Debug)]
pub struct Variable {
    pub name: String,
    pub value: String,
}

/// What a rendering takes from the machine it runs on: the variables of the
/// environment and the time on the local clock.
#[derive(Clone, Debug)]
pub struct Host {
    pub variables: Vec<Variable>,
    pub now: Moment,
}

/// The mathematical content of a [`Variable`].
pub struct VariableView {
    pub name: Seq<char>,
    pub value: Seq<char>,
}

/// The mathematical content of a [`Host`].
pub struct HostView {
    pub variables: Seq<VariableView>,
    pub now: Moment,
}

impl View for Variable {
    type V = VariableView;

    open spec fn view(&self) -> VariableView {
        VariableView { name: self.name@, value: self.value@ }
    }
}

impl View for Host {
    type V = HostView;

    open spec fn view(&self) -> HostView {
        HostView { variables: Seq::new(self.variables@.len(), |i: int| self.variables@[i]@), now: self.now }
    }
}

/// What comes of applying a function: a value or a failure.
pub type Outcome = Result<DataView, Failure>;

/// The mathematical content of what a function of the library returned.
pub open spec fn outcome(r: Result<Data, TemplateRenderError>) -> Outcome {
    match r {
        Ok(v) => Ok(v@),
        Err(e) => Err(e@),
    }
}

/// The failure that reports a value of the wrong shape.
pub open spec fn wrong_shape(v: DataView) -> Failure {
    Failure::Type(kind_name(v))
}

/// The text of a value that must be a string.
pub open spec fn text_in(v: DataView) -> Result<Seq<char>, Failure> {
    match v {
        DataView::String(s) => Ok(s),
        _ => Err(wrong_shape(v)),
    }
}

/// The amount of a value that must be an integer from zero on.
pub open spec fn index_in(v: DataView) -> Result<int, Failure> {
    match v {
        DataView::Number(n) => match Number::index_of(n) {
            Some(i) => Ok(i),
            None => Err(wrong_shape(v)),
        },
        _ => Err(wrong_shape(v)),
    }
}

/// The items of a value that must be an array.
pub open spec fn items_in(v: DataView) -> Result<Seq<DataView>, Failure> {
    match v {
        DataView::Array(items) => Ok(items),
        _ => Err(wrong_shape(v)),
    }
}

/// The members of a value that must be an object.
pub open spec fn members_in(v: DataView) -> Result<Seq<MemberView>, Failure> {
    match v {
        DataView::Object(members) => Ok(members),
        _ => Err(wrong_shape(v)),
    }
}

/// The sentence that reports that a function lacks an argument.
pub open spec fn missing_argument_text(function: Seq<char>, index: int) -> Seq<char> {
    "Argument "@ + decimal(index + 1) + " is missing for function '"@ + function + "'"@
}

/// The argument at `index` of a call of `function`, which must have one.
pub open spec fn argument(function: Seq<char>, arguments: Seq<DataView>, index: int) -> Result<
    DataView,
    Failure,
> {
    if 0 <= index < arguments.len() {
        Ok(arguments[index])
    } else {
        Err(Failure::RequiredArgumentMissing(missing_argument_text(function, index)))
    }
}

/// The failure that reports a value of the wrong shape.
pub fn type_error(value: &Data) -> (r: TemplateRenderError)
    ensures
        r@ == wrong_shape(value@),
{
    TemplateRenderError::TypeError(type_of(value))
}

/// The string that `value` is, or a type error.
pub fn require_string_value(value: &Data) -> (r: Result<&String, TemplateRenderError>)
    ensures
        match r {
            Ok(s) => text_in(value@) == Ok::<Seq<char>, Failure>(s@),
            Err(e) => text_in(value@) == Err::<Seq<char>, Failure>(e@),
        },
{
    match value {
        Data::String(s) => Ok(s),
        _ => Err(type_error(value)),
    }
}

/// The characters of the string that `value` is, or a type error.
pub fn require_text(value: &Data) -> (r: Result<Vec<char>, TemplateRenderError>)
    ensures
        match r {
            Ok(s) => text_in(value@) == Ok::<Seq<char>, Failure>(s@),
            Err(e) => text_in(value@) == Err::<Seq<char>, Failure>(e@),
        },
{
    match value {
        Data::String(s) => Ok(chars_of(s.as_str())),
        _ => Err(type_error(value)),
    }
}

/// The integer from zero on that `value` is, or a type error.
pub fn require_u64_value(value: &Data) -> (r: Result<u64, TemplateRenderError>)
    ensures
        match r {
            Ok(n) => index_in(value@) == Ok::<int, Failure>(n as int),
            Err(e) => index_in(value@) == Err::<int, Failure>(e@),
        },
{
    match value {
        Data::Number(n) => match n.as_index() {
            Some(i) => Ok(i),
            None => Err(type_error(value)),
        },
        _ => Err(type_error(value)),
    }
}

/// The items of the array that `value` is, or a type error.
pub fn require_array_value(value: &Data) -> (r: Result<&Vec<Data>, TemplateRenderError>)
    ensures
        match r {
            Ok(items) => items_in(value@) == Ok::<Seq<DataView>, Failure>(views(items@)),
            Err(e) => items_in(value@) == Err::<Seq<DataView>, Failure>(e@),
        },
{
    match value {
        Data::Array(items) => {
            proof {
                crate::data::lemma_array_view(*items);
            }
            Ok(items)
        },
        _ => Err(type_error(value)),
    }
}

/// The members of the object that `value` is, or a type error.
pub fn require_object_value(value: &Data) -> (r: Result<&Vec<Member>, TemplateRenderError>)
    ensures
        match r {
            Ok(members) => members_in(value@) == Ok::<Seq<MemberView>, Failure>(
                crate::data::member_views(members@),
            ),
            Err(e) => members_in(value@) == Err::<Seq<MemberView>, Failure>(e@),
        },
{
    match value {
        Data::Object(members) => {
            proof {
                crate::data::lemma_object_view(*members);
            }
            Ok(members)
        },
        _ => Err(type_error(value)),
    }
}

/// The argument at `index` of a call of `function`, or the failure that
/// reports that there is none.
pub(crate) fn require_argument<'a>(function: &str, arguments: &'a Vec<Data>, index: usize) -> (r: Result<
    &'a Data,
    TemplateRenderError,
>)
    requires
        index < usize::MAX,
    ensures
        match r {
            Ok(a) => argument(function@, views(arguments@), index as int) == Ok::<DataView, Failure>(a@),
            Err(e) => argument(function@, views(arguments@), index as int) == Err::<DataView, Failure>(
                e@,
            ),
        },
{
    if index < arguments.len() {
        Ok(&arguments[index])
    } else {
        let mut text = chars_of("Argument ");
        let mut number = decimal_of_u64((index + 1) as u64);
        text.append(&mut number);
        let mut middle = chars_of(" is missing for function '");
        text.append(&mut middle);
        let mut name = chars_of(function);
        text.append(&mut name);
        text.push('\'');
        proof {
            reveal_strlit("'");
            assert("'"@ =~= seq!['\'']);
            assert(text@ =~= missing_argument_text(function@, index as int));
        }
        Err(TemplateRenderError::RequiredArgumentMissing(string_of(&text)))
    }
}

/// What `default` returns: the value if it counts as true, else the
/// argument.
pub open spec fn default_outcome(v: DataView, function: Seq<char>, arguments: Seq<DataView>) -> Outcome {
    match argument(function, arguments, 0) {
        Err(e) => Err(e),
        Ok(a) => Ok(if truthy(v) { v } else { a }),
    }
}

/// What `coalesce` returns: the value unless it is null, else the argument.
pub open spec fn coalesce_outcome(v: DataView, function: Seq<char>, arguments: Seq<DataView>) -> Outcome {
    match argument(function, arguments, 0) {
        Err(e) => Err(e),
        Ok(a) => Ok(if v is Null { a } else { v }),
    }
}

/// What `empty` and `negate` return: whether the value counts as false.
pub open spec fn empty_outcome(v: DataView) -> Outcome {
    Ok(DataView::Bool(!truthy(v)))
}

/// The value of the first of `variables` with the name `name`.
pub open spec fn variable(variables: Seq<VariableView>, name: Seq<char>) -> Option<Seq<char>>
    decreases variables.len(),
{
    if variables.len() == 0 {
        None
    } else if variables[0].name == name {
        Some(variables[0].value)
    } else {
        variable(variables.skip(1), name)
    }
}

/// What `environment` returns: the value of the variable of the environment
/// that the string names, or null if there is none.
pub open spec fn environment_outcome(v: DataView, host: HostView) -> Outcome {
    match text_in(v) {
        Err(e) => Err(e),
        Ok(name) => match variable(host.variables, name) {
            Some(value) => Ok(DataView::String(value)),
            None => Ok(DataView::Null),
        },
    }
}

/// What `toJson` and `toPrettyJson` return: the text of the JSON document of
/// the value, on one line or, if `pretty` holds, indented.
pub open spec fn to_json_outcome(v: DataView, pretty: bool) -> Outcome {
    match json_image(v) {
        None => Err(Failure::JsonSerialization),
        Some(content) => match (if pretty { json_pretty(content) } else { json_compact(content) }) {
            Some(text) => Ok(DataView::String(text)),
            None => Err(Failure::JsonSerialization),
        },
    }
}

/// What `fromJson` returns: what the JSON document that the string is holds.
pub open spec fn from_json_outcome(v: DataView) -> Outcome {
    match text_in(v) {
        Err(e) => Err(e),
        Ok(text) => match json_read(text) {
            Ok(content) => Ok(content),
            Err(reason) => Err(Failure::JsonParse(reason)),
        },
    }
}

/// The sentence that reports a text that is no date and time in a format.
pub open spec fn unreadable_moment_text(text: Seq<char>, format: Seq<char>, reason: Seq<char>) -> Seq<
    char,
> {
    "Could not parse date-time with value '"@ + text + "' and parse format string '"@ + format
        + "': "@ + reason
}

/// The sentence that reports a format in which no date and time can be
/// written.
pub open spec fn unwritable_moment_text(format: Seq<char>) -> Seq<char> {
    "Could not format date-time with format string '"@ + format + "'"@
}

/// The moment that `parseFormatDateTime` writes: the time on the clock for
/// the string `now`, else what the string reads as in the format that is the
/// first argument.
pub open spec fn moment_of(
    text: Seq<char>,
    function: Seq<char>,
    arguments: Seq<DataView>,
    host: HostView,
) -> Result<Moment, Failure> {
    if text == "now"@ {
        Ok(host.now)
    } else {
        match argument(function, arguments, 0) {
            Err(e) => Err(e),
            Ok(a) => match text_in(a) {
                Err(e) => Err(e),
                Ok(format) => match moment_read(text, format) {
                    Ok(moment) => Ok(moment),
                    Err(reason) => Err(
                        Failure::ArgumentValue(unreadable_moment_text(text, format, reason)),
                    ),
                },
            },
        }
    }
}

/// What `parseFormatDateTime` returns: the moment of [`moment_of`] written
/// in the format that is the second argument.
pub open spec fn parse_format_date_time_outcome(
    v: DataView,
    function: Seq<char>,
    arguments: Seq<DataView>,
    host: HostView,
) -> Outcome {
    match text_in(v) {
        Err(e) => Err(e),
        Ok(text) => match moment_of(text, function, arguments, host) {
            Err(e) => Err(e),
            Ok(moment) => match argument(function, arguments, 1) {
                Err(e) => Err(e),
                Ok(b) => match text_in(b) {
                    Err(e) => Err(e),
                    Ok(format) => match moment_written(
                        moment.seconds as int,
                        moment.nanoseconds as int,
                        moment.offset as int,
                        format,
                    ) {
                        Some(written) => Ok(DataView::String(written)),
                        None => Err(Failure::ArgumentValue(unwritable_moment_text(format))),
                    },
                },
            },
        },
    }
}

/// The value if it counts as true, else the fallback.
pub fn default(value: &Data, fallback: &Data) -> (r: Data)
    ensures
        r@ == (if truthy(value@) { value@ } else { fallback@ }),
{
    if to_boolean(value) {
        value.duplicate()
    } else {
        fallback.duplicate()
    }
}

/// `default`.
pub fn default_function(value: &Data, function: &str, arguments: &Vec<Data>) -> (r: Result<
    Data,
    TemplateRenderError,
>)
    ensures
        outcome(r) == default_outcome(value@, function@, views(arguments@)),
{
    match require_argument(function, arguments, 0) {
        Ok(a) => Ok(default(value, a)),
        Err(e) => Err(e),
    }
}

/// `coalesce`.
pub fn coalesce_function(value: &Data, function: &str, arguments: &Vec<Data>) -> (r: Result<
    Data,
    TemplateRenderError,
>)
    ensures
        outcome(r) == coalesce_outcome(value@, function@, views(arguments@)),
{
    match require_argument(function, arguments, 0) {
        Ok(a) => match value {
            Data::Null => Ok(a.duplicate()),
            _ => Ok(value.duplicate()),
        },
        Err(e) => Err(e),
    }
}

/// `empty` and `negate`.
pub fn empty_function(value: &Data) -> (r: Result<Data, TemplateRenderError>)
    ensures
        outcome(r) == empty_outcome(value@),
{
    Ok(Data::Bool(!to_boolean(value)))
}

/// The value of the variable of the environment with the name `name`.
pub fn environment(host: &Host, name: &String) -> (r: Option<String>)
    ensures
        r is Some == variable(host@.variables, name@) is Some,
        r matches Some(value) ==> variable(host@.variables, name@) == Some(value@),
{
    let ghost all = host@.variables;
    let mut i: usize = 0;
    assert(all.skip(0) =~= all);
    while i < host.variables.len()
        invariant
            i <= host.variables.len(),
            all == host@.variables,
            variable(all, name@) == variable(all.skip(i as int), name@),
        decreases host.variables.len() - i,
    {
        proof {
            assert(all.skip(i as int)[0] == all[i as int]);
            assert(all.skip(i as int).skip(1) =~= all.skip(i + 1));
        }
        if host.variables[i].name == *name {
            return Some(host.variables[i].value.clone());
        }
        i += 1;
    }
    None
}

/// `environment`.
pub fn environment_function(value: &Data, host: &Host) -> (r: Result<Data, TemplateRenderError>)
    ensures
        outcome(r) == environment_outcome(value@, host@),
{
    match require_string_value(value) {
        Ok(name) => match environment(host, name) {
            Some(found) => Ok(Data::String(found)),
            None => Ok(Data::Null),
        },
        Err(e) => Err(e),
    }
}

/// `toJson` and, if `pretty` holds, `toPrettyJson`.
pub fn to_json_function(value: &Data, pretty: bool) -> (r: Result<Data, TemplateRenderError>)
    ensures
        outcome(r) == to_json_outcome(value@, pretty),
{
    match json_of(value) {
        Some(document) => {
            let written = if pretty { write_json_pretty(&document) } else { write_json(&document) };
            match written {
                Some(text) => Ok(Data::String(text)),
                None => Err(TemplateRenderError::JsonSerializationError),
            }
        },
        None => Err(TemplateRenderError::JsonSerializationError),
    }
}

/// `fromJson`.
pub fn from_json_function(value: &Data) -> (r: Result<Data, TemplateRenderError>)
    ensures
        outcome(r) == from_json_outcome(value@),
        r matches Ok(v) ==> well_formed(v@),
{
    match require_string_value(value) {
        Ok(text) => match read_json(text.as_str()) {
            Ok(document) => Ok(value_of(&document)),
            Err(reason) => Err(TemplateRenderError::JsonParseError(reason)),
        },
        Err(e) => Err(e),
    }
}

/// The failure that reports a text that is no date and time in a format.
fn unreadable_moment(text: &String, format: &String, reason: &String) -> (r: TemplateRenderError)
    ensures
        r@ == Failure::ArgumentValue(unreadable_moment_text(text@, format@, reason@)),
{
    let mut message = String::from_str("Could not parse date-time with value '");
    message.append(text.as_str());
    message.append("' and parse format string '");
    message.append(format.as_str());
    message.append("': ");
    message.append(reason.as_str());
    TemplateRenderError::ArgumentValueError(message)
}

/// The failure that reports a format in which no date and time can be
/// written.
fn unwritable_moment(format: &String) -> (r: TemplateRenderError)
    ensures
        r@ == Failure::ArgumentValue(unwritable_moment_text(format@)),
{
    let mut message = String::from_str("Could not format date-time with format string '");
    message.append(format.as_str());
    message.append("'");
    TemplateRenderError::ArgumentValueError(message)
}

/// `parseFormatDateTime`.
pub fn parse_format_date_time_function(
    value: &Data,
    function: &str,
    arguments: &Vec<Data>,
    host: &Host,
) -> (r: Result<Data, TemplateRenderError>)
    ensures
        outcome(r) == parse_format_date_time_outcome(value@, function@, views(arguments@), host@),
{
    let text = match require_string_value(value) {
        Ok(s) => s,
        Err(e) => { return Err(e); },
    };
    let moment = if same_text(text.as_str(), "now") {
        host.now
    } else {
        let a = match require_argument(function, arguments, 0) {
            Ok(a) => a,
            Err(e) => { return Err(e); },
        };
        let format = match require_string_value(a) {
            Ok(s) => s,
            Err(e) => { return Err(e); },
        };
        match read_moment(text.as_str(), format.as_str()) {
            Ok(moment) => moment,
            Err(reason) => { return Err(unreadable_moment(text, format, &reason)); },
        }
    };
    let b = match require_argument(function, arguments, 1) {
        Ok(b) => b,
        Err(e) => { return Err(e); },
    };
    let format = match require_string_value(b) {
        Ok(s) => s,
        Err(e) => { return Err(e); },
    };
    match write_moment(&moment, format.as_str()) {
        Some(written) => Ok(Data::String(written)),
        None => Err(unwritable_moment(format)),
    }
}

/// Whether the library has a function of the name `function`.
pub open spec fn known_function(function: Seq<char>) -> bool {
    ||| function == "lowerCase"@
    ||| function == "upperCase"@
    ||| function == "kebabCase"@
    ||| function == "snakeCase"@
    ||| function == "camelCase"@
    ||| function == "pascalCase"@
    ||| function == "capitalize"@
    ||| function == "capitalizeWords"@
    ||| function == "length"@
    ||| function == "environment"@
    ||| function == "default"@
    ||| function == "coalesce"@
    ||| function == "reverse"@
    ||| function == "split"@
    ||| function == "lines"@
    ||| function == "matches"@
    ||| function == "substring"@
    ||| function == "take"@
    ||| function == "drop"@
    ||| function == "first"@
    ||| function == "last"@
    ||| function == "index"@
    ||| function == "contains"@
    ||| function == "containsKey"@
    ||| function == "containsValue"@
    ||| function == "startsWith"@
    ||| function == "endsWith"@
    ||| function == "empty"@
    ||| function == "unique"@
    ||| function == "keys"@
    ||| function == "values"@
    ||| function == "invert"@
    ||| function == "toJson"@
    ||| function == "toPrettyJson"@
    ||| function == "fromJson"@
    ||| function == "abbreviate"@
    ||| function == "trimLeft"@
    ||| function == "trimRight"@
    ||| function == "trim"@
    ||| function == "replace"@
    ||| function == "regexReplace"@
    ||| function == "negate"@
    ||| function == "all"@
    ||| function == "any"@
    ||| function == "none"@
    ||| function == "some"@
    ||| function == "chunked"@
    ||| function == "parseFormatDateTime"@
    ||| function == "alternate"@
}

/// What applying the function named `function` to a value with some
/// arguments returns: what the function of that name in the library
/// returns, or the failure that reports that there is none.
#[verifier::opaque]
pub open spec fn applied(
    v: DataView,
    function: Seq<char>,
    arguments: Seq<DataView>,
    host: HostView,
) -> Outcome {
    if function == "fromJson"@ {
        from_json_outcome(v)
    } else if function == "lowerCase"@ {
        lower_case_outcome(v)
    } else if function == "upperCase"@ {
        upper_case_outcome(v)
    } else if function == "kebabCase"@ {
        kebab_case_outcome(v)
    } else if function == "snakeCase"@ {
        snake_case_outcome(v)
    } else if function == "camelCase"@ {
        camel_case_outcome(v)
    } else if function == "pascalCase"@ {
        pascal_case_outcome(v)
    } else if function == "capitalize"@ {
        capitalize_outcome(v)
    } else if function == "capitalizeWords"@ {
        capitalize_words_outcome(v)
    } else if function == "length"@ {
        length_outcome(v)
    } else if function == "environment"@ {
        environment_outcome(v, host)
    } else if function == "default"@ {
        default_outcome(v, function, arguments)
    } else if function == "coalesce"@ {
        coalesce_outcome(v, function, arguments)
    } else if function == "reverse"@ {
        reverse_outcome(v)
    } else if function == "split"@ {
        split_outcome(v, function, arguments)
    } else if function == "lines"@ {
        lines_outcome(v)
    } else if function == "matches"@ {
        matches_outcome(v, function, arguments)
    } else if function == "substring"@ {
        substring_outcome(v, function, arguments)
    } else if function == "take"@ {
        take_outcome(v, function, arguments)
    } else if function == "drop"@ {
        drop_outcome(v, function, arguments)
    } else if function == "first"@ {
        first_outcome(v)
    } else if function == "last"@ {
        last_outcome(v)
    } else if function == "index"@ {
        index_outcome(v, function, arguments)
    } else if function == "contains"@ {
        contains_outcome(v, function, arguments)
    } else if function == "containsKey"@ {
        contains_key_outcome(v, function, arguments)
    } else if function == "containsValue"@ {
        contains_value_outcome(v, function, arguments)
    } else if function == "startsWith"@ {
        starts_with_outcome(v, function, arguments)
    } else if function == "endsWith"@ {
        ends_with_outcome(v, function, arguments)
    } else if function == "empty"@ {
        empty_outcome(v)
    } else if function == "unique"@ {
        unique_outcome(v)
    } else if function == "keys"@ {
        keys_outcome(v)
    } else if function == "values"@ {
        values_outcome(v)
    } else if function == "invert"@ {
        invert_outcome(v)
    } else if function == "toJson"@ {
        to_json_outcome(v, false)
    } else if function == "toPrettyJson"@ {
        to_json_outcome(v, true)
    } else if function == "abbreviate"@ {
        abbreviate_outcome(v, function, arguments)
    } else if function == "trimLeft"@ {
        trim_left_outcome(v)
    } else if function == "trimRight"@ {
        trim_right_outcome(v)
    } else if function == "trim"@ {
        trim_outcome(v)
    } else if function == "replace"@ {
        replace_outcome(v, function, arguments)
    } else if function == "regexReplace"@ {
        regex_replace_outcome(v, function, arguments)
    } else if function == "negate"@ {
        empty_outcome(v)
    } else if function == "all"@ {
        all_outcome(v)
    } else if function == "any"@ {
        any_outcome(v)
    } else if function == "none"@ {
        none_outcome(v)
    } else if function == "some"@ {
        some_outcome(v)
    } else if function == "chunked"@ {
        chunked_outcome(v, function, arguments)
    } else if function == "parseFormatDateTime"@ {
        parse_format_date_time_outcome(v, function, arguments, host)
    } else if function == "alternate"@ {
        alternate_outcome(v, function, arguments)
    } else {
        Err(Failure::UnknownFunction(function))
    }
}

/// Applies the function named `function` to a value with some arguments.
pub fn apply_function(value: &Data, function: &str, arguments: &Vec<Data>, host: &Host) -> (r: Result<
    Data,
    TemplateRenderError,
>)
    ensures
        outcome(r) == applied(value@, function@, views(arguments@), host@),
        well_formed(value@) && all_well_formed(views(arguments@)) ==> keeps_order(outcome(r)),
{
    proof {
        reveal(applied);
        if well_formed(value@) && all_well_formed(views(arguments@)) && function@ != "fromJson"@ {
            law_functions_keep_order(value@, function@, views(arguments@), host@);
        }
    }
    if same_text(function, "fromJson") {
        from_json_function(value)
    } else if same_text(function, "lowerCase") {
        lower_case(value)
    } else if same_text(function, "upperCase") {
        upper_case(value)
    } else if same_text(function, "kebabCase") {
        kebab_case_function(value)
    } else if same_text(function, "snakeCase") {
        snake_case_function(value)
    } else if same_text(function, "camelCase") {
        camel_case_function(value)
    } else if same_text(function, "pascalCase") {
        pascal_case_function(value)
    } else if same_text(function, "capitalize") {
        capitalize_function(value)
    } else if same_text(function, "capitalizeWords") {
        capitalize_words_function(value)
    } else if same_text(function, "length") {
        length_function(value)
    } else if same_text(function, "environment") {
        environment_function(value, host)
    } else if same_text(function, "default") {
        default_function(value, function, arguments)
    } else if same_text(function, "coalesce") {
        coalesce_function(value, function, arguments)
    } else if same_text(function, "reverse") {
        reverse_function(value)
    } else if same_text(function, "split") {
        split_function(value, function, arguments)
    } else if same_text(function, "lines") {
        lines_function(value)
    } else if same_text(function, "matches") {
        matches_function(value, function, arguments)
    } else if same_text(function, "substring") {
        substring_function(value, function, arguments)
    } else if same_text(function, "take") {
        take_function(value, function, arguments)
    } else if same_text(function, "drop") {
        drop_function(value, function, arguments)
    } else if same_text(function, "first") {
        first_function(value)
    } else if same_text(function, "last") {
        last_function(value)
    } else if same_text(function, "index") {
        index_function(value, function, arguments)
    } else if same_text(function, "contains") {
        contains_function(value, function, arguments)
    } else if same_text(function, "containsKey") {
        contains_key_function(value, function, arguments)
    } else if same_text(function, "containsValue") {
        contains_value_function(value, function, arguments)
    } else if same_text(function, "startsWith") {
        starts_with_function(value, function, arguments)
    } else if same_text(function, "endsWith") {
        ends_with_function(value, function, arguments)
    } else if same_text(function, "empty") {
        empty_function(value)
    } else if same_text(function, "unique") {
        unique_function(value)
    } else if same_text(function, "keys") {
        keys_function(value)
    } else if same_text(function, "values") {
        values_function(value)
    } else if same_text(function, "invert") {
        invert_function(value)
    } else if same_text(function, "toJson") {
        to_json_function(value, false)
    } else if same_text(function, "toPrettyJson") {
        to_json_function(value, true)
    } else if same_text(function, "abbreviate") {
        abbreviate_function(value, function, arguments)
    } else if same_text(function, "trimLeft") {
        trim_left(value)
    } else if same_text(function, "trimRight") {
        trim_right(value)
    } else if same_text(function, "trim") {
        trim(value)
    } else if same_text(function, "replace") {
        replace_function(value, function, arguments)
    } else if same_text(function, "regexReplace") {
        regex_replace_function(value, function, arguments)
    } else if same_text(function, "negate") {
        empty_function(value)
    } else if same_text(function, "all") {
        all_function(value)
    } else if same_text(function, "any") {
        any_function(value)
    } else if same_text(function, "none") {
        none_function(value)
    } else if same_text(function, "some") {
        some_function(value)
    } else if same_text(function, "chunked") {
        chunked_function(value, function, arguments)
    } else if same_text(function, "parseFormatDateTime") {
        parse_format_date_time_function(value, function, arguments, host)
    } else if same_text(function, "alternate") {
        alternate_function(value, function, arguments)
    } else {
        Err(TemplateRenderError::UnknownFunctionError(String::from_str(function)))
    }
}

} // verus!
