use template_cli::data::{Data, Member, Number};
use template_cli::error::TemplateRenderError;
use template_cli::evaluate::format_string;
use template_cli::function::{
    apply_function, camel_case, capitalize, capitalize_words, kebab_case, pascal_case, snake_case,
    to_boolean, type_of, Host, Variable,
};
use template_cli::json::{json_of, value_of};
use template_cli::moment::Moment;

fn host() -> Host {
    Host {
        variables: vec![Variable { name: "ENV_TEST".to_string(), value: "env_test".to_string() }],
        now: Moment { seconds: 994_518_299, nanoseconds: 0, offset: 7200 },
    }
}

fn json(text: &str) -> Data {
    apply_function(&Data::String(text.to_string()), "fromJson", &vec![], &host()).unwrap()
}

fn text(value: &str) -> Data {
    Data::String(value.to_string())
}

fn whole(value: i64) -> Data {
    Data::Number(Number::Signed(value))
}

fn call(value: Data, function: &str, arguments: Vec<Data>) -> Result<Data, TemplateRenderError> {
    apply_function(&value, function, &arguments, &host())
}

fn shown(value: Data, function: &str, arguments: Vec<Data>) -> String {
    format_string(&call(value, function, arguments).unwrap())
}

#[test]
fn truthiness_of_every_kind() {
    assert!(!to_boolean(&Data::Null));
    assert!(to_boolean(&Data::Bool(true)));
    assert!(!to_boolean(&Data::Bool(false)));
    assert!(!to_boolean(&whole(0)));
    assert!(to_boolean(&whole(-1)));
    assert!(!to_boolean(&Data::Number(Number::Unsigned(0))));
    assert!(to_boolean(&Data::Number(Number::Unsigned(7))));
    assert!(!to_boolean(&json("0.0")));
    assert!(!to_boolean(&json("-0.0")));
    assert!(to_boolean(&json("0.1")));
    assert!(!to_boolean(&text("")));
    assert!(!to_boolean(&text(" \t\n ")));
    assert!(to_boolean(&text(" x ")));
    assert!(!to_boolean(&json("[]")));
    assert!(to_boolean(&json("[null]")));
    assert!(!to_boolean(&json("{}")));
    assert!(to_boolean(&json("{\"a\":null}")));
}

#[test]
fn format_of_every_kind() {
    assert_eq!(format_string(&Data::Null), "");
    assert_eq!(format_string(&Data::Bool(true)), "true");
    assert_eq!(format_string(&Data::Bool(false)), "false");
    assert_eq!(format_string(&whole(-100)), "-100");
    assert_eq!(format_string(&whole(i64::MIN)), "-9223372036854775808");
    assert_eq!(format_string(&Data::Number(Number::Unsigned(u64::MAX))), "18446744073709551615");
    assert_eq!(format_string(&json("1.0")), "1.0");
    assert_eq!(format_string(&json("1e10")), "10000000000.0");
    assert_eq!(format_string(&json("-0.0")), "-0.0");
    assert_eq!(format_string(&text("a \"b\"")), "a \"b\"");
    assert_eq!(format_string(&json("[]")), "[]");
    assert_eq!(format_string(&json("{}")), "{}");
    assert_eq!(format_string(&json("[1,2,3]")), "[1,2,3]");
    assert_eq!(format_string(&json("[null,\"a\",1,1.0,[2],{\"g\":1}]")), "[,a,1,1.0,[2],{g:1}]");
    assert_eq!(format_string(&json("{\"c\":3,\"a\":1,\"b\":\"x\"}")), "{a:1,b:x,c:3}");
}

#[test]
fn type_names() {
    assert_eq!(type_of(&Data::Null), "null");
    assert_eq!(type_of(&Data::Bool(true)), "boolean");
    assert_eq!(type_of(&whole(1)), "number");
    assert_eq!(type_of(&text("")), "string");
    assert_eq!(type_of(&json("[]")), "array");
    assert_eq!(type_of(&json("{}")), "object");
}

#[test]
fn case_functions() {
    assert_eq!(shown(text("string"), "upperCase", vec![]), "STRING");
    assert_eq!(shown(text("UPPER"), "lowerCase", vec![]), "upper");
    assert_eq!(shown(text("string with spaces"), "kebabCase", vec![]), "string-with-spaces");
    assert_eq!(shown(text("String  With_Some--Spaces"), "kebabCase", vec![]), "string-with_some-spaces");
    assert_eq!(shown(text("string with spaces"), "snakeCase", vec![]), "string_with_spaces");
    assert_eq!(shown(text("String  With-Some__Spaces"), "snakeCase", vec![]), "string_with-some_spaces");
    assert_eq!(shown(text("string with spaces"), "camelCase", vec![]), "stringWithSpaces");
    assert_eq!(shown(text("string with spaces"), "pascalCase", vec![]), "StringWithSpaces");
    assert_eq!(shown(text("string with spaces"), "capitalize", vec![]), "String with spaces");
    assert_eq!(shown(text(""), "capitalize", vec![]), "");
    assert_eq!(shown(text("string with\tspaces"), "capitalizeWords", vec![]), "String With\tSpaces");
}

#[test]
fn case_functions_want_a_string() {
    for function in [
        "lowerCase", "upperCase", "kebabCase", "snakeCase", "camelCase", "pascalCase", "capitalize",
        "capitalizeWords", "trim", "trimLeft", "trimRight", "lines", "fromJson", "environment",
    ] {
        assert_eq!(call(whole(1), function, vec![]), Err(TemplateRenderError::TypeError("number".to_string())));
    }
}

#[test]
fn length_counts_characters_items_and_members() {
    assert_eq!(call(text(""), "length", vec![]), Ok(Data::Number(Number::Unsigned(0))));
    assert_eq!(shown(text("string"), "length", vec![]), "6");
    assert_eq!(shown(text("h\u{e9}llo"), "length", vec![]), "5");
    assert_eq!(shown(json("[]"), "length", vec![]), "0");
    assert_eq!(shown(json("[1,2,3]"), "length", vec![]), "3");
    assert_eq!(shown(json("{\"a\":1,\"b\":2,\"c\":3}"), "length", vec![]), "3");
    assert_eq!(call(Data::Null, "length", vec![]), Err(TemplateRenderError::TypeError("null".to_string())));
}

#[test]
fn environment_looks_a_variable_up() {
    assert_eq!(call(text("ENV_TEST"), "environment", vec![]), Ok(text("env_test")));
    assert_eq!(call(text("ENV_MISSING"), "environment", vec![]), Ok(Data::Null));
}

#[test]
fn default_and_coalesce() {
    assert_eq!(call(Data::Bool(false), "default", vec![text("x")]), Ok(text("x")));
    assert_eq!(call(Data::Bool(false), "coalesce", vec![text("x")]), Ok(Data::Bool(false)));
    assert_eq!(call(Data::Null, "default", vec![text("x")]), Ok(text("x")));
    assert_eq!(call(Data::Null, "coalesce", vec![text("x")]), Ok(text("x")));
    assert_eq!(call(Data::Bool(true), "default", vec![text("x")]), Ok(Data::Bool(true)));
    assert_eq!(call(whole(0), "default", vec![text("default")]), Ok(text("default")));
    assert_eq!(call(whole(-1), "default", vec![text("default")]), Ok(whole(-1)));
    assert_eq!(call(text("  "), "default", vec![text("default")]), Ok(text("default")));
    assert_eq!(call(text("non empty"), "default", vec![text("default")]), Ok(text("non empty")));
    assert_eq!(shown(json("[1]"), "default", vec![text("default")]), "[1]");
    assert_eq!(shown(json("[]"), "default", vec![text("default")]), "default");
    assert_eq!(shown(json("{\"a\":\"a\"}"), "default", vec![text("default")]), "{a:a}");
    assert_eq!(shown(json("100.0"), "default", vec![text("default")]), "100.0");
    assert_eq!(shown(json("0.0"), "default", vec![text("default")]), "default");
    assert_eq!(call(text("something"), "coalesce", vec![text("x")]), Ok(text("something")));
}

#[test]
fn a_missing_argument_is_reported() {
    assert_eq!(
        call(Data::Null, "default", vec![]),
        Err(TemplateRenderError::RequiredArgumentMissing(
            "Argument 1 is missing for function 'default'".to_string()
        ))
    );
    assert_eq!(
        call(text("a"), "replace", vec![text("a")]),
        Err(TemplateRenderError::RequiredArgumentMissing(
            "Argument 2 is missing for function 'replace'".to_string()
        ))
    );
}

#[test]
fn reverse_of_strings_and_arrays() {
    assert_eq!(shown(text("string"), "reverse", vec![]), "gnirts");
    assert_eq!(shown(json("[1,2,3]"), "reverse", vec![]), "[3,2,1]");
    assert_eq!(call(Data::Bool(true), "reverse", vec![]), Err(TemplateRenderError::TypeError("boolean".to_string())));
}

#[test]
fn split_and_lines() {
    assert_eq!(shown(text("hello world"), "split", vec![text(" ")]), "[hello,world]");
    assert_eq!(shown(text("a,,b,"), "split", vec![text(",")]), "[a,,b,]");
    assert_eq!(call(text("ab"), "split", vec![text("")]), Ok(json("[\"\",\"a\",\"b\",\"\"]")));
    assert_eq!(call(text("abc"), "split", vec![text("abc")]), Ok(json("[\"\",\"\"]")));
    assert_eq!(shown(text("\n a\nb\r\nc\n\nx \n"), "lines", vec![]), "[a,b,c,,x]");
    assert_eq!(call(text("  \n "), "lines", vec![]), Ok(json("[]")));
    assert_eq!(call(text("a"), "split", vec![whole(1)]), Err(TemplateRenderError::TypeError("number".to_string())));
}

#[test]
fn matches_and_regex_replace() {
    assert_eq!(call(text("hello world"), "matches", vec![text("^hel+o")]), Ok(Data::Bool(true)));
    assert_eq!(call(text("hello world"), "matches", vec![text("^world")]), Ok(Data::Bool(false)));
    assert_eq!(
        call(text("hello"), "matches", vec![text("(")]),
        Err(TemplateRenderError::InvalidRegexError("(".to_string()))
    );
    assert_eq!(shown(text("a123b"), "regexReplace", vec![text("[0-9]"), text("x")]), "axxxb");
    assert_eq!(shown(text("abc def"), "regexReplace", vec![text("[a-z]+"), text("xxx")]), "xxx xxx");
    assert_eq!(shown(text("ab-cd"), "regexReplace", vec![text("(\\w+)-(\\w+)"), text("$2-$1")]), "cd-ab");
    assert_eq!(shown(text("unmatching"), "regexReplace", vec![text("[0-9]"), text("x")]), "unmatching");
    assert_eq!(
        call(text("hello"), "regexReplace", vec![text("[")]),
        Err(TemplateRenderError::InvalidRegexError("[".to_string()))
    );
}

#[test]
fn substring_take_and_drop_of_strings() {
    let hello = || text("hello world");
    assert_eq!(shown(hello(), "substring", vec![whole(1), whole(5)]), "ello");
    assert_eq!(shown(hello(), "substring", vec![whole(1)]), "ello world");
    assert_eq!(shown(hello(), "substring", vec![whole(0), whole(1)]), "h");
    assert_eq!(shown(hello(), "substring", vec![whole(100)]), "");
    assert_eq!(shown(hello(), "substring", vec![whole(0), whole(100)]), "hello world");
    assert_eq!(shown(text("h\u{e9}llo"), "substring", vec![whole(1), whole(3)]), "\u{e9}l");
    assert_eq!(
        call(hello(), "substring", vec![whole(5), whole(3)]),
        Err(TemplateRenderError::ArgumentValueError(
            "The start (5) cannot be larger than the end (3)".to_string()
        ))
    );
    assert_eq!(call(hello(), "substring", vec![whole(-1)]), Err(TemplateRenderError::TypeError("number".to_string())));
    assert_eq!(shown(hello(), "take", vec![whole(100)]), "hello world");
    assert_eq!(shown(hello(), "take", vec![whole(0)]), "");
    assert_eq!(shown(hello(), "take", vec![whole(3)]), "hel");
    assert_eq!(shown(hello(), "drop", vec![whole(100)]), "");
    assert_eq!(shown(hello(), "drop", vec![whole(0)]), "hello world");
    assert_eq!(shown(hello(), "drop", vec![whole(3)]), "lo world");
}

#[test]
fn take_drop_and_index_of_arrays() {
    let items = || json("[1,2,3]");
    assert_eq!(shown(items(), "take", vec![whole(100)]), "[1,2,3]");
    assert_eq!(shown(items(), "take", vec![whole(0)]), "[]");
    assert_eq!(shown(items(), "take", vec![whole(1)]), "[1]");
    assert_eq!(shown(items(), "drop", vec![whole(100)]), "[]");
    assert_eq!(shown(items(), "drop", vec![whole(0)]), "[1,2,3]");
    assert_eq!(shown(items(), "drop", vec![whole(1)]), "[2,3]");
    assert_eq!(shown(items(), "first", vec![]), "1");
    assert_eq!(call(json("[]"), "first", vec![]), Ok(Data::Null));
    assert_eq!(shown(items(), "last", vec![]), "3");
    assert_eq!(call(json("[]"), "last", vec![]), Ok(Data::Null));
    assert_eq!(shown(items(), "index", vec![whole(0)]), "1");
    assert_eq!(call(items(), "index", vec![whole(3)]), Ok(Data::Null));
    assert_eq!(call(json("[]"), "index", vec![whole(0)]), Ok(Data::Null));
    assert_eq!(call(text("x"), "first", vec![]), Err(TemplateRenderError::TypeError("string".to_string())));
    assert_eq!(call(Data::Null, "take", vec![whole(1)]), Err(TemplateRenderError::TypeError("null".to_string())));
}

#[test]
fn contains_of_strings_arrays_and_objects() {
    assert_eq!(call(text("hello world"), "contains", vec![text("lo w")]), Ok(Data::Bool(true)));
    assert_eq!(call(text("hello world"), "contains", vec![text("")]), Ok(Data::Bool(true)));
    assert_eq!(call(text("hello world"), "contains", vec![text("low")]), Ok(Data::Bool(false)));
    assert_eq!(call(json("[1,2,3]"), "contains", vec![whole(2)]), Ok(Data::Bool(true)));
    assert_eq!(call(json("[1,2,3]"), "contains", vec![whole(4)]), Ok(Data::Bool(false)));
    assert_eq!(call(json("[1,2,3]"), "contains", vec![json("2.0")]), Ok(Data::Bool(false)));
    assert_eq!(call(json("[0.0]"), "contains", vec![json("-0.0")]), Ok(Data::Bool(true)));
    assert_eq!(call(json("[[1,{\"a\":2}]]"), "contains", vec![json("[1,{\"a\":2}]")]), Ok(Data::Bool(true)));
    assert_eq!(call(whole(1), "contains", vec![text("x")]), Err(TemplateRenderError::TypeError("string".to_string())));
    let object = || json("{\"a\":1,\"b\":2,\"c\":3}");
    assert_eq!(call(object(), "containsKey", vec![text("a")]), Ok(Data::Bool(true)));
    assert_eq!(call(object(), "containsKey", vec![text("d")]), Ok(Data::Bool(false)));
    assert_eq!(call(object(), "containsValue", vec![whole(3)]), Ok(Data::Bool(true)));
    assert_eq!(call(object(), "containsValue", vec![whole(4)]), Ok(Data::Bool(false)));
    assert_eq!(call(text("x"), "startsWith", vec![text("")]), Ok(Data::Bool(true)));
    assert_eq!(call(text("hello"), "startsWith", vec![text("he")]), Ok(Data::Bool(true)));
    assert_eq!(call(text("hello"), "startsWith", vec![text("lo")]), Ok(Data::Bool(false)));
    assert_eq!(call(text("hello"), "endsWith", vec![text("lo")]), Ok(Data::Bool(true)));
    assert_eq!(call(text("hello"), "endsWith", vec![text("he")]), Ok(Data::Bool(false)));
    assert_eq!(call(text("lo"), "endsWith", vec![text("hello")]), Ok(Data::Bool(false)));
}

#[test]
fn empty_and_negate() {
    assert_eq!(call(text("x"), "empty", vec![]), Ok(Data::Bool(false)));
    assert_eq!(call(text(""), "empty", vec![]), Ok(Data::Bool(true)));
    assert_eq!(call(text("  "), "empty", vec![]), Ok(Data::Bool(true)));
    assert_eq!(call(Data::Null, "empty", vec![]), Ok(Data::Bool(true)));
    assert_eq!(call(Data::Bool(true), "negate", vec![]), Ok(Data::Bool(false)));
    assert_eq!(call(Data::Bool(false), "negate", vec![]), Ok(Data::Bool(true)));
}

#[test]
fn unique_keeps_first_occurrences() {
    assert_eq!(shown(json("[1,2,1,3,2]"), "unique", vec![]), "[1,2,3]");
    assert_eq!(
        shown(json("[1,2,{},[3],null,-0.0,0.0,1,{},[3],null,0.0]"), "unique", vec![]),
        "[1,2,{},[3],,-0.0,0.0]"
    );
    let once = call(json("[3,1,3,1,2]"), "unique", vec![]).unwrap();
    let twice = call(once.clone(), "unique", vec![]).unwrap();
    assert_eq!(once, twice);
}

#[test]
fn keys_values_and_invert() {
    let object = || json("{\"b\":2,\"a\":1,\"c\":3}");
    assert_eq!(shown(object(), "keys", vec![]), "[a,b,c]");
    assert_eq!(shown(json("{}"), "keys", vec![]), "[]");
    assert_eq!(shown(object(), "values", vec![]), "[1,2,3]");
    assert_eq!(shown(json("{}"), "values", vec![]), "[]");
    assert_eq!(shown(json("{\"b\":\"d\"}"), "invert", vec![]), "{d:b}");
    assert_eq!(shown(json("{\"a\":\"z\",\"b\":\"y\",\"c\":\"z\"}"), "invert", vec![]), "{y:b,z:c}");
    assert_eq!(call(object(), "invert", vec![]), Err(TemplateRenderError::TypeError("number".to_string())));
    assert_eq!(call(json("[]"), "keys", vec![]), Err(TemplateRenderError::TypeError("array".to_string())));
}

#[test]
fn json_functions() {
    assert_eq!(call(text("  "), "toJson", vec![]), Ok(text("\"  \"")));
    assert_eq!(call(Data::Bool(true), "toJson", vec![]), Ok(text("true")));
    assert_eq!(call(whole(1), "toJson", vec![]), Ok(text("1")));
    assert_eq!(call(json("-0.0"), "toJson", vec![]), Ok(text("-0.0")));
    assert_eq!(call(json("{\"c\":3,\"a\":1,\"b\":2}"), "toJson", vec![]), Ok(text("{\"a\":1,\"b\":2,\"c\":3}")));
    assert_eq!(call(json("{}"), "toJson", vec![]), Ok(text("{}")));
    assert_eq!(
        call(json("{\"a\":1,\"b\":2,\"c\":3}"), "toPrettyJson", vec![]),
        Ok(text("{\n  \"a\": 1,\n  \"b\": 2,\n  \"c\": 3\n}"))
    );
    assert_eq!(call(json("{}"), "toPrettyJson", vec![]), Ok(text("{}")));
    assert_eq!(shown(text("{}"), "fromJson", vec![]), "{}");
    assert_eq!(shown(text("[1,2,3]"), "fromJson", vec![]), "[1,2,3]");
    assert_eq!(shown(text("1"), "fromJson", vec![]), "1");
    assert_eq!(call(text("null"), "fromJson", vec![]), Ok(Data::Null));
    assert!(matches!(call(text("{"), "fromJson", vec![]), Err(TemplateRenderError::JsonParseError(_))));
    assert_eq!(
        call(Data::Number(Number::Float("abc".to_string())), "toJson", vec![]),
        Err(TemplateRenderError::JsonSerializationError)
    );
}

#[test]
fn json_round_trip() {
    for source in [
        "null", "true", "false", "0", "-12", "18446744073709551615", "1.5", "-0.0", "1e300",
        "\"a \\\"quoted\\\" \\n text\"", "[]", "{}", "[1,[2,[3,{\"a\":[null]}]]]",
        "{\"b\":{\"y\":2.25,\"x\":[true,false]},\"a\":\"\"}",
    ] {
        let value = json(source);
        let written = call(value.clone(), "toJson", vec![]).unwrap();
        let read = call(written, "fromJson", vec![]).unwrap();
        assert_eq!(read, value);
        let pretty = call(value.clone(), "toPrettyJson", vec![]).unwrap();
        assert_eq!(call(pretty, "fromJson", vec![]).unwrap(), value);
    }
}

#[test]
fn abbreviate_cuts_long_strings() {
    assert_eq!(shown(text("abdef"), "abbreviate", vec![whole(2)]), "a\u{2026}");
    assert_eq!(shown(text("abdef"), "abbreviate", vec![whole(5)]), "abdef");
    assert_eq!(shown(text("abdef"), "abbreviate", vec![whole(0)]), "\u{2026}");
    assert_eq!(shown(text("abdef"), "abbreviate", vec![whole(1)]), "\u{2026}");
    assert_eq!(shown(text(""), "abbreviate", vec![whole(0)]), "");
}

#[test]
fn trim_functions() {
    assert_eq!(shown(text("  abdef \n"), "trim", vec![]), "abdef");
    assert_eq!(shown(text("   "), "trim", vec![]), "");
    assert_eq!(shown(text(" x "), "trimLeft", vec![]), "x ");
    assert_eq!(shown(text(" x "), "trimRight", vec![]), " x");
    let once = call(text(" \t a b \n"), "trim", vec![]).unwrap();
    assert_eq!(call(once.clone(), "trim", vec![]).unwrap(), once);
}

#[test]
fn replace_is_literal() {
    assert_eq!(shown(text("aa"), "replace", vec![text("a"), text("x")]), "xx");
    assert_eq!(shown(text("ab"), "replace", vec![text("c"), text("x")]), "ab");
    assert_eq!(shown(text("a.b"), "replace", vec![text("."), text("")]), "ab");
    assert_eq!(shown(text("aaa"), "replace", vec![text("aa"), text("b")]), "ba");
    assert_eq!(shown(text("abc"), "replace", vec![text(""), text("-")]), "-a-b-c-");
    assert_eq!(shown(text(""), "replace", vec![text("a"), text("x")]), "");
}

#[test]
fn quantifiers_over_arrays() {
    assert_eq!(call(json("[1,0]"), "any", vec![]), Ok(Data::Bool(true)));
    assert_eq!(call(json("[0,\"\"]"), "any", vec![]), Ok(Data::Bool(false)));
    assert_eq!(call(json("[1,0]"), "all", vec![]), Ok(Data::Bool(false)));
    assert_eq!(call(json("[1,true]"), "all", vec![]), Ok(Data::Bool(true)));
    assert_eq!(call(json("[]"), "all", vec![]), Ok(Data::Bool(true)));
    assert_eq!(call(json("[1,0]"), "none", vec![]), Ok(Data::Bool(false)));
    assert_eq!(call(json("[0,null]"), "none", vec![]), Ok(Data::Bool(true)));
    assert_eq!(call(json("[1,0]"), "some", vec![]), Ok(Data::Bool(true)));
    assert_eq!(call(json("[1,2]"), "some", vec![]), Ok(Data::Bool(false)));
    assert_eq!(call(whole(1), "all", vec![]), Err(TemplateRenderError::TypeError("number".to_string())));
}

#[test]
fn chunked_makes_windows() {
    assert_eq!(shown(json("[]"), "chunked", vec![whole(2), whole(0)]), "[]");
    assert_eq!(shown(json("[1,2,3]"), "chunked", vec![whole(2), whole(0)]), "[[1,2],[3]]");
    assert_eq!(shown(json("[1,2,3]"), "chunked", vec![whole(1), whole(0)]), "[[1],[2],[3]]");
    assert_eq!(shown(json("[1,2,3,4]"), "chunked", vec![whole(3), whole(1)]), "[[1,2,3],[3,4]]");
    assert_eq!(shown(json("[1,2,3]"), "chunked", vec![whole(2), whole(1)]), "[[1,2],[2,3],[3]]");
    assert_eq!(shown(json("[1,2,3]"), "chunked", vec![whole(10), whole(0)]), "[[1,2,3]]");
}

#[test]
fn chunked_wants_an_overlap_below_the_size() {
    assert_eq!(
        call(json("[1,2,3]"), "chunked", vec![whole(3), whole(6)]),
        Err(TemplateRenderError::ArgumentValueError(
            "The overlap (6) cannot be equal or larger than the chunk size (3)".to_string()
        ))
    );
    assert_eq!(
        call(json("[1,2,3]"), "chunked", vec![whole(3), whole(3)]),
        Err(TemplateRenderError::ArgumentValueError(
            "The overlap (3) cannot be equal or larger than the chunk size (3)".to_string()
        ))
    );
    assert!(call(json("[1,2,3]"), "chunked", vec![whole(3), whole(2)]).is_ok());
}

#[test]
fn alternate_counts_round() {
    let items = || json("[\"one\",\"two\"]");
    assert_eq!(call(whole(0), "alternate", vec![items()]), Ok(text("one")));
    assert_eq!(call(whole(1), "alternate", vec![items()]), Ok(text("two")));
    assert_eq!(call(whole(5), "alternate", vec![items()]), Ok(text("two")));
    assert_eq!(call(whole(5), "alternate", vec![json("[]")]), Ok(Data::Null));
    assert_eq!(call(whole(-1), "alternate", vec![items()]), Err(TemplateRenderError::TypeError("number".to_string())));
}

#[test]
fn date_and_time() {
    assert_eq!(
        call(
            text("2001-07-08T00:34:60.026490+09:30"),
            "parseFormatDateTime",
            vec![text("%Y-%m-%dT%H:%M:%S%.f%:z"), text("%A %e %B %Y, %T")]
        ),
        Ok(text("Sunday  8 July 2001, 00:34:60"))
    );
    assert_eq!(
        call(text("now"), "parseFormatDateTime", vec![Data::Null, text("%Y-%m-%d %H:%M:%S %z")]),
        Ok(text("2001-07-07 17:04:59 +0200"))
    );
    assert!(matches!(
        call(text("yesterday"), "parseFormatDateTime", vec![text("%Y"), text("%Y")]),
        Err(TemplateRenderError::ArgumentValueError(_))
    ));
    assert_eq!(
        call(text("now"), "parseFormatDateTime", vec![Data::Null, text("%Q")]),
        Err(TemplateRenderError::ArgumentValueError(
            "Could not format date-time with format string '%Q'".to_string()
        ))
    );
}

#[test]
fn an_unknown_function_is_reported() {
    assert_eq!(
        call(Data::Null, "doesNotExist", vec![]),
        Err(TemplateRenderError::UnknownFunctionError("doesNotExist".to_string()))
    );
    assert_eq!(
        TemplateRenderError::UnknownFunctionError("doesNotExist".to_string()).message(),
        "Unknown function 'doesNotExist'"
    );
}

#[test]
fn messages_of_every_failure() {
    assert_eq!(TemplateRenderError::TypeError("null".to_string()).message(), "Invalid type 'null'");
    assert_eq!(TemplateRenderError::ArgumentValueError("x".to_string()).message(), "Invalid arguments: x");
    assert_eq!(TemplateRenderError::LiteralParseError("1x".to_string()).message(), "Could not parse literal '1x'");
    assert_eq!(
        TemplateRenderError::RequiredArgumentMissing("f".to_string()).message(),
        "Required argument is missing for function f"
    );
    assert_eq!(
        TemplateRenderError::InvalidRegexError("(".to_string()).message(),
        "Invalid regular expression given: '('"
    );
    assert_eq!(TemplateRenderError::JsonParseError("x".to_string()).message(), "Could not parse JSON: 'x'");
    assert_eq!(TemplateRenderError::JsonSerializationError.message(), "Could not serialize JSON");
}

#[test]
fn objects_from_json_are_in_key_order() {
    match json("{\"b\":1,\"a\":2}") {
        Data::Object(members) => {
            let keys: Vec<&str> = members.iter().map(|m: &Member| m.key.as_str()).collect();
            assert_eq!(keys, vec!["a", "b"]);
        }
        other => panic!("no object: {:?}", other),
    }
}

#[test]
fn the_case_functions_by_themselves() {
    assert_eq!(camel_case(&"one two-three".to_string()), "oneTwoThree");
    assert_eq!(camel_case(&" one".to_string()), "One");
    assert_eq!(pascal_case(&"one two-three".to_string()), "OneTwoThree");
    assert_eq!(pascal_case(&"\u{e9}t\u{e9} \u{e9}t\u{e9}".to_string()), "\u{e9}t\u{e9}\u{e9}t\u{e9}");
    assert_eq!(capitalize(&"one two".to_string()), "One two");
    assert_eq!(capitalize(&"\u{df}".to_string()), "SS");
    assert_eq!(capitalize_words(&"one  two\nthree".to_string()), "One  Two\nThree");
    assert_eq!(kebab_case(&"One Two".to_string()), Some("one-two".to_string()));
    assert_eq!(snake_case(&"One Two".to_string()), Some("one_two".to_string()));
}

#[test]
fn documents_and_values() {
    let document: serde_json::Value =
        serde_json::from_str("{\"b\": [1, -2, 2.5, \"x\", null, true], \"a\": {}}").unwrap();
    let value = value_of(&document);
    assert_eq!(format_string(&value), "{a:{},b:[1,-2,2.5,x,,true]}");
    assert_eq!(json_of(&value), Some(document));
    let unsorted = Data::Object(vec![
        Member { key: "b".to_string(), value: Data::Null },
        Member { key: "a".to_string(), value: Data::Bool(true) },
        Member { key: "b".to_string(), value: Data::Bool(false) },
    ]);
    let sorted: serde_json::Value = serde_json::from_str("{\"a\": true, \"b\": false}").unwrap();
    assert_eq!(json_of(&unsorted), Some(sorted));
    assert_eq!(json_of(&Data::Number(Number::Float("1.5x".to_string()))), None);
    assert_eq!(json_of(&Data::Number(Number::Signed(5))), Some(serde_json::Value::from(5u64)));
}
