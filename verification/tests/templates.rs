use template_cli::data::Data;
use template_cli::error::TemplateRenderError;
use template_cli::evaluate::{evaluate_file, parse_template, TemplateParser};
use template_cli::function::{apply_function, Host, Variable};
use template_cli::grammar::{Expected, ParseError};
use template_cli::moment::Moment;
use template_cli::template::{Head, Literal, Node, Test};

fn machine() -> Host {
    Host {
        variables: vec![Variable { name: "ENV_TEST".to_string(), value: "env_test".to_string() }],
        now: Moment { seconds: 994_518_299, nanoseconds: 0, offset: 0 },
    }
}

fn read(source: &str) -> Data {
    apply_function(&Data::String(source.to_string()), "fromJson", &vec![], &machine()).unwrap()
}

fn rendered(template: &str, configuration: &str) -> Result<String, TemplateRenderError> {
    let tree = parse_template(&template.to_string()).unwrap();
    evaluate_file(&read(configuration), &tree, &machine())
}

fn fault(template: &str) -> ParseError {
    TemplateParser::parse(template).unwrap_err()
}

#[test]
fn if_else_scenario() {
    let template = "{% if a %}true{% else %}false{% end %}";
    assert_eq!(rendered(template, "{\"a\": true}"), Ok("true".to_string()));
    assert_eq!(rendered(template, "{\"a\": false}"), Ok("false".to_string()));
    assert_eq!(rendered(template, "{}"), Ok("false".to_string()));
}

#[test]
fn hello_world_scenario() {
    assert_eq!(
        rendered("Hello {{ name | upperCase }}!", "{\"name\": \"world\"}"),
        Ok("Hello WORLD!".to_string())
    );
    assert_eq!(rendered("Hello {{ name }}!", "{\"name\": \"world\"}"), Ok("Hello world!".to_string()));
}

#[test]
fn for_loop_scenario() {
    assert_eq!(
        rendered("{% for x in items %}{{ x }},{% end %}", "{\"items\": [1,2,3]}"),
        Ok("1,2,3,".to_string())
    );
}

#[test]
fn unknown_function_call() {
    assert_eq!(
        rendered("some text {{ value | doesNotExist }} more", "{}"),
        Err(TemplateRenderError::UnknownFunctionError("doesNotExist".to_string()))
    );
}

#[test]
fn invalid_chunked_arguments() {
    let failure = rendered("{{ [1,2,3] | chunked(3, 6) }}", "{}").unwrap_err();
    assert_eq!(
        failure.message(),
        "Invalid arguments: The overlap (6) cannot be equal or larger than the chunk size (3)"
    );
}

#[test]
fn function_error() {
    let failure = rendered("{{ value | upperCase }}", "{\"value\": 1}").unwrap_err();
    assert_eq!(failure, TemplateRenderError::TypeError("number".to_string()));
    assert_eq!(failure.message(), "Invalid type 'number'");
}

#[test]
fn empty_template() {
    assert_eq!(rendered("", "{}"), Ok(String::new()));
}

#[test]
fn no_variables() {
    let text = "line1\nline2\nline3\n\nline4\n\ndone\n";
    assert_eq!(rendered(text, "{}"), Ok(text.to_string()));
}

#[test]
fn variables() {
    let template = "begin\n!{{ a }}!\n{{ b }}\n{{ c }}\n--{{ d.e }}--\n{{ f }}\n{{ d }}\n{{ h }}\nend\n";
    let configuration =
        "{\"a\": 1, \"b\": \"string\", \"c\": null, \"d\": {\"e\": \"value\"}, \"f\": false, \"h\": [1,2,3]}";
    assert_eq!(
        rendered(template, configuration),
        Ok("begin\n!1!\nstring\n\n--value--\nfalse\n{e:value}\n[1,2,3]\nend\n".to_string())
    );
}

#[test]
fn missing_configuration_value() {
    assert_eq!(rendered("!{{ a }}!\n!{{ a.b.c }}!\n", "{}"), Ok("!!\n!!\n".to_string()));
}

#[test]
fn comments() {
    assert_eq!(
        rendered("{# a comment #}\n{# {{ a }} {% if %} #}{{ false }}\n", "{}"),
        Ok("\nfalse\n".to_string())
    );
}

#[test]
fn literals() {
    let show = |expression: &str| rendered(&format!("{{{{ {} }}}}", expression), "{\"k\": \"v\"}").unwrap();
    assert_eq!(show("null"), "");
    assert_eq!(show("true"), "true");
    assert_eq!(show("false"), "false");
    assert_eq!(show("0"), "0");
    assert_eq!(show("100"), "100");
    assert_eq!(show("-100"), "-100");
    assert_eq!(show("0.0"), "0.0");
    assert_eq!(show("1.0"), "1.0");
    assert_eq!(show("0.1"), "0.1");
    assert_eq!(show("1e10"), "10000000000.0");
    assert_eq!(show("1E10"), "10000000000.0");
    assert_eq!(show("-0.0"), "-0.0");
    assert_eq!(show("-1.0"), "-1.0");
    assert_eq!(show("-1e10"), "-10000000000.0");
    assert_eq!(show("\"\""), "");
    assert_eq!(show("\"string\""), "string");
    assert_eq!(show("[]"), "[]");
    assert_eq!(show("[ ]"), "[]");
    assert_eq!(show("[1]"), "[1]");
    assert_eq!(show("[null, \"a\", 1, 1.0, k, \"string\"]"), "[,a,1,1.0,v,string]");
    assert_eq!(show("{}"), "{}");
    assert_eq!(show("{ }"), "{}");
    assert_eq!(show("{a: null}"), "{a:}");
    assert_eq!(
        show("{string: \"string\", integer: 1, \" spaceee \": \"space!\", a: \"b\", c: 1, d: null, e: 0.1}"),
        "{\" spaceee \":space!,a:b,c:1,d:,e:0.1,integer:1,string:string}"
    );
    assert_eq!(show("nullable"), "");
    assert_eq!(show("k"), "v");
}

#[test]
fn functions_take_arguments() {
    assert_eq!(rendered("{{ \"hello world\" | substring(1, 5) }}", "{}"), Ok("ello".to_string()));
    assert_eq!(rendered("{{ \"a b\" | split(\" \") | reverse | first | upperCase }}", "{}"), Ok("B".to_string()));
    assert_eq!(rendered("{{ missing | default(other | upperCase) }}", "{\"other\": \"x\"}"), Ok("X".to_string()));
    assert_eq!(rendered("{{x|default(\"d\")}}", "{}"), Ok("d".to_string()));
    assert_eq!(rendered("{{ \"ENV_TEST\" | environment }}", "{}"), Ok("env_test".to_string()));
    assert_eq!(rendered("{{ {a: 1, b: {c: [1, 2]}} | toJson }}", "{}"), Ok("{\"a\":1,\"b\":{\"c\":[1,2]}}".to_string()));
    assert_eq!(rendered("{{ 1 | alternate([\"one\", \"two\"]) }}", "{}"), Ok("two".to_string()));
}

#[test]
fn if_else() {
    let template = "{% if a %}\nif\n{% elif b %}\nelif\n{% else %}\nelse\n{% end %}\n";
    assert_eq!(rendered(template, "{\"a\": true, \"b\": true}"), Ok("\nif\n\n".to_string()));
    assert_eq!(rendered(template, "{\"a\": false, \"b\": true}"), Ok("\nelif\n\n".to_string()));
    assert_eq!(rendered(template, "{}"), Ok("\nelse\n\n".to_string()));
    let unless = "{% unless a %}not a{% end %}";
    assert_eq!(rendered(unless, "{}"), Ok("not a".to_string()));
    assert_eq!(rendered(unless, "{\"a\": 1}"), Ok(String::new()));
    let indented = "start\n    {% if a %}\n    indented content\n    {% end %}\nend\n";
    assert_eq!(rendered(indented, "{\"a\": 1}"), Ok("start\n\n    indented content\n\nend\n".to_string()));
    let nonempty = "{% if a | length %}nonempty{% else %}empty{% end %}";
    assert_eq!(rendered(nonempty, "{\"a\": [1]}"), Ok("nonempty".to_string()));
    assert_eq!(rendered(nonempty, "{\"a\": []}"), Ok("empty".to_string()));
    assert_eq!(rendered(nonempty, "{\"a\": 5}"), Ok("empty".to_string()));
}

#[test]
fn iteration() {
    let template = "{% for item in items %}\nloop start\n{{ outer }}\nvalue {{ item.value }}\n{% for nested in item.nested %}\nnested value {{ nested }}\n{% end %}\nloop end{% end %}\n";
    let configuration = "{\"outer\": \"outer\", \"items\": [{\"value\": 1, \"nested\": [1]}, {\"value\": 2, \"nested\": [2]}]}";
    assert_eq!(
        rendered(template, configuration),
        Ok("\nloop start\nouter\nvalue 1\n\nnested value 1\n\nloop end\nloop start\nouter\nvalue 2\n\nnested value 2\n\nloop end\n".to_string())
    );
    let otherwise = "{% for x in items %}{{ x }}{% else %}nothing{% end %}";
    assert_eq!(rendered(otherwise, "{\"items\": \"text\"}"), Ok("nothing".to_string()));
    assert_eq!(rendered(otherwise, "{}"), Ok("nothing".to_string()));
    assert_eq!(rendered(otherwise, "{\"items\": []}"), Ok("nothing".to_string()));
    assert_eq!(rendered(otherwise, "{\"items\": [1, 2]}"), Ok("12".to_string()));
}

#[test]
fn a_failing_iterable_fails_the_template() {
    assert_eq!(
        rendered("{% for x in items | doesNotExist %}{{ x }}{% end %}", "{}"),
        Err(TemplateRenderError::UnknownFunctionError("doesNotExist".to_string()))
    );
}

#[test]
fn the_tree_of_a_template() {
    let tree = TemplateParser::parse("a{{ b.c | d(1) }}{# e #}{% if f %}g{% elif h %}{% else %}i{% end %}").unwrap();
    assert_eq!(tree.nodes.len(), 4);
    assert!(matches!(&tree.nodes[0], Node::Text(text) if text == "a"));
    match &tree.nodes[1] {
        Node::Expression(expression) => {
            assert!(matches!(&expression.head, Head::Properties(names) if names == &vec!["b".to_string(), "c".to_string()]));
            assert_eq!(expression.calls.len(), 1);
            assert_eq!(expression.calls[0].name, "d");
            assert_eq!(expression.calls[0].arguments.len(), 1);
            assert!(matches!(
                &expression.calls[0].arguments[0].head,
                Head::Literal(Literal::Integer(text)) if text == "1"
            ));
        }
        other => panic!("no expression: {:?}", other),
    }
    assert!(matches!(&tree.nodes[2], Node::Comment));
    match &tree.nodes[3] {
        Node::Conditional(branches) => {
            assert_eq!(branches.len(), 3);
            assert!(matches!(&branches[0].test, Test::If(_)));
            assert!(matches!(&branches[1].test, Test::Elif(_)));
            assert!(matches!(&branches[2].test, Test::Else));
            assert_eq!(branches[0].body.len(), 1);
            assert_eq!(branches[1].body.len(), 0);
        }
        other => panic!("no conditional: {:?}", other),
    }
}

#[test]
fn text_with_single_braces_is_text() {
    assert_eq!(rendered("{ a } {x{ }} %} #}", "{}"), Ok("{ a } {x{ }} %} #}".to_string()));
}

#[test]
fn invalid_template() {
    assert_eq!(fault("{% %}"), ParseError { position: 3, expected: Expected::Keyword });
    assert_eq!(fault("{%"), ParseError { position: 2, expected: Expected::Keyword });
    assert_eq!(fault("{% while x %}"), ParseError { position: 3, expected: Expected::Keyword });
    assert_eq!(fault("{% if %}"), ParseError { position: 6, expected: Expected::Expression });
    assert_eq!(fault("{% if a }}"), ParseError { position: 8, expected: Expected::ClosingTag });
    assert_eq!(fault("{% if a %}x"), ParseError { position: 11, expected: Expected::End });
    assert_eq!(fault("{% if a %}{% else %}{% elif b %}{% end %}"), ParseError { position: 23, expected: Expected::End });
    assert_eq!(fault("{% end %}"), ParseError { position: 3, expected: Expected::Keyword });
    assert_eq!(fault("a{% else %}"), ParseError { position: 4, expected: Expected::Keyword });
    assert_eq!(fault("{% for %}"), ParseError { position: 7, expected: Expected::Identifier });
    assert_eq!(fault("{% for x of y %}"), ParseError { position: 9, expected: Expected::In });
    assert_eq!(fault("{% for x in y %}{% elif a %}{% end %}"), ParseError { position: 19, expected: Expected::End });
    assert_eq!(fault("{{ }}"), ParseError { position: 3, expected: Expected::Expression });
    assert_eq!(fault("{{ a"), ParseError { position: 4, expected: Expected::ClosingExpression });
    assert_eq!(fault("{{ a b }}"), ParseError { position: 5, expected: Expected::ClosingExpression });
    assert_eq!(fault("{{ a. }}"), ParseError { position: 5, expected: Expected::Identifier });
    assert_eq!(fault("{{ a | }}"), ParseError { position: 7, expected: Expected::Identifier });
    assert_eq!(fault("{{ a | f(1 }}"), ParseError { position: 11, expected: Expected::ClosingParenthesis });
    assert_eq!(fault("{{ [1 2] }}"), ParseError { position: 6, expected: Expected::ClosingBracket });
    assert_eq!(fault("{{ {a 1} }}"), ParseError { position: 6, expected: Expected::Colon });
    assert_eq!(fault("{{ {1: 1} }}"), ParseError { position: 4, expected: Expected::Key });
    assert_eq!(fault("{{ {a: 1 b: 2} }}"), ParseError { position: 9, expected: Expected::ClosingBrace });
    assert_eq!(fault("{{ \"abc }}"), ParseError { position: 10, expected: Expected::ClosingQuote });
    assert_eq!(fault("{{ - }}"), ParseError { position: 4, expected: Expected::Digit });
    assert_eq!(fault("{# never closed"), ParseError { position: 15, expected: Expected::ClosingComment });
    assert_eq!(
        fault("{% %}").message(),
        "expected 'if', 'unless' or 'for' at character 3"
    );
}

#[test]
fn trim_and_unique_are_idempotent() {
    assert_eq!(
        rendered("[{{ s | trim | trim }}][{{ s | trim }}]", "{\"s\": \"  a b \\n\"}"),
        Ok("[a b][a b]".to_string())
    );
    assert_eq!(
        rendered("{{ a | unique | unique }}{{ a | unique }}", "{\"a\": [2, 1, 2, 1, 3]}"),
        Ok("[2,1,3][2,1,3]".to_string())
    );
}

#[test]
fn a_long_template_is_read() {
    let mut template = String::new();
    for _ in 0..20_000 {
        template.push_str("a{{ b }}");
    }
    let text = rendered(&template, "{\"b\": 1}").unwrap();
    assert_eq!(text.len(), 40_000);
}
