use template_cli::data::{Data, Number};
use template_cli::error::TemplateRenderError;
use template_cli::evaluate::{evaluate_file, evaluate_template, parse_expression};
use template_cli::function::{apply_function, Host};
use template_cli::moment::Moment;
use template_cli::template::{Branch, Call, Entry, Expression, Head, Literal, Loop, Node, Template, Test};

fn quiet() -> Host {
    Host { variables: vec![], now: Moment { seconds: 0, nanoseconds: 0, offset: 0 } }
}

fn config(source: &str) -> Data {
    apply_function(&Data::String(source.to_string()), "fromJson", &vec![], &quiet()).unwrap()
}

fn path(names: &[&str]) -> Expression {
    Expression { head: Head::Properties(names.iter().map(|n| n.to_string()).collect()), calls: vec![] }
}

fn piped(mut expression: Expression, name: &str, arguments: Vec<Expression>) -> Expression {
    expression.calls.push(Call { name: name.to_string(), arguments });
    expression
}

fn literal(literal: Literal) -> Expression {
    Expression { head: Head::Literal(literal), calls: vec![] }
}

fn plain(content: &str) -> Node {
    Node::Text(content.to_string())
}

fn render(nodes: Vec<Node>, source: &str) -> Result<String, TemplateRenderError> {
    evaluate_file(&config(source), &Template { nodes }, &quiet())
}

fn if_else(condition: Expression) -> Vec<Node> {
    vec![Node::Conditional(vec![
        Branch { test: Test::If(condition), body: vec![plain("true")] },
        Branch { test: Test::Else, body: vec![plain("false")] },
    ])]
}

#[test]
fn a_condition_picks_its_branch() {
    assert_eq!(render(if_else(path(&["a"])), "{\"a\": true}"), Ok("true".to_string()));
    assert_eq!(render(if_else(path(&["a"])), "{\"a\": false}"), Ok("false".to_string()));
    assert_eq!(render(if_else(path(&["a"])), "{}"), Ok("false".to_string()));
}

#[test]
fn a_failing_condition_counts_as_false() {
    let condition = piped(path(&["a"]), "upperCase", vec![]);
    assert_eq!(render(if_else(condition), "{\"a\": 1}"), Ok("false".to_string()));
    let unknown = piped(path(&["a"]), "doesNotExist", vec![]);
    assert_eq!(render(if_else(unknown), "{\"a\": 1}"), Ok("false".to_string()));
}

#[test]
fn unless_inverts_the_condition() {
    let nodes = |name: &str| {
        vec![Node::Conditional(vec![
            Branch { test: Test::Unless(path(&[name])), body: vec![plain("no")] },
            Branch { test: Test::Elif(path(&["b"])), body: vec![plain("b")] },
            Branch { test: Test::Else, body: vec![plain("else")] },
        ])]
    };
    assert_eq!(render(nodes("a"), "{\"a\": false, \"b\": true}"), Ok("no".to_string()));
    assert_eq!(render(nodes("a"), "{\"a\": true, \"b\": true}"), Ok("b".to_string()));
    assert_eq!(render(nodes("a"), "{\"a\": true, \"b\": false}"), Ok("else".to_string()));
}

#[test]
fn an_expression_runs_through_its_functions() {
    let nodes = vec![
        plain("Hello "),
        Node::Expression(piped(path(&["name"]), "upperCase", vec![])),
        plain("!"),
    ];
    assert_eq!(render(nodes, "{\"name\": \"world\"}"), Ok("Hello WORLD!".to_string()));
}

#[test]
fn a_loop_binds_each_item() {
    let nodes = vec![Node::Loop(Loop {
        variable: "x".to_string(),
        iterable: path(&["items"]),
        body: vec![Node::Expression(path(&["x"])), plain(",")],
        otherwise: None,
    })];
    assert_eq!(render(nodes, "{\"items\": [1,2,3]}"), Ok("1,2,3,".to_string()));
}

#[test]
fn a_loop_without_items_takes_its_else_part() {
    let nodes = |otherwise: Option<Vec<Node>>| {
        vec![
            plain("<"),
            Node::Loop(Loop {
                variable: "x".to_string(),
                iterable: path(&["items"]),
                body: vec![plain("item")],
                otherwise,
            }),
            plain(">"),
        ]
    };
    let none = || Some(vec![plain("none  ")]);
    assert_eq!(render(nodes(none()), "{\"items\": \"text\"}"), Ok("<none>".to_string()));
    assert_eq!(render(nodes(none()), "{}"), Ok("<none>".to_string()));
    assert_eq!(render(nodes(none()), "{\"items\": []}"), Ok("<none>".to_string()));
    assert_eq!(render(nodes(none()), "{\"items\": {\"a\": 1}}"), Ok("<none>".to_string()));
    assert_eq!(render(nodes(None), "{\"items\": 7}"), Ok("<>".to_string()));
    assert_eq!(render(nodes(none()), "{\"items\": [1, 2]}"), Ok("<itemitem>".to_string()));
}

#[test]
fn a_loop_keeps_the_outer_context() {
    let nodes = vec![Node::Loop(Loop {
        variable: "item".to_string(),
        iterable: path(&["items"]),
        body: vec![
            Node::Expression(path(&["outer"])),
            plain("="),
            Node::Expression(path(&["item", "value"])),
            plain(";"),
        ],
        otherwise: None,
    })];
    assert_eq!(
        render(nodes, "{\"outer\": \"o\", \"items\": [{\"value\": 1}, {\"value\": 2}]}"),
        Ok("o=1;o=2;".to_string())
    );
}

#[test]
fn a_loop_in_a_context_that_is_no_object_sees_the_item_alone() {
    let nodes = vec![Node::Loop(Loop {
        variable: "x".to_string(),
        iterable: literal(Literal::Array(vec![
            literal(Literal::Dictionary(vec![Entry { key: "x".to_string(), value: literal(Literal::Integer("1".to_string())) }])),
        ])),
        body: vec![Node::Expression(path(&["x"]))],
        otherwise: None,
    })];
    let text = evaluate_file(&Data::Null, &Template { nodes }, &quiet());
    assert_eq!(text, Ok("1".to_string()));
}

#[test]
fn an_unknown_function_fails_the_whole_template() {
    let nodes = vec![
        plain("before "),
        Node::Expression(piped(path(&["value"]), "doesNotExist", vec![])),
        plain(" after"),
    ];
    assert_eq!(
        render(nodes, "{}"),
        Err(TemplateRenderError::UnknownFunctionError("doesNotExist".to_string()))
    );
}

#[test]
fn a_failure_in_a_branch_that_is_not_taken_fails_the_template() {
    let nodes = vec![Node::Conditional(vec![
        Branch { test: Test::If(path(&["a"])), body: vec![Node::Expression(piped(path(&["a"]), "upperCase", vec![]))] },
        Branch { test: Test::Else, body: vec![plain("else")] },
    ])];
    assert_eq!(render(nodes, "{}"), Err(TemplateRenderError::TypeError("null".to_string())));
}

#[test]
fn a_missing_path_is_null() {
    let value = parse_expression(&config("{}"), &path(&["a", "b", "c"]), &quiet());
    assert_eq!(value, Ok(Data::Null));
    let nodes = vec![plain("!"), Node::Expression(path(&["a", "b", "c"])), plain("!")];
    assert_eq!(render(nodes, "{}"), Ok("!!".to_string()));
    let through = parse_expression(&config("{\"a\": [1]}"), &path(&["a", "b"]), &quiet());
    assert_eq!(through, Ok(Data::Null));
}

#[test]
fn blocks_swallow_the_blanks_before_them() {
    let nodes = vec![
        plain("a \t"),
        Node::Conditional(vec![Branch { test: Test::If(path(&["yes"])), body: vec![plain(" b \t")] }]),
        plain(" c"),
    ];
    assert_eq!(render(nodes, "{\"yes\": true}"), Ok("a b c".to_string()));
    let lines = vec![
        plain("a\n  "),
        Node::Conditional(vec![Branch { test: Test::If(path(&["yes"])), body: vec![plain("\n    b\n  ")] }]),
        plain("\nc"),
    ];
    assert_eq!(render(lines, "{\"yes\": true}"), Ok("a\n\n    b\n\nc".to_string()));
}

#[test]
fn expressions_and_comments_swallow_nothing() {
    let nodes = vec![plain("a  "), Node::Expression(path(&["x"])), plain("  "), Node::Comment, plain("b")];
    assert_eq!(render(nodes, "{\"x\": 1}"), Ok("a  1  b".to_string()));
}

#[test]
fn the_rounds_of_a_loop_keep_their_own_blanks() {
    let nodes = vec![
        plain("x  "),
        Node::Loop(Loop {
            variable: "i".to_string(),
            iterable: path(&["items"]),
            body: vec![plain(" "), Node::Expression(path(&["i"])), plain("  ")],
            otherwise: None,
        }),
        plain("."),
    ];
    assert_eq!(render(nodes, "{\"items\": [1, 2]}"), Ok("x 1   2  .".to_string()));
}

#[test]
fn a_nested_block_swallows_the_blanks_of_its_round_alone() {
    let inner = Node::Conditional(vec![Branch { test: Test::If(path(&["i"])), body: vec![plain("y")] }]);
    let nodes = vec![Node::Loop(Loop {
        variable: "i".to_string(),
        iterable: path(&["items"]),
        body: vec![plain("[  "), inner, plain("  ]  ")],
        otherwise: None,
    })];
    assert_eq!(render(nodes, "{\"items\": [0, 1]}"), Ok("[  ]  [y  ]  ".to_string()));
}

#[test]
fn a_block_reports_that_it_swallows() {
    let block = Node::Conditional(vec![Branch { test: Test::If(path(&["a"])), body: vec![plain("x ")] }]);
    assert_eq!(evaluate_template(&config("{\"a\": 1}"), &block, &quiet()), Ok(("x".to_string(), true)));
    let expression = Node::Expression(path(&["a"]));
    assert_eq!(evaluate_template(&config("{\"a\": 1}"), &expression, &quiet()), Ok(("1".to_string(), false)));
    assert_eq!(evaluate_template(&Data::Null, &Node::Comment, &quiet()), Ok((String::new(), false)));
}

#[test]
fn literals_have_their_values() {
    let value = |l: Literal| parse_expression(&config("{\"k\": 5}"), &literal(l), &quiet());
    assert_eq!(value(Literal::Null), Ok(Data::Null));
    assert_eq!(value(Literal::Boolean("true".to_string())), Ok(Data::Bool(true)));
    assert_eq!(value(Literal::Boolean("false".to_string())), Ok(Data::Bool(false)));
    assert_eq!(
        value(Literal::Boolean("yes".to_string())),
        Err(TemplateRenderError::LiteralParseError("yes".to_string()))
    );
    assert_eq!(value(Literal::Integer("-100".to_string())), Ok(Data::Number(Number::Signed(-100))));
    assert_eq!(value(Literal::Integer("+7".to_string())), Ok(Data::Number(Number::Signed(7))));
    assert_eq!(
        value(Literal::Integer("9223372036854775807".to_string())),
        Ok(Data::Number(Number::Signed(i64::MAX)))
    );
    assert_eq!(
        value(Literal::Integer("-9223372036854775808".to_string())),
        Ok(Data::Number(Number::Signed(i64::MIN)))
    );
    for wrong in ["9223372036854775808", "-9223372036854775809", "", "-", "1x", "99999999999999999999999"] {
        assert_eq!(
            value(Literal::Integer(wrong.to_string())),
            Err(TemplateRenderError::LiteralParseError(wrong.to_string()))
        );
    }
    assert_eq!(value(Literal::Float("1e10".to_string())), Ok(Data::Number(Number::Float("10000000000.0".to_string()))));
    assert_eq!(value(Literal::Float("-0.0".to_string())), Ok(Data::Number(Number::Float("-0.0".to_string()))));
    assert_eq!(
        value(Literal::Float("1.x".to_string())),
        Err(TemplateRenderError::LiteralParseError("1.x".to_string()))
    );
    assert_eq!(value(Literal::Text("\"string\"".to_string())), Ok(Data::String("string".to_string())));
    assert_eq!(value(Literal::Text("\"\"".to_string())), Ok(Data::String(String::new())));
    let items = Literal::Array(vec![literal(Literal::Null), path(&["k"]), literal(Literal::Text("\"a\"".to_string()))]);
    assert_eq!(value(items), Ok(config("[null, 5, \"a\"]")));
    let entries = Literal::Dictionary(vec![
        Entry { key: "b".to_string(), value: path(&["k"]) },
        Entry { key: "a".to_string(), value: literal(Literal::Integer("1".to_string())) },
        Entry { key: "b".to_string(), value: literal(Literal::Null) },
    ]);
    assert_eq!(value(entries), Ok(config("{\"a\": 1, \"b\": null}")));
}

#[test]
fn arguments_see_the_outer_context() {
    let expression = piped(path(&["missing"]), "default", vec![piped(path(&["name"]), "upperCase", vec![])]);
    assert_eq!(
        parse_expression(&config("{\"name\": \"n\"}"), &expression, &quiet()),
        Ok(Data::String("N".to_string()))
    );
}
