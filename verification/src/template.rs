use vstd::prelude::*;

verus! {

/// A literal in an expression, as it stands in the template.
#[derive(Debug)]
pub enum Literal {
    /// `null`.
    Null,
    /// The text of a boolean.
    Boolean(String),
    /// The text of an integer.
    Integer(String),
    /// The text of a floating-point number.
    Float(String),
    /// The text of a string, with the quotes around it.
    Text(String),
    /// The expressions of the items of an array.
    Array(Vec<Expression>),
    /// The entries of a dictionary.
    Dictionary(Vec<Entry>),
}

/// An entry of a dictionary literal: the text of its key and the expression
/// of its value.
#[derive(Debug)]
pub struct Entry {
    pub key: String,
    pub value: Expression,
}

/// What an expression starts from.
#[derive(Debug)]
pub enum Head {
    /// The names of a path into the context, from the outside in.
    Properties(Vec<String>),
    /// A literal.
    Literal(Literal),
}

/// A call of a function of the library on the value before it.
#[derive(Debug)]
pub struct Call {
    pub name: String,
    pub arguments: Vec<Expression>,
}

/// An expression: a head and the calls that its value runs through, in
/// order.
#[derive(Debug)]
pub struct Expression {
    pub head: Head,
    pub calls: Vec<Call>,
}

/// What opens a branch of a conditional block.
#[derive(Debug)]
pub enum Test {
    /// Taken if the expression counts as true.
    If(Expression),
    /// Taken if the expression counts as false.
    Unless(Expression),
    /// Taken if no branch before it was and the expression counts as true.
    Elif(Expression),
    /// Taken if no branch before it was.
    Else,
}

/// A branch of a conditional block: what opens it and what it holds.
#[derive(Debug)]
pub struct Branch {
    pub test: Test,
    pub body: Vec<Node>,
}

/// A loop block: the name that each item goes by, the expression of what is
/// walked, what is rendered for each item, and what is rendered if there is
/// no item.
#[derive(Debug)]
pub struct Loop {
    pub variable: String,
    pub iterable: Expression,
    pub body: Vec<Node>,
    pub otherwise: Option<Vec<Node>>,
}

/// A node of a template.
#[derive(Debug)]
pub enum Node {
    /// Text that goes to the output as it is.
    Text(String),
    /// An expression whose value goes to the output.
    Expression(Expression),
    /// The branches of a conditional block, in order.
    Conditional(Vec<Branch>),
    /// A loop block.
    Loop(Loop),
    /// A comment.
    Comment,
}

/// A template: its nodes, in order.
#[derive(Debug)]
pub struct Template {
    pub nodes: Vec<Node>,
}

/// The mathematical content of a [`Literal`].
pub enum LiteralView {
    Null,
    Boolean(Seq<char>),
    Integer(Seq<char>),
    Float(Seq<char>),
    Text(Seq<char>),
    Array(Seq<ExpressionView>),
    Dictionary(Seq<EntryView>),
}

/// The mathematical content of an [`Entry`].
pub struct EntryView {
    pub key: Seq<char>,
    pub value: ExpressionView,
}

/// The mathematical content of a [`Head`].
pub enum HeadView {
    Properties(Seq<Seq<char>>),
    Literal(LiteralView),
}

/// The mathematical content of a [`Call`].
pub struct CallView {
    pub name: Seq<char>,
    pub arguments: Seq<ExpressionView>,
}

/// The mathematical content of an [`Expression`].
pub struct ExpressionView {
    pub head: HeadView,
    pub calls: Seq<CallView>,
}

/// The mathematical content of a [`Test`].
pub enum TestView {
    If(ExpressionView),
    Unless(ExpressionView),
    Elif(ExpressionView),
    Else,
}

/// The mathematical content of a [`Branch`].
pub struct BranchView {
    pub test: TestView,
    pub body: Seq<NodeView>,
}

/// The mathematical content of a [`Loop`].
pub struct LoopView {
    pub variable: Seq<char>,
    pub iterable: ExpressionView,
    pub body: Seq<NodeView>,
    pub otherwise: Option<Seq<NodeView>>,
}

/// The mathematical content of a [`Node`].
pub enum NodeView {
    Text(Seq<char>),
    Expression(ExpressionView),
    Conditional(Seq<BranchView>),
    Loop(LoopView),
    Comment,
}

/// The mathematical content of a [`Template`].
pub struct TemplateView {
    pub nodes: Seq<NodeView>,
}

/// The texts of some strings, one for one.
pub open spec fn names_view(names: Seq<String>) -> Seq<Seq<char>> {
    Seq::new(names.len(), |i: int| names[i]@)
}

/// The contents of some expressions, one for one.
pub open spec fn expressions_view(items: Seq<Expression>) -> Seq<ExpressionView>
    decreases items,
{
    Seq::new(
        items.len(),
        |i: int|
            if 0 <= i < items.len() {
                expression_view(items[i])
            } else {
                ExpressionView { head: HeadView::Literal(LiteralView::Null), calls: Seq::empty() }
            },
    )
}

/// The contents of some entries, one for one.
pub open spec fn entries_view(entries: Seq<Entry>) -> Seq<EntryView>
    decreases entries,
{
    Seq::new(
        entries.len(),
        |i: int|
            if 0 <= i < entries.len() {
                EntryView { key: entries[i].key@, value: expression_view(entries[i].value) }
            } else {
                EntryView {
                    key: Seq::empty(),
                    value: ExpressionView {
                        head: HeadView::Literal(LiteralView::Null),
                        calls: Seq::empty(),
                    },
                }
            },
    )
}

/// The contents of some calls, one for one.
pub open spec fn calls_view(calls: Seq<Call>) -> Seq<CallView>
    decreases calls,
{
    Seq::new(
        calls.len(),
        |i: int|
            if 0 <= i < calls.len() {
                CallView { name: calls[i].name@, arguments: expressions_view(calls[i].arguments@) }
            } else {
                CallView { name: Seq::empty(), arguments: Seq::empty() }
            },
    )
}

/// The content of a literal.
pub open spec fn literal_view(literal: Literal) -> LiteralView
    decreases literal,
{
    match literal {
        Literal::Null => LiteralView::Null,
        Literal::Boolean(text) => LiteralView::Boolean(text@),
        Literal::Integer(text) => LiteralView::Integer(text@),
        Literal::Float(text) => LiteralView::Float(text@),
        Literal::Text(text) => LiteralView::Text(text@),
        Literal::Array(items) => LiteralView::Array(expressions_view(items@)),
        Literal::Dictionary(entries) => LiteralView::Dictionary(entries_view(entries@)),
    }
}

/// The content of the head of an expression.
pub open spec fn head_view(head: Head) -> HeadView
    decreases head,
{
    match head {
        Head::Properties(names) => HeadView::Properties(names_view(names@)),
        Head::Literal(literal) => HeadView::Literal(literal_view(literal)),
    }
}

/// The content of an expression.
pub open spec fn expression_view(expression: Expression) -> ExpressionView
    decreases expression,
{
    ExpressionView { head: head_view(expression.head), calls: calls_view(expression.calls@) }
}

/// The content of what opens a branch.
pub open spec fn test_view(test: Test) -> TestView {
    match test {
        Test::If(condition) => TestView::If(expression_view(condition)),
        Test::Unless(condition) => TestView::Unless(expression_view(condition)),
        Test::Elif(condition) => TestView::Elif(expression_view(condition)),
        Test::Else => TestView::Else,
    }
}

/// The contents of some nodes, one for one.
pub open spec fn nodes_view(nodes: Seq<Node>) -> Seq<NodeView>
    decreases nodes,
{
    Seq::new(
        nodes.len(),
        |i: int| if 0 <= i < nodes.len() { node_view(nodes[i]) } else { NodeView::Comment },
    )
}

/// The contents of some branches, one for one.
pub open spec fn branches_view(branches: Seq<Branch>) -> Seq<BranchView>
    decreases branches,
{
    Seq::new(
        branches.len(),
        |i: int|
            if 0 <= i < branches.len() {
                BranchView { test: test_view(branches[i].test), body: nodes_view(branches[i].body@) }
            } else {
                BranchView { test: TestView::Else, body: Seq::empty() }
            },
    )
}

/// The content of a node.
pub open spec fn node_view(node: Node) -> NodeView
    decreases node,
{
    match node {
        Node::Text(text) => NodeView::Text(text@),
        Node::Expression(expression) => NodeView::Expression(expression_view(expression)),
        Node::Conditional(branches) => NodeView::Conditional(branches_view(branches@)),
        Node::Loop(block) => NodeView::Loop(
            LoopView {
                variable: block.variable@,
                iterable: expression_view(block.iterable),
                body: nodes_view(block.body@),
                otherwise: match block.otherwise {
                    Some(nodes) => Some(nodes_view(nodes@)),
                    None => None,
                },
            },
        ),
        Node::Comment => NodeView::Comment,
    }
}

impl View for Expression {
    type V = ExpressionView;

    open spec fn view(&self) -> ExpressionView {
        expression_view(*self)
    }
}

impl View for Node {
    type V = NodeView;

    open spec fn view(&self) -> NodeView {
        node_view(*self)
    }
}

impl View for Template {
    type V = TemplateView;

    open spec fn view(&self) -> TemplateView {
        TemplateView { nodes: nodes_view(self.nodes@) }
    }
}

} // verus!
