use vstd::prelude::*;
pub use crate::parser::{parse_template, TemplateParser};
use crate::data::{
    insert_member, lemma_array_view, lemma_object_view, member_views, property, views,
    well_formed, with_member, Data, DataView, Member, MemberView, Number, NumberView,
};
use crate::decimal::{decimal, parse_i64, parsed_i64};
use crate::error::{Failure, TemplateRenderError};
use crate::function::{
    applied, apply_function, outcome, same_text, to_boolean, truthy, Host, HostView, Outcome,
};
use crate::json::{json_read, read_json, value_of};
use crate::list_functions::{array_data, object_data};
use crate::template::{
    branches_view, calls_view, entries_view, expression_view, expressions_view, 
    literal_view, names_view, node_view, nodes_view, test_view,  BranchView, 
    CallView,  EntryView, Expression, ExpressionView, Head, HeadView, Literal,
    LiteralView, Loop,  Node, NodeView, Template, TemplateView, Test, TestView,
};
use crate::order::{
    all_well_formed, keeps_order, lemma_property_well_formed, lemma_with_member_well_formed,
};
use crate::text::{drop_trailing_blanks, slice_chars, without_trailing_blanks};
use crate::search::{join_texts, joined, texts};
use crate::text::{chars_of, string_of};

verus! {

/// The text of a number: the decimal text of an integer, or the text that a
/// floating-point number is held as.
pub open spec fn number_text(n: NumberView) -> Seq<char> {
    match n {
        NumberView::Int(i) => decimal(i),
        NumberView::Float(text) => text,
    }
}

/// The texts of the items of an array, one for one.
pub open spec fn formatted_items(items: Seq<DataView>) -> Seq<Seq<char>>
    decreases items, 0int,
{
    Seq::new(
        items.len(),
        |i: int| if 0 <= i < items.len() { formatted(items[i]) } else { Seq::empty() },
    )
}

/// The texts of the members of an object, one for one: key, colon and the
/// text of the value.
pub open spec fn formatted_members(members: Seq<MemberView>) -> Seq<Seq<char>>
    decreases members, 0int,
{
    Seq::new(
        members.len(),
        |i: int|
            if 0 <= i < members.len() {
                members[i].key + seq![':'] + formatted(members[i].value)
            } else {
                Seq::empty()
            },
    )
}

/// The text that stands for a value in the output: nothing for null, `true`
/// or `false` for a boolean, the text of a number, a string as it is, the
/// items of an array between square brackets and the members of an object
/// between braces, with commas and no spaces between them.
pub open spec fn formatted(v: DataView) -> Seq<char>
    decreases v, 1int,
{
    match v {
        DataView::Null => Seq::empty(),
        DataView::Bool(b) => if b { "true"@ } else { "false"@ },
        DataView::Number(n) => number_text(n),
        DataView::String(s) => s,
        DataView::Array(items) => seq!['['] + joined(formatted_items(items), seq![',']) + seq![']'],
        DataView::Object(members) => seq!['{'] + joined(formatted_members(members), seq![','])
            + seq!['}'],
    }
}

/// The characters of the text of a number.
fn number_chars(n: &Number) -> (r: Vec<char>)
    ensures
        r@ == number_text(n@),
{
    match n {
        Number::Unsigned(u) => crate::decimal::decimal_of_u64(*u),
        Number::Signed(i) => crate::decimal::decimal_of_i64(*i),
        Number::Float(text) => chars_of(text.as_str()),
    }
}

/// The characters of [`formatted`].
pub fn format_chars(value: &Data) -> (r: Vec<char>)
    ensures
        r@ == formatted(value@),
    decreases value,
{
    match value {
        Data::Null => Vec::new(),
        Data::Bool(b) => if *b { chars_of("true") } else { chars_of("false") },
        Data::Number(n) => number_chars(n),
        Data::String(s) => chars_of(s.as_str()),
        Data::Array(items) => {
            let mut parts: Vec<Vec<char>> = Vec::new();
            let mut i: usize = 0;
            while i < items.len()
                invariant
                    *value == Data::Array(*items),
                    i <= items.len(),
                    parts@.len() == i,
                    forall|j: int| 0 <= j < i ==> (#[trigger] parts@[j])@ == formatted(items@[j]@),
                decreases items.len() - i,
            {
                proof {
                    assert(decreases_to!(*value => value->Array_0));
                    assert(decreases_to!(*items => items@));
                    assert(decreases_to!(items@ => items@[i as int]));
                }
                parts.push(format_chars(&items[i]));
                i += 1;
            }
            let mut comma: Vec<char> = Vec::new();
            comma.push(',');
            let mut r: Vec<char> = Vec::new();
            r.push('[');
            let mut inner = join_texts(&parts, &comma);
            r.append(&mut inner);
            r.push(']');
            proof {
                lemma_array_view(*items);
                let all = views(items@);
                let want = formatted_items(all);
                assert(texts(parts@) =~= want);
                assert(comma@ =~= seq![',']);
                assert(r@ =~= seq!['['] + joined(want, seq![',']) + seq![']']);
            }
            r
        },
        Data::Object(members) => {
            let mut parts: Vec<Vec<char>> = Vec::new();
            let mut i: usize = 0;
            while i < members.len()
                invariant
                    *value == Data::Object(*members),
                    i <= members.len(),
                    parts@.len() == i,
                    forall|j: int|
                        0 <= j < i ==> (#[trigger] parts@[j])@ == members@[j].key@ + seq![':']
                            + formatted(members@[j].value@),
                decreases members.len() - i,
            {
                proof {
                    assert(decreases_to!(*value => value->Object_0));
                    assert(decreases_to!(*members => members@));
                    assert(decreases_to!(members@ => members@[i as int]));
                    assert(decreases_to!(members@[i as int] => members@[i as int].value));
                }
                let mut part = chars_of(members[i].key.as_str());
                part.push(':');
                let mut text = format_chars(&members[i].value);
                part.append(&mut text);
                parts.push(part);
                i += 1;
            }
            let mut comma: Vec<char> = Vec::new();
            comma.push(',');
            let mut r: Vec<char> = Vec::new();
            r.push('{');
            let mut inner = join_texts(&parts, &comma);
            r.append(&mut inner);
            r.push('}');
            proof {
                lemma_object_view(*members);
                let all = member_views(members@);
                let want = formatted_members(all);
                assert(texts(parts@) =~= want);
                assert(comma@ =~= seq![',']);
                assert(r@ =~= seq!['{'] + joined(want, seq![',']) + seq!['}']);
            }
            r
        },
    }
}

/// The text that stands for a value in the output.
pub fn format_string(value: &Data) -> (r: String)
    ensures
        r@ == formatted(value@),
{
    string_of(&format_chars(value))
}

/// The failure that reports a literal that cannot be read.
pub open spec fn unreadable(text: Seq<char>) -> Outcome {
    Err(Failure::LiteralParse(text))
}

/// The value of the text of a boolean literal.
pub open spec fn boolean_literal(text: Seq<char>) -> Outcome {
    if text == "true"@ {
        Ok(DataView::Bool(true))
    } else if text == "false"@ {
        Ok(DataView::Bool(false))
    } else {
        unreadable(text)
    }
}

/// The value of the text of an integer literal.
pub open spec fn integer_literal(text: Seq<char>) -> Outcome {
    match parsed_i64(text) {
        Some(i) => Ok(DataView::Number(NumberView::Int(i))),
        None => unreadable(text),
    }
}

/// The value of the text of a floating-point literal: the number that it
/// reads as in JSON.
pub open spec fn float_literal(text: Seq<char>) -> Outcome {
    match json_read(text) {
        Ok(DataView::Number(n)) => Ok(DataView::Number(n)),
        _ => unreadable(text),
    }
}

/// The value of the text of a string literal: what stands between its
/// quotes.
pub open spec fn text_literal(text: Seq<char>) -> Outcome {
    if text.len() >= 2 {
        Ok(DataView::String(text.subrange(1, text.len() - 1)))
    } else {
        unreadable(text)
    }
}

/// What a path leads to from `context`: each name in turn picks the property
/// of that name of what the names before it led to.
pub open spec fn path_value(context: DataView, path: Seq<Seq<char>>) -> DataView
    decreases path.len(),
{
    if path.len() == 0 {
        context
    } else {
        property(path_value(context, path.drop_last()), path.last())
    }
}

/// The values of some expressions in `context`, in order; the first failure
/// if one of them fails.
pub open spec fn items_value(context: DataView, items: Seq<ExpressionView>, host: HostView) -> Result<
    Seq<DataView>,
    Failure,
>
    decreases items,
{
    if items.len() == 0 {
        Ok(Seq::empty())
    } else {
        match items_value(context, items.drop_last(), host) {
            Err(e) => Err(e),
            Ok(before) => match evaluated(context, items.last(), host) {
                Err(e) => Err(e),
                Ok(v) => Ok(before.push(v)),
            },
        }
    }
}

/// The members that the entries of a dictionary literal make in `context`,
/// put in one after the other; the first failure if one of the values fails.
pub open spec fn entries_value(context: DataView, entries: Seq<EntryView>, host: HostView) -> Result<
    Seq<MemberView>,
    Failure,
>
    decreases entries,
{
    if entries.len() == 0 {
        Ok(Seq::empty())
    } else {
        match entries_value(context, entries.drop_last(), host) {
            Err(e) => Err(e),
            Ok(before) => match evaluated(context, entries.last().value, host) {
                Err(e) => Err(e),
                Ok(v) => Ok(with_member(before, entries.last().key, v)),
            },
        }
    }
}

/// The value of a literal in `context`.
pub open spec fn literal_value(context: DataView, literal: LiteralView, host: HostView) -> Outcome
    decreases literal,
{
    match literal {
        LiteralView::Null => Ok(DataView::Null),
        LiteralView::Boolean(text) => boolean_literal(text),
        LiteralView::Integer(text) => integer_literal(text),
        LiteralView::Float(text) => float_literal(text),
        LiteralView::Text(text) => text_literal(text),
        LiteralView::Array(items) => match items_value(context, items, host) {
            Err(e) => Err(e),
            Ok(values) => Ok(DataView::Array(values)),
        },
        LiteralView::Dictionary(entries) => match entries_value(context, entries, host) {
            Err(e) => Err(e),
            Ok(members) => Ok(DataView::Object(members)),
        },
    }
}

/// What the value `start` becomes when it runs through some calls in order:
/// each call applies its function to what the calls before it returned, with
/// arguments that are evaluated in `context`. The first failure ends it.
pub open spec fn calls_value(
    context: DataView,
    start: DataView,
    calls: Seq<CallView>,
    host: HostView,
) -> Outcome
    decreases calls,
{
    if calls.len() == 0 {
        Ok(start)
    } else {
        match calls_value(context, start, calls.drop_last(), host) {
            Err(e) => Err(e),
            Ok(running) => match items_value(context, calls.last().arguments, host) {
                Err(e) => Err(e),
                Ok(arguments) => applied(running, calls.last().name, arguments, host),
            },
        }
    }
}

/// The value of an expression in `context`: what its head gives, a path
/// into the context or a literal, run through its calls.
pub open spec fn evaluated(context: DataView, expression: ExpressionView, host: HostView) -> Outcome
    decreases expression,
{
    let head = match expression.head {
        HeadView::Properties(path) => Ok(path_value(context, path)),
        HeadView::Literal(literal) => literal_value(context, literal, host),
    };
    match head {
        Err(e) => Err(e),
        Ok(start) => calls_value(context, start, expression.calls, host),
    }
}

/// The failure that reports a literal that cannot be read.
fn literal_error(text: &String) -> (r: Result<Data, TemplateRenderError>)
    ensures
        outcome(r) == unreadable(text@),
{
    Err(TemplateRenderError::LiteralParseError(text.clone()))
}

/// The values of some expressions in `value`, in order.
pub fn parse_expressions(value: &Data, items: &Vec<Expression>, host: &Host) -> (r: Result<
    Vec<Data>,
    TemplateRenderError,
>)
    ensures
        match r {
            Ok(values) => items_value(value@, expressions_view(items@), host@) == Ok::<
                Seq<DataView>,
                Failure,
            >(views(values@)),
            Err(e) => items_value(value@, expressions_view(items@), host@) == Err::<
                Seq<DataView>,
                Failure,
            >(e@),
        },
        well_formed(value@) ==> (r matches Ok(values) ==> all_well_formed(views(values@))),
    decreases items,
{
    let mut values: Vec<Data> = Vec::new();
    let mut i: usize = 0;
    let ghost all = expressions_view(items@);
    assert(all.take(0) =~= Seq::<ExpressionView>::empty());
    assert(views(values@) =~= Seq::<DataView>::empty());
    while i < items.len()
        invariant
            i <= items.len(),
            all == expressions_view(items@),
            items_value(value@, all.take(i as int), host@) == Ok::<Seq<DataView>, Failure>(
                views(values@),
            ),
            well_formed(value@) ==> all_well_formed(views(values@)),
        decreases items.len() - i,
    {
        proof {
            assert(all.take(i + 1).drop_last() =~= all.take(i as int));
            assert(all.take(i + 1).last() == expression_view(items@[i as int]));
            assert(decreases_to!(*items => items@));
            assert(decreases_to!(items@ => items@[i as int]));
        }
        match parse_expression(value, &items[i], host) {
            Ok(v) => {
                let ghost before = views(values@);
                values.push(v);
                assert(views(values@) =~= before.push(v@));
            },
            Err(e) => {
                proof {
                    lemma_items_value_fails(value@, all, host@, i + 1);
                }
                return Err(e);
            },
        }
        i += 1;
    }
    assert(all.take(items.len() as int) =~= all);
    Ok(values)
}

/// A failure among the first expressions is the failure of them all.
pub proof fn lemma_items_value_fails(
    context: DataView,
    items: Seq<ExpressionView>,
    host: HostView,
    k: int,
)
    requires
        0 <= k <= items.len(),
        items_value(context, items.take(k), host) is Err,
    ensures
        items_value(context, items, host) == items_value(context, items.take(k), host),
    decreases items.len() - k,
{
    if k == items.len() {
        assert(items.take(k) =~= items);
    } else {
        assert(items.drop_last().take(k) =~= items.take(k));
        lemma_items_value_fails(context, items.drop_last(), host, k);
    }
}

/// A failure among the first entries is the failure of them all.
pub proof fn lemma_entries_value_fails(
    context: DataView,
    entries: Seq<EntryView>,
    host: HostView,
    k: int,
)
    requires
        0 <= k <= entries.len(),
        entries_value(context, entries.take(k), host) is Err,
    ensures
        entries_value(context, entries, host) == entries_value(context, entries.take(k), host),
    decreases entries.len() - k,
{
    if k == entries.len() {
        assert(entries.take(k) =~= entries);
    } else {
        assert(entries.drop_last().take(k) =~= entries.take(k));
        lemma_entries_value_fails(context, entries.drop_last(), host, k);
    }
}

/// A failure among the first calls is the failure of them all.
pub proof fn lemma_calls_value_fails(
    context: DataView,
    start: DataView,
    calls: Seq<CallView>,
    host: HostView,
    k: int,
)
    requires
        0 <= k <= calls.len(),
        calls_value(context, start, calls.take(k), host) is Err,
    ensures
        calls_value(context, start, calls, host) == calls_value(context, start, calls.take(k), host),
    decreases calls.len() - k,
{
    if k == calls.len() {
        assert(calls.take(k) =~= calls);
    } else {
        assert(calls.drop_last().take(k) =~= calls.take(k));
        lemma_calls_value_fails(context, start, calls.drop_last(), host, k);
    }
}

/// The value of a literal in `value`.
pub fn parse_literal(value: &Data, literal: &Literal, host: &Host) -> (r: Result<
    Data,
    TemplateRenderError,
>)
    ensures
        outcome(r) == literal_value(value@, literal_view(*literal), host@),
        well_formed(value@) ==> keeps_order(outcome(r)),
    decreases literal,
{
    match literal {
        Literal::Null => Ok(Data::Null),
        Literal::Boolean(text) => {
            if same_text(text.as_str(), "true") {
                Ok(Data::Bool(true))
            } else if same_text(text.as_str(), "false") {
                Ok(Data::Bool(false))
            } else {
                literal_error(text)
            }
        },
        Literal::Integer(text) => match parse_i64(&chars_of(text.as_str())) {
            Some(i) => Ok(Data::Number(Number::Signed(i))),
            None => literal_error(text),
        },
        Literal::Float(text) => match read_json(text.as_str()) {
            Ok(document) => match value_of(&document) {
                Data::Number(n) => Ok(Data::Number(n)),
                _ => literal_error(text),
            },
            Err(_) => literal_error(text),
        },
        Literal::Text(text) => {
            let s = chars_of(text.as_str());
            if s.len() >= 2 {
                Ok(Data::String(string_of(&slice_chars(&s, 1, s.len() - 1))))
            } else {
                literal_error(text)
            }
        },
        Literal::Array(items) => {
            proof {
                assert(decreases_to!(*literal => literal->Array_0));
            }
            match parse_expressions(value, items, host) {
                Ok(values) => Ok(array_data(values)),
                Err(e) => Err(e),
            }
        },
        Literal::Dictionary(entries) => {
            let mut members: Vec<Member> = Vec::new();
            let mut i: usize = 0;
            let ghost all = entries_view(entries@);
            assert(all.take(0) =~= Seq::<EntryView>::empty());
            assert(member_views(members@) =~= Seq::<MemberView>::empty());
            while i < entries.len()
                invariant
                    *literal == Literal::Dictionary(*entries),
                    all == entries_view(entries@),
                    i <= entries.len(),
                    entries_value(value@, all.take(i as int), host@) == Ok::<
                        Seq<MemberView>,
                        Failure,
                    >(member_views(members@)),
                    well_formed(value@) ==> well_formed(DataView::Object(member_views(members@))),
                decreases entries.len() - i,
            {
                proof {
                    assert(all.take(i + 1).drop_last() =~= all.take(i as int));
                    assert(all.take(i + 1).last() == EntryView {
                        key: entries@[i as int].key@,
                        value: expression_view(entries@[i as int].value),
                    });
                    assert(decreases_to!(*literal => literal->Dictionary_0));
                    assert(decreases_to!(*entries => entries@));
                    assert(decreases_to!(entries@ => entries@[i as int]));
                    assert(decreases_to!(entries@[i as int] => entries@[i as int].value));
                }
                match parse_expression(value, &entries[i].value, host) {
                    Ok(v) => {
                        proof {
                            if well_formed(value@) {
                                lemma_with_member_well_formed(
                                    member_views(members@),
                                    entries@[i as int].key@,
                                    v@,
                                );
                            }
                        }
                        insert_member(&mut members, entries[i].key.clone(), v);
                    },
                    Err(e) => {
                        proof {
                            lemma_entries_value_fails(value@, all, host@, i + 1);
                        }
                        return Err(e);
                    },
                }
                i += 1;
            }
            assert(all.take(entries.len() as int) =~= all);
            Ok(object_data(members))
        },
    }
}

/// What a path leads to from `value`.
pub fn follow_path(value: &Data, path: &Vec<String>) -> (r: Data)
    ensures
        r@ == path_value(value@, names_view(path@)),
        well_formed(value@) ==> well_formed(r@),
{
    let mut current = value.duplicate();
    let mut i: usize = 0;
    let ghost all = names_view(path@);
    assert(all.take(0) =~= Seq::<Seq<char>>::empty());
    while i < path.len()
        invariant
            i <= path.len(),
            all == names_view(path@),
            current@ == path_value(value@, all.take(i as int)),
            well_formed(value@) ==> well_formed(current@),
        decreases path.len() - i,
    {
        proof {
            assert(all.take(i + 1).drop_last() =~= all.take(i as int));
            assert(all.take(i + 1).last() == path@[i as int]@);
            if well_formed(current@) {
                lemma_property_well_formed(current@, path@[i as int]@);
            }
        }
        current = current.property(path[i].as_str());
        i += 1;
    }
    assert(all.take(path.len() as int) =~= all);
    current
}

/// The value of an expression in `value`.
pub fn parse_expression(value: &Data, expression: &Expression, host: &Host) -> (r: Result<
    Data,
    TemplateRenderError,
>)
    ensures
        outcome(r) == evaluated(value@, expression_view(*expression), host@),
        well_formed(value@) ==> keeps_order(outcome(r)),
    decreases expression,
{
    let start = match &expression.head {
        Head::Properties(path) => follow_path(value, path),
        Head::Literal(literal) => {
            proof {
                assert(decreases_to!(*expression => expression.head));
                assert(decreases_to!(expression.head => expression.head->Literal_0));
            }
            match parse_literal(value, literal, host) {
                Ok(v) => v,
                Err(e) => { return Err(e); },
            }
        },
    };
    let calls = &expression.calls;
    let mut running = start;
    let mut i: usize = 0;
    let ghost all = calls_view(calls@);
    assert(all.take(0) =~= Seq::<CallView>::empty());
    while i < calls.len()
        invariant
            calls == &expression.calls,
            all == calls_view(calls@),
            evaluated(value@, expression_view(*expression), host@) == calls_value(
                value@,
                start@,
                all,
                host@,
            ),
            i <= calls.len(),
            calls_value(value@, start@, all.take(i as int), host@) == Ok::<DataView, Failure>(
                running@,
            ),
            well_formed(value@) ==> well_formed(running@),
        decreases calls.len() - i,
    {
        proof {
            assert(all.take(i + 1).drop_last() =~= all.take(i as int));
            assert(all.take(i + 1).last() == CallView {
                name: calls@[i as int].name@,
                arguments: expressions_view(calls@[i as int].arguments@),
            });
            assert(decreases_to!(*expression => expression.calls));
            assert(decreases_to!(*calls => calls@));
            assert(decreases_to!(calls@ => calls@[i as int]));
            assert(decreases_to!(calls@[i as int] => calls@[i as int].arguments));
        }
        let arguments = match parse_expressions(value, &calls[i].arguments, host) {
            Ok(a) => a,
            Err(e) => {
                proof {
                    lemma_calls_value_fails(value@, start@, all, host@, i + 1);
                }
                return Err(e);
            },
        };
        match apply_function(&running, calls[i].name.as_str(), &arguments, host) {
            Ok(v) => {
                running = v;
            },
            Err(e) => {
                proof {
                    lemma_calls_value_fails(value@, start@, all, host@, i + 1);
                }
                return Err(e);
            },
        }
        i += 1;
    }
    assert(all.take(calls.len() as int) =~= all);
    Ok(running)
}

/// What a node gives to the output: its text, and whether the spaces and
/// tabs that end the text before it are to go.
pub struct Piece {
    pub text: Seq<char>,
    pub gobble: bool,
}

/// How far a conditional block has come: its text so far, and whether a
/// branch was taken.
pub struct Progress {
    pub text: Seq<char>,
    pub done: bool,
}

/// Whether a condition holds in `context`: whether its value counts as true.
/// A condition that fails does not hold.
pub open spec fn holds_in(context: DataView, condition: ExpressionView, host: HostView) -> bool {
    match evaluated(context, condition, host) {
        Ok(v) => truthy(v),
        Err(_) => false,
    }
}

/// Whether a branch is taken, given whether one before it was.
pub open spec fn taken(test: TestView, done: bool, context: DataView, host: HostView) -> bool {
    match test {
        TestView::If(condition) => holds_in(context, condition, host),
        TestView::Unless(condition) => !holds_in(context, condition, host),
        TestView::Elif(condition) => !done && holds_in(context, condition, host),
        TestView::Else => !done,
    }
}

/// The context of one round of a loop: the outer context with the item
/// under the name of the loop variable if the outer context is an object,
/// else the item alone.
pub open spec fn with_binding(context: DataView, name: Seq<char>, item: DataView) -> DataView {
    match context {
        DataView::Object(members) => DataView::Object(with_member(members, name, item)),
        _ => item,
    }
}

/// The items that a loop walks: those of an array, none of any other value.
pub open spec fn walked(v: DataView) -> Seq<DataView> {
    match v {
        DataView::Array(items) => items,
        _ => Seq::empty(),
    }
}

/// The text of some nodes in order. Before the text of a node that asks for
/// it, the spaces and tabs that end the text so far go. The first failure
/// is the failure of all.
pub open spec fn rendered_nodes(context: DataView, nodes: Seq<NodeView>, host: HostView) -> Result<
    Seq<char>,
    Failure,
>
    decreases nodes, 0int,
{
    if nodes.len() == 0 {
        Ok(Seq::empty())
    } else {
        match rendered_nodes(context, nodes.drop_last(), host) {
            Err(e) => Err(e),
            Ok(before) => match rendered_node(context, nodes.last(), host) {
                Err(e) => Err(e),
                Ok(piece) => Ok(
                    (if piece.gobble { without_trailing_blanks(before) } else { before })
                        + piece.text,
                ),
            },
        }
    }
}

/// The text of the branches of a conditional block in order. Where a branch
/// opens, the spaces and tabs that end the text so far go; then the text of
/// its body follows if the branch is taken. The body of a branch that is not
/// taken is rendered all the same, so that a failure in it is the failure of
/// the block; its text goes nowhere.
pub open spec fn rendered_branches(
    context: DataView,
    branches: Seq<BranchView>,
    host: HostView,
) -> Result<
    Progress,
    Failure,
>
    decreases branches, 0int,
{
    if branches.len() == 0 {
        Ok(Progress { text: Seq::empty(), done: false })
    } else {
        match rendered_branches(context, branches.drop_last(), host) {
            Err(e) => Err(e),
            Ok(progress) => match rendered_nodes(context, branches.last().body, host) {
                Err(e) => Err(e),
                Ok(body) => {
                    let open = without_trailing_blanks(progress.text);
                    if taken(branches.last().test, progress.done, context, host) {
                        Ok(Progress { text: open + body, done: true })
                    } else {
                        Ok(Progress { text: open, done: progress.done })
                    }
                },
            },
        }
    }
}

/// The text of the rounds of a loop, one for each item in order: the body
/// rendered in the context of the round. Nothing of one round changes the
/// text of another.
pub open spec fn rendered_rounds(
    context: DataView,
    items: Seq<DataView>,
    name: Seq<char>,
    body: Seq<NodeView>,
    host: HostView,
) -> Result<Seq<char>, Failure>
    decreases body, items.len() + 1,
{
    if items.len() == 0 {
        Ok(Seq::empty())
    } else {
        match rendered_rounds(context, items.drop_last(), name, body, host) {
            Err(e) => Err(e),
            Ok(before) => match rendered_nodes(with_binding(context, name, items.last()), body, host) {
                Err(e) => Err(e),
                Ok(round) => Ok(before + round),
            },
        }
    }
}

/// What a node gives to the output.
///
/// Text goes out as it is, and so does the text of the value of an
/// expression; a comment gives nothing. A conditional block gives the text
/// of its branches without the spaces and tabs that end it. A loop over an
/// array that is not empty gives the text of its rounds; a loop over
/// anything else gives the text of its `else` part, if it has one, without
/// the spaces and tabs that end it. Both blocks ask that the spaces and tabs
/// before them go.
pub open spec fn rendered_node(context: DataView, node: NodeView, host: HostView) -> Result<
    Piece,
    Failure,
>
    decreases node, 0int,
{
    match node {
        NodeView::Text(text) => Ok(Piece { text, gobble: false }),
        NodeView::Comment => Ok(Piece { text: Seq::empty(), gobble: false }),
        NodeView::Expression(expression) => match evaluated(context, expression, host) {
            Err(e) => Err(e),
            Ok(v) => Ok(Piece { text: formatted(v), gobble: false }),
        },
        NodeView::Conditional(branches) => match rendered_branches(context, branches, host) {
            Err(e) => Err(e),
            Ok(progress) => Ok(
                Piece { text: without_trailing_blanks(progress.text), gobble: true },
            ),
        },
        NodeView::Loop(block) => match evaluated(context, block.iterable, host) {
            Err(e) => Err(e),
            Ok(v) => if walked(v).len() > 0 {
                match rendered_rounds(context, walked(v), block.variable, block.body, host) {
                    Err(e) => Err(e),
                    Ok(text) => Ok(Piece { text, gobble: true }),
                }
            } else {
                match block.otherwise {
                    Some(nodes) => match rendered_nodes(context, nodes, host) {
                        Err(e) => Err(e),
                        Ok(text) => Ok(Piece { text: without_trailing_blanks(text), gobble: true }),
                    },
                    None => Ok(Piece { text: Seq::empty(), gobble: true }),
                }
            },
        },
    }
}

/// The text of a template for a configuration.
pub open spec fn rendered(data: DataView, file: TemplateView, host: HostView) -> Result<
    Seq<char>,
    Failure,
> {
    rendered_nodes(data, file.nodes, host)
}

/// A failure among the first nodes is the failure of them all.
pub proof fn lemma_rendered_nodes_fails(
    context: DataView,
    nodes: Seq<NodeView>,
    host: HostView,
    k: int,
)
    requires
        0 <= k <= nodes.len(),
        rendered_nodes(context, nodes.take(k), host) is Err,
    ensures
        rendered_nodes(context, nodes, host) == rendered_nodes(context, nodes.take(k), host),
    decreases nodes.len() - k,
{
    if k == nodes.len() {
        assert(nodes.take(k) =~= nodes);
    } else {
        assert(nodes.drop_last().take(k) =~= nodes.take(k));
        lemma_rendered_nodes_fails(context, nodes.drop_last(), host, k);
    }
}

/// A failure among the first branches is the failure of them all.
pub proof fn lemma_rendered_branches_fails(
    context: DataView,
    branches: Seq<BranchView>,
    host: HostView,
    k: int,
)
    requires
        0 <= k <= branches.len(),
        rendered_branches(context, branches.take(k), host) is Err,
    ensures
        rendered_branches(context, branches, host) == rendered_branches(
            context,
            branches.take(k),
            host,
        ),
    decreases branches.len() - k,
{
    if k == branches.len() {
        assert(branches.take(k) =~= branches);
    } else {
        assert(branches.drop_last().take(k) =~= branches.take(k));
        lemma_rendered_branches_fails(context, branches.drop_last(), host, k);
    }
}

/// A failure among the first rounds is the failure of them all.
pub proof fn lemma_rendered_rounds_fails(
    context: DataView,
    items: Seq<DataView>,
    name: Seq<char>,
    body: Seq<NodeView>,
    host: HostView,
    k: int,
)
    requires
        0 <= k <= items.len(),
        rendered_rounds(context, items.take(k), name, body, host) is Err,
    ensures
        rendered_rounds(context, items, name, body, host) == rendered_rounds(
            context,
            items.take(k),
            name,
            body,
            host,
        ),
    decreases items.len() - k,
{
    if k == items.len() {
        assert(items.take(k) =~= items);
    } else {
        assert(items.drop_last().take(k) =~= items.take(k));
        lemma_rendered_rounds_fails(context, items.drop_last(), name, body, host, k);
    }
}

/// Decides [`holds_in`].
fn condition_holds(data: &Data, condition: &Expression, host: &Host) -> (r: bool)
    ensures
        r == holds_in(data@, expression_view(*condition), host@),
{
    match parse_expression(data, condition, host) {
        Ok(v) => to_boolean(&v),
        Err(_) => false,
    }
}

/// Decides [`taken`].
fn branch_taken(test: &Test, done: bool, data: &Data, host: &Host) -> (r: bool)
    ensures
        r == taken(test_view(*test), done, data@, host@),
{
    match test {
        Test::If(condition) => condition_holds(data, condition, host),
        Test::Unless(condition) => !condition_holds(data, condition, host),
        Test::Elif(condition) => {
            let holds = condition_holds(data, condition, host);
            !done && holds
        },
        Test::Else => !done,
    }
}

/// The context of one round of a loop.
fn bind(data: &Data, name: &String, item: &Data) -> (r: Data)
    ensures
        r@ == with_binding(data@, name@, item@),
{
    match data.duplicate() {
        Data::Object(mut members) => {
            proof {
                lemma_object_view(members);
            }
            insert_member(&mut members, name.clone(), item.duplicate());
            object_data(members)
        },
        _ => item.duplicate(),
    }
}

/// The text of some nodes in order, as [`rendered_nodes`] says.
pub fn evaluate_nodes(data: &Data, nodes: &Vec<Node>, host: &Host) -> (r: Result<
    Vec<char>,
    TemplateRenderError,
>)
    ensures
        match r {
            Ok(text) => rendered_nodes(data@, nodes_view(nodes@), host@) == Ok::<Seq<char>, Failure>(
                text@,
            ),
            Err(e) => rendered_nodes(data@, nodes_view(nodes@), host@) == Err::<Seq<char>, Failure>(
                e@,
            ),
        },
    decreases nodes,
{
    let mut result: Vec<char> = Vec::new();
    let mut i: usize = 0;
    let ghost all = nodes_view(nodes@);
    assert(all.take(0) =~= Seq::<NodeView>::empty());
    while i < nodes.len()
        invariant
            i <= nodes.len(),
            all == nodes_view(nodes@),
            rendered_nodes(data@, all.take(i as int), host@) == Ok::<Seq<char>, Failure>(result@),
        decreases nodes.len() - i,
    {
        proof {
            assert(all.take(i + 1).drop_last() =~= all.take(i as int));
            assert(all.take(i + 1).last() == node_view(nodes@[i as int]));
            assert(decreases_to!(*nodes => nodes@));
            assert(decreases_to!(nodes@ => nodes@[i as int]));
        }
        match render_node(data, &nodes[i], host) {
            Ok((mut text, gobble)) => {
                if gobble {
                    drop_trailing_blanks(&mut result);
                }
                result.append(&mut text);
            },
            Err(e) => {
                proof {
                    lemma_rendered_nodes_fails(data@, all, host@, i + 1);
                }
                return Err(e);
            },
        }
        i += 1;
    }
    assert(all.take(nodes.len() as int) =~= all);
    Ok(result)
}

/// What a node gives to the output, as [`rendered_node`] says.
pub fn render_node(data: &Data, node: &Node, host: &Host) -> (r: Result<
    (Vec<char>, bool),
    TemplateRenderError,
>)
    ensures
        match r {
            Ok((text, gobble)) => rendered_node(data@, node_view(*node), host@) == Ok::<
                Piece,
                Failure,
            >(Piece { text: text@, gobble }),
            Err(e) => rendered_node(data@, node_view(*node), host@) == Err::<Piece, Failure>(e@),
        },
    decreases node,
{
    match node {
        Node::Text(text) => Ok((chars_of(text.as_str()), false)),
        Node::Comment => Ok((Vec::new(), false)),
        Node::Expression(expression) => match parse_expression(data, expression, host) {
            Ok(v) => Ok((format_chars(&v), false)),
            Err(e) => Err(e),
        },
        Node::Conditional(branches) => {
            let mut result: Vec<char> = Vec::new();
            let mut done = false;
            let mut i: usize = 0;
            let ghost all = branches_view(branches@);
            assert(all.take(0) =~= Seq::<BranchView>::empty());
            while i < branches.len()
                invariant
                    *node == Node::Conditional(*branches),
                    all == branches_view(branches@),
                    i <= branches.len(),
                    rendered_branches(data@, all.take(i as int), host@) == Ok::<Progress, Failure>(
                        Progress { text: result@, done },
                    ),
                decreases branches.len() - i,
            {
                proof {
                    assert(all.take(i + 1).drop_last() =~= all.take(i as int));
                    assert(all.take(i + 1).last() == BranchView {
                        test: test_view(branches@[i as int].test),
                        body: nodes_view(branches@[i as int].body@),
                    });
                    assert(decreases_to!(*node => node->Conditional_0));
                    assert(decreases_to!(*branches => branches@));
                    assert(decreases_to!(branches@ => branches@[i as int]));
                    assert(decreases_to!(branches@[i as int] => branches@[i as int].body));
                }
                drop_trailing_blanks(&mut result);
                let active = branch_taken(&branches[i].test, done, data, host);
                match evaluate_nodes(data, &branches[i].body, host) {
                    Ok(mut body) => {
                        if active {
                            result.append(&mut body);
                            done = true;
                        }
                    },
                    Err(e) => {
                        proof {
                            lemma_rendered_branches_fails(data@, all, host@, i + 1);
                        }
                        return Err(e);
                    },
                }
                i += 1;
            }
            assert(all.take(branches.len() as int) =~= all);
            drop_trailing_blanks(&mut result);
            Ok((result, true))
        },
        Node::Loop(block) => {
            let iterable = match parse_expression(data, &block.iterable, host) {
                Ok(v) => v,
                Err(e) => { return Err(e); },
            };
            proof {
                assert(decreases_to!(*node => node->Loop_0));
                assert(decreases_to!(*block => block.body));
                assert(decreases_to!(*block => block.otherwise));
            }
            match &iterable {
                Data::Array(items) => {
                    proof {
                        lemma_array_view(*items);
                    }
                    if items.len() > 0 {
                        let ghost all = views(items@);
                        let mut result: Vec<char> = Vec::new();
                        let mut i: usize = 0;
                        assert(all.take(0) =~= Seq::<DataView>::empty());
                        while i < items.len()
                            invariant
                                *node == Node::Loop(*block),
                                all == views(items@),
                                all.len() > 0,
                                evaluated(data@, expression_view(block.iterable), host@) == Ok::<
                                    DataView,
                                    Failure,
                                >(DataView::Array(all)),
                                i <= items.len(),
                                rendered_rounds(
                                    data@,
                                    all.take(i as int),
                                    block.variable@,
                                    nodes_view(block.body@),
                                    host@,
                                ) == Ok::<Seq<char>, Failure>(result@),
                            decreases items.len() - i,
                        {
                            proof {
                                assert(all.take(i + 1).drop_last() =~= all.take(i as int));
                                assert(all.take(i + 1).last() == all[i as int]);
                                assert(decreases_to!(*node => node->Loop_0));
                                assert(decreases_to!(*block => block.body));
                            }
                            let context = bind(data, &block.variable, &items[i]);
                            match evaluate_nodes(&context, &block.body, host) {
                                Ok(mut round) => {
                                    result.append(&mut round);
                                },
                                Err(e) => {
                                    proof {
                                        lemma_rendered_rounds_fails(
                                            data@,
                                            all,
                                            block.variable@,
                                            nodes_view(block.body@),
                                            host@,
                                            i + 1,
                                        );
                                    }
                                    return Err(e);
                                },
                            }
                            i += 1;
                        }
                        assert(all.take(items.len() as int) =~= all);
                        return Ok((result, true));
                    }
                },
                _ => {},
            }
            match &block.otherwise {
                Some(nodes) => {
                    proof {
                        assert(decreases_to!(block.otherwise => block.otherwise->0));
                    }
                    match evaluate_nodes(data, nodes, host) {
                        Ok(mut text) => {
                            drop_trailing_blanks(&mut text);
                            Ok((text, true))
                        },
                        Err(e) => Err(e),
                    }
                },
                None => Ok((Vec::new(), true)),
            }
        },
    }
}

/// What a node gives to the output: its text, and whether the spaces and
/// tabs that end the text before it are to go.
pub fn evaluate_template(data: &Data, node: &Node, host: &Host) -> (r: Result<
    (String, bool),
    TemplateRenderError,
>)
    ensures
        match r {
            Ok((text, gobble)) => rendered_node(data@, node_view(*node), host@) == Ok::<
                Piece,
                Failure,
            >(Piece { text: text@, gobble }),
            Err(e) => rendered_node(data@, node_view(*node), host@) == Err::<Piece, Failure>(e@),
        },
{
    match render_node(data, node, host) {
        Ok((text, gobble)) => Ok((string_of(&text), gobble)),
        Err(e) => Err(e),
    }
}

/// The text of a template for a configuration: all of it, or the first
/// failure and no text at all.
pub fn evaluate_file(data: &Data, file: &Template, host: &Host) -> (r: Result<
    String,
    TemplateRenderError,
>)
    ensures
        match r {
            Ok(text) => rendered(data@, file@, host@) == Ok::<Seq<char>, Failure>(text@),
            Err(e) => rendered(data@, file@, host@) == Err::<Seq<char>, Failure>(e@),
        },
{
    match evaluate_nodes(data, &file.nodes, host) {
        Ok(text) => Ok(string_of(&text)),
        Err(e) => Err(e),
    }
}

} // verus!
