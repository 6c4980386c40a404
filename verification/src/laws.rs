use vstd::prelude::*;
use crate::data::{has_key, lookup,  DataView, MemberView};
use crate::error::Failure;
use crate::evaluate::{
    calls_value, evaluated, formatted, items_value, lemma_rendered_nodes_fails, path_value,
    rendered, rendered_node, rendered_nodes, walked, Piece,
};
use crate::function::{
    applied, coalesce_outcome, default_outcome, index_in,  known_function, truthy,
    HostView, 
};
use crate::list_functions::{chunked_outcome, distinct, overlap_text, unique_outcome};
use crate::template::{ExpressionView,  NodeView, TemplateView};
use crate::text::{lemma_trimmed_idempotent, trimmed, without_trailing_blanks};
use crate::text_functions::trim_outcome;

verus! {

/// Members without a key hold null under it.
pub proof fn lemma_lookup_absent(members: Seq<MemberView>, key: Seq<char>)
    requires
        !has_key(members, key),
    ensures
        lookup(members, key) == DataView::Null,
    decreases members.len(),
{
    if members.len() > 0 {
        assert(members[0].key != key);
        assert forall|i: int| 0 <= i < members.skip(1).len() implies (#[trigger] members.skip(
            1,
        )[i]).key != key by {
            assert(members.skip(1)[i] == members[i + 1]);
        }
        lemma_lookup_absent(members.skip(1), key);
    }
}

/// A path that leads to null somewhere leads to null in the end.
pub proof fn lemma_path_stays_null(context: DataView, path: Seq<Seq<char>>, k: int)
    requires
        0 <= k <= path.len(),
        path_value(context, path.take(k)) == DataView::Null,
    ensures
        path_value(context, path) == DataView::Null,
    decreases path.len() - k,
{
    if k == path.len() {
        assert(path.take(k) =~= path);
    } else {
        assert(path.drop_last().take(k) =~= path.take(k));
        lemma_path_stays_null(context, path.drop_last(), k);
    }
}

/// Looking up a path never fails: an expression that is a path alone has a
/// value in every context.
pub proof fn law_path_never_fails(context: DataView, expression: ExpressionView, host: HostView)
    requires
        expression.head is Properties,
        expression.calls.len() == 0,
    ensures
        evaluated(context, expression, host) == Ok::<DataView, Failure>(
            path_value(context, expression.head->Properties_0),
        ),
{
}

/// A path with a name that leads nowhere is null, and its text is empty: if
/// what the first `k` names lead to is no object with a member of the next
/// name, the whole path leads to null.
pub proof fn law_missing_path_is_null(context: DataView, path: Seq<Seq<char>>, k: int)
    requires
        0 <= k < path.len(),
        !(path_value(context, path.take(k)) matches DataView::Object(members) && has_key(
            members,
            path[k],
        )),
    ensures
        path_value(context, path) == DataView::Null,
        formatted(path_value(context, path)) == Seq::<char>::empty(),
{
    let next = path.take(k + 1);
    assert(next.drop_last() =~= path.take(k));
    assert(next.last() == path[k]);
    match path_value(context, path.take(k)) {
        DataView::Object(members) => {
            lemma_lookup_absent(members, path[k]);
        },
        _ => {},
    }
    assert(path_value(context, next) == DataView::Null);
    lemma_path_stays_null(context, path, k + 1);
}

/// `trim` of what `trim` returned returns the same.
pub proof fn law_trim_idempotent(s: Seq<char>)
    ensures
        trim_outcome(DataView::String(trimmed(s))) == trim_outcome(DataView::String(s)),
        trim_outcome(DataView::String(s)) == Ok::<DataView, Failure>(DataView::String(trimmed(s))),
{
    lemma_trimmed_idempotent(s);
}

/// What [`distinct`] keeps: every item that occurs, and none twice.
pub proof fn lemma_distinct(items: Seq<DataView>)
    ensures
        forall|v: DataView| distinct(items).contains(v) == items.contains(v),
        forall|i: int, j: int|
            0 <= i < j < distinct(items).len() ==> distinct(items)[i] != distinct(items)[j],
    decreases items.len(),
{
    if items.len() > 0 {
        let rest = items.drop_last();
        let last = items.last();
        let before = distinct(rest);
        lemma_distinct(rest);
        assert forall|v: DataView| distinct(items).contains(v) == items.contains(v) by {
            if items.contains(v) {
                let i = choose|i: int| 0 <= i < items.len() && items[i] == v;
                if i < rest.len() {
                    assert(rest[i] == v);
                    assert(rest.contains(v));
                    assert(before.contains(v));
                    let j = choose|j: int| 0 <= j < before.len() && before[j] == v;
                    assert(distinct(items)[j] == v);
                } else {
                    if before.contains(v) {
                        let j = choose|j: int| 0 <= j < before.len() && before[j] == v;
                        assert(distinct(items)[j] == v);
                    } else {
                        assert(distinct(items)[before.len() as int] == v);
                    }
                }
            }
            if distinct(items).contains(v) {
                let j = choose|j: int| 0 <= j < distinct(items).len() && distinct(items)[j] == v;
                if j < before.len() {
                    assert(before[j] == v);
                    assert(before.contains(v));
                    assert(rest.contains(v));
                    let i = choose|i: int| 0 <= i < rest.len() && rest[i] == v;
                    assert(items[i] == v);
                } else {
                    assert(items[items.len() - 1] == v);
                }
            }
        }
        assert forall|i: int, j: int| 0 <= i < j < distinct(items).len() implies distinct(items)[i]
            != distinct(items)[j] by {
            if j == before.len() {
                assert(before[i] == distinct(items)[i]);
                assert(!before.contains(last));
            }
        }
    }
}

/// Items none of which occurs twice are all distinct.
pub proof fn lemma_distinct_of_distinct(items: Seq<DataView>)
    requires
        forall|i: int, j: int| 0 <= i < j < items.len() ==> items[i] != items[j],
    ensures
        distinct(items) == items,
    decreases items.len(),
{
    if items.len() > 0 {
        let rest = items.drop_last();
        lemma_distinct_of_distinct(rest);
        if rest.contains(items.last()) {
            let i = choose|i: int| 0 <= i < rest.len() && rest[i] == items.last();
            assert(items[i] != items[items.len() - 1]);
        }
        assert(rest.push(items.last()) =~= items);
    } else {
        assert(items =~= Seq::<DataView>::empty());
    }
}

/// `unique` of what `unique` returned returns the same.
pub proof fn law_unique_idempotent(items: Seq<DataView>)
    ensures
        unique_outcome(DataView::Array(distinct(items))) == unique_outcome(DataView::Array(items)),
        unique_outcome(DataView::Array(items)) == Ok::<DataView, Failure>(
            DataView::Array(distinct(items)),
        ),
{
    lemma_distinct(items);
    lemma_distinct_of_distinct(distinct(items));
}

/// `chunked` fails exactly if the overlap is not less than the size, and
/// then with the failure that names both.
pub proof fn law_chunked_overlap(
    items: Seq<DataView>,
    function: Seq<char>,
    size: DataView,
    overlap: DataView,
)
    requires
        index_in(size) is Ok,
        index_in(overlap) is Ok,
    ensures
        chunked_outcome(DataView::Array(items), function, seq![size, overlap]) is Err == (index_in(
            overlap,
        )->Ok_0 >= index_in(size)->Ok_0),
        index_in(overlap)->Ok_0 >= index_in(size)->Ok_0 ==> chunked_outcome(
            DataView::Array(items),
            function,
            seq![size, overlap],
        ) == Err::<DataView, Failure>(
            Failure::ArgumentValue(overlap_text(index_in(size)->Ok_0, index_in(overlap)->Ok_0)),
        ),
{
}

/// `default` gives the fallback for every value that counts as false,
/// `coalesce` for null alone; for every other value each gives the value.
pub proof fn law_default_and_coalesce(v: DataView, function: Seq<char>, fallback: DataView)
    ensures
        default_outcome(v, function, seq![fallback]) == Ok::<DataView, Failure>(
            if truthy(v) { v } else { fallback },
        ),
        coalesce_outcome(v, function, seq![fallback]) == Ok::<DataView, Failure>(
            if v is Null { fallback } else { v },
        ),
        v is Null ==> default_outcome(v, function, seq![fallback]) == coalesce_outcome(
            v,
            function,
            seq![fallback],
        ),
{
}

/// A loop over what is no array, or over an empty one, has no round: it
/// gives the text of its `else` part, or nothing if it has none.
pub proof fn law_loop_without_items(context: DataView, node: NodeView, host: HostView)
    requires
        node is Loop,
        evaluated(context, node->Loop_0.iterable, host) is Ok,
        walked(evaluated(context, node->Loop_0.iterable, host)->Ok_0).len() == 0,
    ensures
        node->Loop_0.otherwise is None ==> rendered_node(context, node, host) == Ok::<
            Piece,
            Failure,
        >(Piece { text: Seq::empty(), gobble: true }),
        node->Loop_0.otherwise matches Some(nodes) ==> match rendered_nodes(context, nodes, host) {
            Ok(text) => rendered_node(context, node, host) == Ok::<Piece, Failure>(
                Piece { text: without_trailing_blanks(text), gobble: true },
            ),
            Err(e) => rendered_node(context, node, host) == Err::<Piece, Failure>(e),
        },
{
}

/// What is no array has no items to walk.
pub proof fn law_only_arrays_are_walked(v: DataView)
    ensures
        !(v is Array) ==> walked(v).len() == 0,
{
}

/// A function that the library does not have fails with its name, whatever
/// it is applied to.
pub proof fn law_unknown_function(
    v: DataView,
    function: Seq<char>,
    arguments: Seq<DataView>,
    host: HostView,
)
    requires
        !known_function(function),
    ensures
        applied(v, function, arguments, host) == Err::<DataView, Failure>(
            Failure::UnknownFunction(function),
        ),
{
    reveal(applied);
}

/// A node that fails fails the whole template: if the nodes before node `k`
/// have a text and node `k` fails, the template has no text but that
/// failure.
pub proof fn law_failure_is_total(data: DataView, file: TemplateView, host: HostView, k: int)
    requires
        0 <= k < file.nodes.len(),
        rendered_nodes(data, file.nodes.take(k), host) is Ok,
        rendered_node(data, file.nodes[k], host) is Err,
    ensures
        rendered(data, file, host) == Err::<Seq<char>, Failure>(
            rendered_node(data, file.nodes[k], host)->Err_0,
        ),
{
    let nodes = file.nodes;
    let next = nodes.take(k + 1);
    assert(next.drop_last() =~= nodes.take(k));
    assert(next.last() == nodes[k]);
    lemma_rendered_nodes_fails(data, nodes, host, k + 1);
}

/// The value of a path run through one call without arguments of a function
/// that the library does not have is the failure that names the function.
pub proof fn law_unknown_call_fails(context: DataView, expression: ExpressionView, host: HostView)
    requires
        expression.head is Properties,
        expression.calls.len() == 1,
        expression.calls[0].arguments.len() == 0,
        !known_function(expression.calls[0].name),
    ensures
        evaluated(context, expression, host) == Err::<DataView, Failure>(
            Failure::UnknownFunction(expression.calls[0].name),
        ),
        rendered_node(context, NodeView::Expression(expression), host) == Err::<Piece, Failure>(
            Failure::UnknownFunction(expression.calls[0].name),
        ),
{
    let calls = expression.calls;
    let start = path_value(context, expression.head->Properties_0);
    assert(calls.drop_last() =~= Seq::empty());
    assert(calls.last() == calls[0]);
    assert(calls_value(context, start, calls.drop_last(), host) == Ok::<DataView, Failure>(start));
    assert(items_value(context, calls[0].arguments, host) == Ok::<Seq<DataView>, Failure>(
        Seq::empty(),
    ));
    law_unknown_function(start, calls[0].name, Seq::empty(), host);
}

} // verus!
