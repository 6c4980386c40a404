use vstd::prelude::*;
use crate::data::{
    has_key, insert_member, lemma_array_view, lemma_object_view, member_views, same_value, views,
    with_member, Data, DataView, Member, MemberView, Number, NumberView,
};
use crate::decimal::{decimal, decimal_of_u64};
use crate::error::{Failure, TemplateRenderError};
use crate::function::{
    argument, index_in, items_in, members_in, outcome, require_argument, require_array_value,
    require_object_value, require_string_value, require_text, require_u64_value, text_in,
    to_boolean, truthy, type_error, wrong_shape, Outcome,
};
use crate::search::{contains_text, text_contains};
use crate::text::{chars_of, slice_chars, string_of};
use crate::text_functions::{clamp, clamped, text_data};

verus! {

/// What `length` returns: the number of characters of a string, of items of
/// an array, or of members of an object.
pub open spec fn length_outcome(v: DataView) -> Outcome {
    match v {
        DataView::String(s) => Ok(DataView::Number(NumberView::Int(s.len() as int))),
        DataView::Array(items) => Ok(DataView::Number(NumberView::Int(items.len() as int))),
        DataView::Object(members) => Ok(DataView::Number(NumberView::Int(members.len() as int))),
        _ => Err(wrong_shape(v)),
    }
}

/// What `reverse` returns: the characters of a string, or the items of an
/// array, in the opposite order.
pub open spec fn reverse_outcome(v: DataView) -> Outcome {
    match v {
        DataView::String(s) => Ok(DataView::String(s.reverse())),
        DataView::Array(items) => Ok(DataView::Array(items.reverse())),
        _ => Err(wrong_shape(v)),
    }
}

/// What `take` returns: the first characters of a string, or the first
/// items of an array, as many as its argument says or all if there are
/// fewer.
pub open spec fn take_outcome(v: DataView, function: Seq<char>, arguments: Seq<DataView>) -> Outcome {
    match argument(function, arguments, 0) {
        Err(e) => Err(e),
        Ok(a) => match index_in(a) {
            Err(e) => Err(e),
            Ok(n) => match v {
                DataView::String(s) => Ok(DataView::String(s.take(clamped(n, s.len())))),
                DataView::Array(items) => Ok(DataView::Array(items.take(clamped(n, items.len())))),
                _ => Err(wrong_shape(v)),
            },
        },
    }
}

/// What `drop` returns: what `take` with the same argument leaves.
pub open spec fn drop_outcome(v: DataView, function: Seq<char>, arguments: Seq<DataView>) -> Outcome {
    match argument(function, arguments, 0) {
        Err(e) => Err(e),
        Ok(a) => match index_in(a) {
            Err(e) => Err(e),
            Ok(n) => match v {
                DataView::String(s) => Ok(DataView::String(s.skip(clamped(n, s.len())))),
                DataView::Array(items) => Ok(DataView::Array(items.skip(clamped(n, items.len())))),
                _ => Err(wrong_shape(v)),
            },
        },
    }
}

/// The item at `i`, or null if there is none.
pub open spec fn item_or_null(items: Seq<DataView>, i: int) -> DataView {
    if 0 <= i < items.len() {
        items[i]
    } else {
        DataView::Null
    }
}

/// What `first` returns: the first item of an array, or null if it is empty.
pub open spec fn first_outcome(v: DataView) -> Outcome {
    match items_in(v) {
        Err(e) => Err(e),
        Ok(items) => Ok(item_or_null(items, 0)),
    }
}

/// What `last` returns: the last item of an array, or null if it is empty.
pub open spec fn last_outcome(v: DataView) -> Outcome {
    match items_in(v) {
        Err(e) => Err(e),
        Ok(items) => Ok(item_or_null(items, items.len() - 1)),
    }
}

/// What `index` returns: the item of an array at the position that is its
/// argument, or null if there is none.
pub open spec fn index_outcome(v: DataView, function: Seq<char>, arguments: Seq<DataView>) -> Outcome {
    match argument(function, arguments, 0) {
        Err(e) => Err(e),
        Ok(a) => match index_in(a) {
            Err(e) => Err(e),
            Ok(i) => match items_in(v) {
                Err(e) => Err(e),
                Ok(items) => Ok(item_or_null(items, i)),
            },
        },
    }
}

/// Whether one of `items` equals `needle`.
pub open spec fn holds(items: Seq<DataView>, needle: DataView) -> bool {
    exists|i: int| 0 <= i < items.len() && same_value(#[trigger] items[i], needle)
}

/// The values of `members`, in order.
pub open spec fn values_of(members: Seq<MemberView>) -> Seq<DataView> {
    Seq::new(members.len(), |i: int| members[i].value)
}

/// The keys of `members` as string values, in order.
pub open spec fn keys_of(members: Seq<MemberView>) -> Seq<DataView> {
    Seq::new(members.len(), |i: int| DataView::String(members[i].key))
}

/// What `contains` returns: whether its argument stands in a string, or
/// equals an item of an array.
pub open spec fn contains_outcome(v: DataView, function: Seq<char>, arguments: Seq<DataView>) -> Outcome {
    match argument(function, arguments, 0) {
        Err(e) => Err(e),
        Ok(needle) => match v {
            DataView::String(s) => match text_in(needle) {
                Err(e) => Err(e),
                Ok(n) => Ok(DataView::Bool(contains_text(s, n))),
            },
            DataView::Array(items) => Ok(DataView::Bool(holds(items, needle))),
            _ => Err(wrong_shape(needle)),
        },
    }
}

/// What `containsKey` returns: whether an object has a member with the key
/// that is its argument.
pub open spec fn contains_key_outcome(
    v: DataView,
    function: Seq<char>,
    arguments: Seq<DataView>,
) -> Outcome {
    match argument(function, arguments, 0) {
        Err(e) => Err(e),
        Ok(a) => match members_in(v) {
            Err(e) => Err(e),
            Ok(members) => match text_in(a) {
                Err(e) => Err(e),
                Ok(key) => Ok(DataView::Bool(has_key(members, key))),
            },
        },
    }
}

/// What `containsValue` returns: whether an object has a member whose value
/// equals its argument.
pub open spec fn contains_value_outcome(
    v: DataView,
    function: Seq<char>,
    arguments: Seq<DataView>,
) -> Outcome {
    match argument(function, arguments, 0) {
        Err(e) => Err(e),
        Ok(needle) => match members_in(v) {
            Err(e) => Err(e),
            Ok(members) => Ok(DataView::Bool(holds(values_of(members), needle))),
        },
    }
}

/// The items without those that occurred before: of items that hold the
/// same, the first stays.
pub open spec fn distinct(items: Seq<DataView>) -> Seq<DataView>
    decreases items.len(),
{
    if items.len() == 0 {
        Seq::empty()
    } else {
        let before = distinct(items.drop_last());
        if before.contains(items.last()) {
            before
        } else {
            before.push(items.last())
        }
    }
}

/// What `unique` returns.
pub open spec fn unique_outcome(v: DataView) -> Outcome {
    match items_in(v) {
        Err(e) => Err(e),
        Ok(items) => Ok(DataView::Array(distinct(items))),
    }
}

/// What `keys` returns: the keys of an object, in order.
pub open spec fn keys_outcome(v: DataView) -> Outcome {
    match members_in(v) {
        Err(e) => Err(e),
        Ok(members) => Ok(DataView::Array(keys_of(members))),
    }
}

/// What `values` returns: the values of an object, in the order of their
/// keys.
pub open spec fn values_outcome(v: DataView) -> Outcome {
    match members_in(v) {
        Err(e) => Err(e),
        Ok(members) => Ok(DataView::Array(values_of(members))),
    }
}

/// The first of the values of `members` that is no string.
pub open spec fn first_other(members: Seq<MemberView>) -> Option<DataView>
    decreases members.len(),
{
    if members.len() == 0 {
        None
    } else if !(members[0].value is String) {
        Some(members[0].value)
    } else {
        first_other(members.skip(1))
    }
}

/// The members of an object whose values are strings with key and value
/// exchanged: put in one after the other, so that of two members with the
/// same value the later one stays.
pub open spec fn inverted(members: Seq<MemberView>) -> Seq<MemberView>
    decreases members.len(),
{
    if members.len() == 0 {
        Seq::empty()
    } else {
        with_member(
            inverted(members.drop_last()),
            members.last().value->String_0,
            DataView::String(members.last().key),
        )
    }
}

/// What `invert` returns.
pub open spec fn invert_outcome(v: DataView) -> Outcome {
    match members_in(v) {
        Err(e) => Err(e),
        Ok(members) => match first_other(members) {
            Some(other) => Err(wrong_shape(other)),
            None => Ok(DataView::Object(inverted(members))),
        },
    }
}

/// Whether one of `items` counts as true, if `wanted` holds, or as false, if
/// it does not.
pub open spec fn one_is(items: Seq<DataView>, wanted: bool) -> bool {
    exists|i: int| 0 <= i < items.len() && truthy(#[trigger] items[i]) == wanted
}

/// What `all` returns: whether every item of an array counts as true.
pub open spec fn all_outcome(v: DataView) -> Outcome {
    match items_in(v) {
        Err(e) => Err(e),
        Ok(items) => Ok(DataView::Bool(!one_is(items, false))),
    }
}

/// What `any` returns: whether an item of an array counts as true.
pub open spec fn any_outcome(v: DataView) -> Outcome {
    match items_in(v) {
        Err(e) => Err(e),
        Ok(items) => Ok(DataView::Bool(one_is(items, true))),
    }
}

/// What `none` returns: whether no item of an array counts as true.
pub open spec fn none_outcome(v: DataView) -> Outcome {
    match items_in(v) {
        Err(e) => Err(e),
        Ok(items) => Ok(DataView::Bool(!one_is(items, true))),
    }
}

/// What `some` returns: whether an item of an array counts as false.
pub open spec fn some_outcome(v: DataView) -> Outcome {
    match items_in(v) {
        Err(e) => Err(e),
        Ok(items) => Ok(DataView::Bool(one_is(items, false))),
    }
}

/// The windows of `size` items that begin at `from` and at every `step`
/// items after it; a window that reaches the end is cut off there.
pub open spec fn windows(items: Seq<DataView>, size: int, step: int, from: int) -> Seq<DataView>
    decreases items.len() - from,
{
    if from < 0 || from >= items.len() || step <= 0 || size < 0 {
        Seq::empty()
    } else if from + step >= items.len() {
        seq![DataView::Array(items.subrange(from, clamped(from + size, items.len())))]
    } else {
        seq![DataView::Array(items.subrange(from, clamped(from + size, items.len())))] + windows(
            items,
            size,
            step,
            from + step,
        )
    }
}

/// The sentence that reports that windows overlap by their whole size or
/// more.
pub open spec fn overlap_text(size: int, overlap: int) -> Seq<char> {
    "The overlap ("@ + decimal(overlap) + ") cannot be equal or larger than the chunk size ("@
        + decimal(size) + ")"@
}

/// What `chunked` returns: the windows of an array of the size that is its
/// first argument, each beginning as many items before the end of the one
/// before it as its second argument says. The second argument must be less
/// than the first.
pub open spec fn chunked_outcome(v: DataView, function: Seq<char>, arguments: Seq<DataView>) -> Outcome {
    match items_in(v) {
        Err(e) => Err(e),
        Ok(items) => match argument(function, arguments, 0) {
            Err(e) => Err(e),
            Ok(a) => match index_in(a) {
                Err(e) => Err(e),
                Ok(size) => match argument(function, arguments, 1) {
                    Err(e) => Err(e),
                    Ok(b) => match index_in(b) {
                        Err(e) => Err(e),
                        Ok(overlap) => if overlap >= size {
                            Err(Failure::ArgumentValue(overlap_text(size, overlap)))
                        } else {
                            Ok(DataView::Array(windows(items, size, size - overlap, 0)))
                        },
                    },
                },
            },
        },
    }
}

/// What `alternate` returns: the item of the array that is its argument at
/// the position that the value says, counted round and round; null if the
/// array is empty.
pub open spec fn alternate_outcome(v: DataView, function: Seq<char>, arguments: Seq<DataView>) -> Outcome {
    match index_in(v) {
        Err(e) => Err(e),
        Ok(index) => match argument(function, arguments, 0) {
            Err(e) => Err(e),
            Ok(a) => match items_in(a) {
                Err(e) => Err(e),
                Ok(items) => if items.len() == 0 {
                    Ok(DataView::Null)
                } else {
                    Ok(items[index % (items.len() as int)])
                },
            },
        },
    }
}

/// Copies of the items from position `from` up to, not including, `to`.
pub fn copy_items(items: &Vec<Data>, from: usize, to: usize) -> (r: Vec<Data>)
    requires
        from <= to <= items.len(),
    ensures
        views(r@) == views(items@).subrange(from as int, to as int),
{
    let mut r: Vec<Data> = Vec::new();
    let mut i: usize = from;
    while i < to
        invariant
            from <= i <= to <= items.len(),
            r@.len() == i - from,
            forall|j: int| 0 <= j < i - from ==> (#[trigger] r@[j])@ == items@[from + j]@,
        decreases to - i,
    {
        r.push(items[i].duplicate());
        i += 1;
    }
    assert(views(r@) =~= views(items@).subrange(from as int, to as int));
    r
}

/// The array of the given items.
pub fn array_data(items: Vec<Data>) -> (r: Data)
    ensures
        r@ == DataView::Array(views(items@)),
{
    proof {
        lemma_array_view(items);
    }
    Data::Array(items)
}

/// The object of the given members.
pub fn object_data(members: Vec<Member>) -> (r: Data)
    ensures
        r@ == DataView::Object(member_views(members@)),
{
    proof {
        lemma_object_view(members);
    }
    Data::Object(members)
}

/// The number value of a count.
pub fn count_data(n: usize) -> (r: Data)
    ensures
        r@ == DataView::Number(NumberView::Int(n as int)),
{
    Data::Number(Number::Unsigned(n as u64))
}

/// `length`.
pub fn length_function(value: &Data) -> (r: Result<Data, TemplateRenderError>)
    ensures
        outcome(r) == length_outcome(value@),
{
    match value {
        Data::String(s) => Ok(count_data(chars_of(s.as_str()).len())),
        Data::Array(items) => {
            proof {
                lemma_array_view(*items);
            }
            Ok(count_data(items.len()))
        },
        Data::Object(members) => {
            proof {
                lemma_object_view(*members);
            }
            Ok(count_data(members.len()))
        },
        _ => Err(type_error(value)),
    }
}

/// The characters of `s` in the opposite order.
fn reverse_chars(s: &Vec<char>) -> (r: Vec<char>)
    ensures
        r@ == s@.reverse(),
{
    let mut r: Vec<char> = Vec::new();
    let mut i: usize = s.len();
    while i > 0
        invariant
            i <= s.len(),
            r@.len() == s.len() - i,
            forall|j: int| 0 <= j < r@.len() ==> r@[j] == s@[s.len() - 1 - j],
        decreases i,
    {
        i -= 1;
        r.push(s[i]);
    }
    assert(r@ =~= s@.reverse());
    r
}

/// Copies of `items` in the opposite order.
fn reverse_items(items: &Vec<Data>) -> (r: Vec<Data>)
    ensures
        views(r@) == views(items@).reverse(),
{
    let mut r: Vec<Data> = Vec::new();
    let mut i: usize = items.len();
    while i > 0
        invariant
            i <= items.len(),
            r@.len() == items.len() - i,
            forall|j: int| 0 <= j < r@.len() ==> (#[trigger] r@[j])@ == items@[items.len() - 1 - j]@,
        decreases i,
    {
        i -= 1;
        r.push(items[i].duplicate());
    }
    assert(views(r@) =~= views(items@).reverse());
    r
}

/// `reverse`.
pub fn reverse_function(value: &Data) -> (r: Result<Data, TemplateRenderError>)
    ensures
        outcome(r) == reverse_outcome(value@),
{
    match value {
        Data::String(s) => Ok(text_data(&reverse_chars(&chars_of(s.as_str())))),
        Data::Array(items) => {
            proof {
                lemma_array_view(*items);
            }
            Ok(array_data(reverse_items(items)))
        },
        _ => Err(type_error(value)),
    }
}

/// `take`.
pub fn take_function(value: &Data, function: &str, arguments: &Vec<Data>) -> (r: Result<
    Data,
    TemplateRenderError,
>)
    ensures
        outcome(r) == take_outcome(value@, function@, views(arguments@)),
{
    let a = match require_argument(function, arguments, 0) {
        Ok(a) => a,
        Err(e) => { return Err(e); },
    };
    let n = match require_u64_value(a) {
        Ok(n) => n,
        Err(e) => { return Err(e); },
    };
    match value {
        Data::String(text) => {
            let s = chars_of(text.as_str());
            let end = clamp(n, s.len());
            let part = slice_chars(&s, 0, end);
            assert(s@.subrange(0, end as int) =~= s@.take(end as int));
            Ok(text_data(&part))
        },
        Data::Array(items) => {
            proof {
                lemma_array_view(*items);
            }
            let end = clamp(n, items.len());
            let part = copy_items(items, 0, end);
            assert(views(items@).subrange(0, end as int) =~= views(items@).take(end as int));
            Ok(array_data(part))
        },
        _ => Err(type_error(value)),
    }
}

/// `drop`.
pub fn drop_function(value: &Data, function: &str, arguments: &Vec<Data>) -> (r: Result<
    Data,
    TemplateRenderError,
>)
    ensures
        outcome(r) == drop_outcome(value@, function@, views(arguments@)),
{
    let a = match require_argument(function, arguments, 0) {
        Ok(a) => a,
        Err(e) => { return Err(e); },
    };
    let n = match require_u64_value(a) {
        Ok(n) => n,
        Err(e) => { return Err(e); },
    };
    match value {
        Data::String(text) => {
            let s = chars_of(text.as_str());
            let start = clamp(n, s.len());
            let part = slice_chars(&s, start, s.len());
            assert(s@.subrange(start as int, s@.len() as int) =~= s@.skip(start as int));
            Ok(text_data(&part))
        },
        Data::Array(items) => {
            proof {
                lemma_array_view(*items);
            }
            let start = clamp(n, items.len());
            let part = copy_items(items, start, items.len());
            assert(views(items@).subrange(start as int, items@.len() as int) =~= views(items@).skip(
                start as int,
            ));
            Ok(array_data(part))
        },
        _ => Err(type_error(value)),
    }
}

/// A copy of the item at `i`, or null if there is none.
fn item_at(items: &Vec<Data>, i: u64) -> (r: Data)
    ensures
        r@ == item_or_null(views(items@), i as int),
{
    if i < items.len() as u64 {
        items[i as usize].duplicate()
    } else {
        Data::Null
    }
}

/// `first`.
pub fn first_function(value: &Data) -> (r: Result<Data, TemplateRenderError>)
    ensures
        outcome(r) == first_outcome(value@),
{
    match require_array_value(value) {
        Ok(items) => Ok(item_at(items, 0)),
        Err(e) => Err(e),
    }
}

/// `last`.
pub fn last_function(value: &Data) -> (r: Result<Data, TemplateRenderError>)
    ensures
        outcome(r) == last_outcome(value@),
{
    match require_array_value(value) {
        Ok(items) => if items.len() == 0 {
            Ok(Data::Null)
        } else {
            Ok(item_at(items, (items.len() - 1) as u64))
        },
        Err(e) => Err(e),
    }
}

/// `index`.
pub fn index_function(value: &Data, function: &str, arguments: &Vec<Data>) -> (r: Result<
    Data,
    TemplateRenderError,
>)
    ensures
        outcome(r) == index_outcome(value@, function@, views(arguments@)),
{
    let a = match require_argument(function, arguments, 0) {
        Ok(a) => a,
        Err(e) => { return Err(e); },
    };
    let i = match require_u64_value(a) {
        Ok(n) => n,
        Err(e) => { return Err(e); },
    };
    match require_array_value(value) {
        Ok(items) => Ok(item_at(items, i)),
        Err(e) => Err(e),
    }
}

/// Decides [`holds`].
fn holds_item(items: &Vec<Data>, needle: &Data) -> (r: bool)
    ensures
        r == holds(views(items@), needle@),
{
    let mut i: usize = 0;
    while i < items.len()
        invariant
            i <= items.len(),
            forall|j: int| 0 <= j < i ==> !same_value(#[trigger] views(items@)[j], needle@),
        decreases items.len() - i,
    {
        if items[i].equals(needle) {
            assert(same_value(views(items@)[i as int], needle@));
            return true;
        }
        i += 1;
    }
    false
}

/// `contains`.
pub fn contains_function(value: &Data, function: &str, arguments: &Vec<Data>) -> (r: Result<
    Data,
    TemplateRenderError,
>)
    ensures
        outcome(r) == contains_outcome(value@, function@, views(arguments@)),
{
    let needle = match require_argument(function, arguments, 0) {
        Ok(a) => a,
        Err(e) => { return Err(e); },
    };
    match value {
        Data::String(text) => match require_text(needle) {
            Ok(n) => Ok(Data::Bool(text_contains(&chars_of(text.as_str()), &n))),
            Err(e) => Err(e),
        },
        Data::Array(items) => {
            proof {
                lemma_array_view(*items);
            }
            Ok(Data::Bool(holds_item(items, needle)))
        },
        _ => Err(type_error(needle)),
    }
}

/// `containsKey`.
#[verifier::loop_isolation(false)]
pub fn contains_key_function(value: &Data, function: &str, arguments: &Vec<Data>) -> (r: Result<
    Data,
    TemplateRenderError,
>)
    ensures
        outcome(r) == contains_key_outcome(value@, function@, views(arguments@)),
{
    let a = match require_argument(function, arguments, 0) {
        Ok(a) => a,
        Err(e) => { return Err(e); },
    };
    let members = match require_object_value(value) {
        Ok(m) => m,
        Err(e) => { return Err(e); },
    };
    let key = match require_string_value(a) {
        Ok(k) => k,
        Err(e) => { return Err(e); },
    };
    let mut i: usize = 0;
    while i < members.len()
        invariant
            i <= members.len(),
            forall|j: int| 0 <= j < i ==> (#[trigger] member_views(members@)[j]).key != key@,
        decreases members.len() - i,
    {
        if members[i].key == *key {
            assert(member_views(members@)[i as int].key == key@);
            return Ok(Data::Bool(true));
        }
        i += 1;
    }
    Ok(Data::Bool(false))
}

/// `containsValue`.
#[verifier::loop_isolation(false)]
pub fn contains_value_function(value: &Data, function: &str, arguments: &Vec<Data>) -> (r: Result<
    Data,
    TemplateRenderError,
>)
    ensures
        outcome(r) == contains_value_outcome(value@, function@, views(arguments@)),
{
    let needle = match require_argument(function, arguments, 0) {
        Ok(a) => a,
        Err(e) => { return Err(e); },
    };
    let members = match require_object_value(value) {
        Ok(m) => m,
        Err(e) => { return Err(e); },
    };
    let ghost all = values_of(member_views(members@));
    let mut i: usize = 0;
    while i < members.len()
        invariant
            i <= members.len(),
            all == values_of(member_views(members@)),
            forall|j: int| 0 <= j < i ==> !same_value(#[trigger] all[j], needle@),
        decreases members.len() - i,
    {
        if members[i].value.equals(needle) {
            assert(same_value(all[i as int], needle@));
            return Ok(Data::Bool(true));
        }
        i += 1;
    }
    Ok(Data::Bool(false))
}

/// Whether one of `items` holds the same as `needle`.
fn has_identical(items: &Vec<Data>, needle: &Data) -> (r: bool)
    ensures
        r == views(items@).contains(needle@),
{
    let mut i: usize = 0;
    while i < items.len()
        invariant
            i <= items.len(),
            forall|j: int| 0 <= j < i ==> #[trigger] views(items@)[j] != needle@,
        decreases items.len() - i,
    {
        if items[i].identical(needle) {
            assert(views(items@)[i as int] == needle@);
            return true;
        }
        i += 1;
    }
    false
}

/// `unique`.
pub fn unique_function(value: &Data) -> (r: Result<Data, TemplateRenderError>)
    ensures
        outcome(r) == unique_outcome(value@),
{
    let items = match require_array_value(value) {
        Ok(items) => items,
        Err(e) => { return Err(e); },
    };
    let mut out: Vec<Data> = Vec::new();
    let mut i: usize = 0;
    assert(views(out@) =~= distinct(views(items@).take(0)));
    while i < items.len()
        invariant
            i <= items.len(),
            views(out@) == distinct(views(items@).take(i as int)),
        decreases items.len() - i,
    {
        proof {
            let next = views(items@).take(i + 1);
            assert(next.drop_last() =~= views(items@).take(i as int));
            assert(next.last() == items@[i as int]@);
        }
        if !has_identical(&out, &items[i]) {
            let ghost before = views(out@);
            out.push(items[i].duplicate());
            assert(views(out@) =~= before.push(items@[i as int]@));
        }
        i += 1;
    }
    assert(views(items@).take(items.len() as int) =~= views(items@));
    Ok(array_data(out))
}

/// `keys`.
pub fn keys_function(value: &Data) -> (r: Result<Data, TemplateRenderError>)
    ensures
        outcome(r) == keys_outcome(value@),
{
    let members = match require_object_value(value) {
        Ok(m) => m,
        Err(e) => { return Err(e); },
    };
    let mut out: Vec<Data> = Vec::new();
    let mut i: usize = 0;
    while i < members.len()
        invariant
            i <= members.len(),
            out@.len() == i,
            forall|j: int| 0 <= j < i ==> (#[trigger] out@[j])@ == DataView::String(members@[j].key@),
        decreases members.len() - i,
    {
        out.push(Data::String(members[i].key.clone()));
        i += 1;
    }
    assert(views(out@) =~= keys_of(member_views(members@)));
    Ok(array_data(out))
}

/// `values`.
pub fn values_function(value: &Data) -> (r: Result<Data, TemplateRenderError>)
    ensures
        outcome(r) == values_outcome(value@),
{
    let members = match require_object_value(value) {
        Ok(m) => m,
        Err(e) => { return Err(e); },
    };
    let mut out: Vec<Data> = Vec::new();
    let mut i: usize = 0;
    while i < members.len()
        invariant
            i <= members.len(),
            out@.len() == i,
            forall|j: int| 0 <= j < i ==> (#[trigger] out@[j])@ == members@[j].value@,
        decreases members.len() - i,
    {
        out.push(members[i].value.duplicate());
        i += 1;
    }
    assert(views(out@) =~= values_of(member_views(members@)));
    Ok(array_data(out))
}

/// `invert`.
#[verifier::loop_isolation(false)]
pub fn invert_function(value: &Data) -> (r: Result<Data, TemplateRenderError>)
    ensures
        outcome(r) == invert_outcome(value@),
{
    let members = match require_object_value(value) {
        Ok(m) => m,
        Err(e) => { return Err(e); },
    };
    let ghost all = member_views(members@);
    let mut i: usize = 0;
    assert(all.skip(0) =~= all);
    while i < members.len()
        invariant
            i <= members.len(),
            all == member_views(members@),
            first_other(all) == first_other(all.skip(i as int)),
            forall|j: int| 0 <= j < i ==> (#[trigger] all[j]).value is String,
        decreases members.len() - i,
    {
        proof {
            assert(all.skip(i as int)[0] == all[i as int]);
            assert(all.skip(i as int).skip(1) =~= all.skip(i + 1));
        }
        match &members[i].value {
            Data::String(_) => {},
            other => {
                return Err(type_error(other));
            },
        }
        i += 1;
    }
    let mut out: Vec<Member> = Vec::new();
    let mut k: usize = 0;
    assert(member_views(out@) =~= inverted(all.take(0)));
    while k < members.len()
        invariant
            k <= members.len(),
            all == member_views(members@),
            forall|j: int| 0 <= j < all.len() ==> (#[trigger] all[j]).value is String,
            member_views(out@) == inverted(all.take(k as int)),
        decreases members.len() - k,
    {
        proof {
            let next = all.take(k + 1);
            assert(next.drop_last() =~= all.take(k as int));
            assert(next.last() == all[k as int]);
        }
        match &members[k].value {
            Data::String(text) => {
                insert_member(&mut out, text.clone(), Data::String(members[k].key.clone()));
            },
            _ => {
                assert(all[k as int].value is String);
            },
        }
        k += 1;
    }
    assert(all.take(members.len() as int) =~= all);
    Ok(object_data(out))
}

/// Decides [`one_is`].
fn has_one(items: &Vec<Data>, wanted: bool) -> (r: bool)
    ensures
        r == one_is(views(items@), wanted),
{
    let mut i: usize = 0;
    while i < items.len()
        invariant
            i <= items.len(),
            forall|j: int| 0 <= j < i ==> truthy(#[trigger] views(items@)[j]) != wanted,
        decreases items.len() - i,
    {
        if to_boolean(&items[i]) == wanted {
            assert(truthy(views(items@)[i as int]) == wanted);
            return true;
        }
        i += 1;
    }
    false
}

/// `all`.
pub fn all_function(value: &Data) -> (r: Result<Data, TemplateRenderError>)
    ensures
        outcome(r) == all_outcome(value@),
{
    match require_array_value(value) {
        Ok(items) => Ok(Data::Bool(!has_one(items, false))),
        Err(e) => Err(e),
    }
}

/// `any`.
pub fn any_function(value: &Data) -> (r: Result<Data, TemplateRenderError>)
    ensures
        outcome(r) == any_outcome(value@),
{
    match require_array_value(value) {
        Ok(items) => Ok(Data::Bool(has_one(items, true))),
        Err(e) => Err(e),
    }
}

/// `none`.
pub fn none_function(value: &Data) -> (r: Result<Data, TemplateRenderError>)
    ensures
        outcome(r) == none_outcome(value@),
{
    match require_array_value(value) {
        Ok(items) => Ok(Data::Bool(!has_one(items, true))),
        Err(e) => Err(e),
    }
}

/// `some`.
pub fn some_function(value: &Data) -> (r: Result<Data, TemplateRenderError>)
    ensures
        outcome(r) == some_outcome(value@),
{
    match require_array_value(value) {
        Ok(items) => Ok(Data::Bool(has_one(items, false))),
        Err(e) => Err(e),
    }
}

/// The failure that reports that windows overlap by their whole size or
/// more.
fn overlap_error(size: u64, overlap: u64) -> (r: TemplateRenderError)
    ensures
        r@ == Failure::ArgumentValue(overlap_text(size as int, overlap as int)),
{
    let mut text = chars_of("The overlap (");
    let mut a = decimal_of_u64(overlap);
    text.append(&mut a);
    let mut middle = chars_of(") cannot be equal or larger than the chunk size (");
    text.append(&mut middle);
    let mut b = decimal_of_u64(size);
    text.append(&mut b);
    let mut end = chars_of(")");
    text.append(&mut end);
    assert(text@ =~= overlap_text(size as int, overlap as int));
    TemplateRenderError::ArgumentValueError(string_of(&text))
}

/// `chunked`.
pub fn chunked_function(value: &Data, function: &str, arguments: &Vec<Data>) -> (r: Result<
    Data,
    TemplateRenderError,
>)
    ensures
        outcome(r) == chunked_outcome(value@, function@, views(arguments@)),
{
    let items = match require_array_value(value) {
        Ok(items) => items,
        Err(e) => { return Err(e); },
    };
    let a = match require_argument(function, arguments, 0) {
        Ok(a) => a,
        Err(e) => { return Err(e); },
    };
    let size = match require_u64_value(a) {
        Ok(n) => n,
        Err(e) => { return Err(e); },
    };
    let b = match require_argument(function, arguments, 1) {
        Ok(b) => b,
        Err(e) => { return Err(e); },
    };
    let overlap = match require_u64_value(b) {
        Ok(n) => n,
        Err(e) => { return Err(e); },
    };
    if overlap >= size {
        return Err(overlap_error(size, overlap));
    }
    let step: u64 = size - overlap;
    let ghost all = views(items@);
    let mut out: Vec<Data> = Vec::new();
    let mut from: usize = 0;
    if items.len() == 0 {
        assert(views(out@) =~= windows(all, size as int, step as int, 0));
        return Ok(array_data(out));
    }
    loop
        invariant_except_break
            from < items.len(),
            windows(all, size as int, step as int, 0) == views(out@) + windows(
                all,
                size as int,
                step as int,
                from as int,
            ),
        invariant
            all == views(items@),
            step >= 1,
            step == size - overlap,
        ensures
            views(out@) == windows(all, size as int, step as int, 0),
        decreases items.len() - from,
    {
        let left: usize = items.len() - from;
        let end: usize = if size >= left as u64 { items.len() } else { from + size as usize };
        let ghost before = views(out@);
        let window = array_data(copy_items(items, from, end));
        out.push(window);
        proof {
            assert(views(out@) =~= before + seq![
                DataView::Array(all.subrange(from as int, clamped(from + size, all.len()))),
            ]);
        }
        if step >= left as u64 {
            proof {
                assert(views(out@) =~= windows(all, size as int, step as int, 0));
            }
            break;
        }
        proof {
            assert(views(out@) + windows(all, size as int, step as int, from + step) =~= before
                + windows(all, size as int, step as int, from as int));
        }
        from = from + step as usize;
    }
    Ok(array_data(out))
}

/// `alternate`.
pub fn alternate_function(value: &Data, function: &str, arguments: &Vec<Data>) -> (r: Result<
    Data,
    TemplateRenderError,
>)
    ensures
        outcome(r) == alternate_outcome(value@, function@, views(arguments@)),
{
    let index = match require_u64_value(value) {
        Ok(n) => n,
        Err(e) => { return Err(e); },
    };
    let a = match require_argument(function, arguments, 0) {
        Ok(a) => a,
        Err(e) => { return Err(e); },
    };
    let items = match require_array_value(a) {
        Ok(items) => items,
        Err(e) => { return Err(e); },
    };
    if items.len() == 0 {
        Ok(Data::Null)
    } else {
        let at: u64 = index % (items.len() as u64);
        Ok(items[at as usize].duplicate())
    }
}

} // verus!
