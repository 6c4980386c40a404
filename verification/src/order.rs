use vstd::prelude::*;
use crate::data::{
    ascending, lemma_with_member_ascending, lookup, property, well_formed, with_member, DataView,
    MemberView,
};
use crate::data::{lemma_with_member_at, NumberView};
use crate::json::{json_image, json_items, json_members, json_read};
use crate::function::{
    applied, coalesce_outcome, default_outcome, index_in, items_in,  HostView, Outcome,
};
use crate::list_functions::{
    alternate_outcome, chunked_outcome, distinct, drop_outcome, first_outcome, index_outcome,
    invert_outcome, inverted,  keys_of, keys_outcome, last_outcome, reverse_outcome,
    take_outcome, unique_outcome, values_of, values_outcome, windows,
};
use crate::text::{lemma_text_lt_irreflexive, text_lt};
use crate::text_functions::{clamped, lines_outcome, split_outcome, strings};

verus! {

/// What comes before something that comes before a third comes before the
/// third.
pub proof fn lemma_text_lt_transitive(a: Seq<char>, b: Seq<char>, c: Seq<char>)
    requires
        text_lt(a, b),
        text_lt(b, c),
    ensures
        text_lt(a, c),
    decreases a.len(),
{
    if a.len() > 0 && b.len() > 0 && c.len() > 0 {
        if a[0] == b[0] && b[0] == c[0] {
            lemma_text_lt_transitive(a.skip(1), b.skip(1), c.skip(1));
        }
    }
}

/// Among ascending members every key comes before all keys after it.
pub proof fn lemma_ascending_pairs(members: Seq<MemberView>, i: int, j: int)
    requires
        ascending(members),
        0 <= i < j < members.len(),
    ensures
        text_lt(members[i].key, members[j].key),
    decreases j - i,
{
    if j > i + 1 {
        lemma_ascending_pairs(members, i, j - 1);
        lemma_text_lt_transitive(members[i].key, members[j - 1].key, members[j].key);
    }
}

/// The keys of a well-formed object are unique.
pub proof fn law_keys_are_unique(members: Seq<MemberView>, i: int, j: int)
    requires
        well_formed(DataView::Object(members)),
        0 <= i < members.len(),
        0 <= j < members.len(),
        i != j,
    ensures
        members[i].key != members[j].key,
{
    if i < j {
        lemma_ascending_pairs(members, i, j);
        lemma_text_lt_irreflexive(members[i].key);
    } else {
        lemma_ascending_pairs(members, j, i);
        lemma_text_lt_irreflexive(members[j].key);
    }
}

/// Whether all of some values are well formed.
pub open spec fn all_well_formed(items: Seq<DataView>) -> bool {
    forall|i: int| 0 <= i < items.len() ==> well_formed(#[trigger] items[i])
}

/// Whether the values of some members are well formed.
pub open spec fn values_well_formed(members: Seq<MemberView>) -> bool {
    forall|i: int| 0 <= i < members.len() ==> well_formed((#[trigger] members[i]).value)
}

/// Every value among members with a value put in was among them before or
/// is the one put in.
pub proof fn lemma_with_member_values(
    members: Seq<MemberView>,
    key: Seq<char>,
    value: DataView,
)
    ensures
        forall|i: int|
            0 <= i < with_member(members, key, value).len() ==> (#[trigger] with_member(
                members,
                key,
                value,
            )[i]).value == value || exists|j: int|
                0 <= j < members.len() && members[j] == with_member(members, key, value)[i],
    decreases members.len(),
{
    let r = with_member(members, key, value);
    let fresh = MemberView { key, value };
    if members.len() == 0 {
    } else if text_lt(members[0].key, key) {
        let rest = members.skip(1);
        lemma_with_member_values(rest, key, value);
        let tail = with_member(rest, key, value);
        assert(r =~= seq![members[0]] + tail);
        assert forall|i: int| 0 <= i < r.len() implies (#[trigger] r[i]).value == value || exists|
            j: int,
        | 0 <= j < members.len() && members[j] == r[i] by {
            if i == 0 {
                assert(members[0] == r[0]);
            } else {
                assert(r[i] == tail[i - 1]);
                if tail[i - 1].value != value {
                    let j = choose|j: int| 0 <= j < rest.len() && rest[j] == tail[i - 1];
                    assert(members[j + 1] == r[i]);
                }
            }
        }
    } else if members[0].key == key {
        assert(r =~= seq![fresh] + members.skip(1));
        assert forall|i: int| 0 <= i < r.len() implies (#[trigger] r[i]).value == value || exists|
            j: int,
        | 0 <= j < members.len() && members[j] == r[i] by {
            if i > 0 {
                assert(members[i] == r[i]);
            }
        }
    } else {
        assert(r =~= seq![fresh] + members);
        assert forall|i: int| 0 <= i < r.len() implies (#[trigger] r[i]).value == value || exists|
            j: int,
        | 0 <= j < members.len() && members[j] == r[i] by {
            if i > 0 {
                assert(members[i - 1] == r[i]);
            }
        }
    }
}

/// Putting a well-formed value into the members of a well-formed object
/// leaves the object well formed.
pub proof fn lemma_with_member_well_formed(
    members: Seq<MemberView>,
    key: Seq<char>,
    value: DataView,
)
    requires
        well_formed(DataView::Object(members)),
        well_formed(value),
    ensures
        well_formed(DataView::Object(with_member(members, key, value))),
{
    lemma_with_member_ascending(members, key, value);
    lemma_with_member_values(members, key, value);
    let r = with_member(members, key, value);
    assert forall|i: int| 0 <= i < r.len() implies well_formed((#[trigger] r[i]).value) by {
        if r[i].value != value {
            let j = choose|j: int| 0 <= j < members.len() && members[j] == r[i];
            assert(well_formed(members[j].value));
        }
    }
}

/// What a well-formed value holds under a name is well formed.
pub proof fn lemma_property_well_formed(v: DataView, name: Seq<char>)
    requires
        well_formed(v),
    ensures
        well_formed(property(v, name)),
{
    match v {
        DataView::Object(members) => {
            lemma_lookup_well_formed(members, name);
        },
        _ => {},
    }
}

/// What members with well-formed values hold under a key is well formed.
pub proof fn lemma_lookup_well_formed(members: Seq<MemberView>, key: Seq<char>)
    requires
        values_well_formed(members),
    ensures
        well_formed(lookup(members, key)),
    decreases members.len(),
{
    if members.len() > 0 && members[0].key != key {
        assert forall|i: int| 0 <= i < members.skip(1).len() implies well_formed(
            (#[trigger] members.skip(1)[i]).value,
        ) by {
            assert(members.skip(1)[i] == members[i + 1]);
        }
        lemma_lookup_well_formed(members.skip(1), key);
    }
}

/// Whether what a function returned is well formed, if it returned a
/// value.
pub open spec fn keeps_order(r: Outcome) -> bool {
    r matches Ok(v) ==> well_formed(v)
}

/// Of well-formed items the distinct ones are well formed.
pub proof fn lemma_distinct_well_formed(items: Seq<DataView>)
    requires
        all_well_formed(items),
    ensures
        all_well_formed(distinct(items)),
    decreases items.len(),
{
    if items.len() > 0 {
        let rest = items.drop_last();
        assert forall|i: int| 0 <= i < rest.len() implies well_formed(#[trigger] rest[i]) by {
            assert(rest[i] == items[i]);
        }
        lemma_distinct_well_formed(rest);
        let before = distinct(rest);
        assert forall|i: int| 0 <= i < distinct(items).len() implies well_formed(
            #[trigger] distinct(items)[i],
        ) by {
            if i < before.len() {
                assert(distinct(items)[i] == before[i]);
            } else {
                assert(distinct(items)[i] == items[items.len() - 1]);
            }
        }
    }
}

/// The windows of well-formed items are well formed.
pub proof fn lemma_windows_well_formed(items: Seq<DataView>, size: int, step: int, from: int)
    requires
        all_well_formed(items),
    ensures
        all_well_formed(windows(items, size, step, from)),
    decreases items.len() - from,
{
    if from < 0 || from >= items.len() || step <= 0 || size < 0 {
    } else {
        let end = clamped(from + size, items.len());
        let window = items.subrange(from, end);
        assert forall|i: int| 0 <= i < window.len() implies well_formed(#[trigger] window[i]) by {
            assert(window[i] == items[from + i]);
        }
        assert(well_formed(DataView::Array(window)));
        if from + step >= items.len() {
        } else {
            lemma_windows_well_formed(items, size, step, from + step);
            let rest = windows(items, size, step, from + step);
            let all = windows(items, size, step, from);
            assert forall|i: int| 0 <= i < all.len() implies well_formed(#[trigger] all[i]) by {
                if i > 0 {
                    assert(all[i] == rest[i - 1]);
                }
            }
        }
    }
}

/// The members of an object whose values are strings, with key and value
/// exchanged, are those of a well-formed object.
pub proof fn lemma_inverted_well_formed(members: Seq<MemberView>)
    ensures
        well_formed(DataView::Object(inverted(members))),
    decreases members.len(),
{
    if members.len() > 0 {
        lemma_inverted_well_formed(members.drop_last());
        lemma_with_member_well_formed(
            inverted(members.drop_last()),
            members.last().value->String_0,
            DataView::String(members.last().key),
        );
    }
}

/// An array of strings is well formed.
pub proof fn lemma_strings_well_formed(parts: Seq<Seq<char>>)
    ensures
        well_formed(DataView::Array(strings(parts))),
{
    assert forall|i: int| 0 <= i < strings(parts).len() implies well_formed(
        #[trigger] strings(parts)[i],
    ) by {
        assert(strings(parts)[i] == DataView::String(parts[i]));
    }
}

/// `reverse`, `take`, `drop`, `first`, `last`, `index`, `unique`, `keys`,
/// `values` and `invert` return something well formed of something well
/// formed.
pub proof fn lemma_selections_keep_order(v: DataView, function: Seq<char>, arguments: Seq<DataView>)
    requires
        well_formed(v),
    ensures
        keeps_order(reverse_outcome(v)),
        keeps_order(take_outcome(v, function, arguments)),
        keeps_order(drop_outcome(v, function, arguments)),
        keeps_order(first_outcome(v)),
        keeps_order(last_outcome(v)),
        keeps_order(index_outcome(v, function, arguments)),
        keeps_order(unique_outcome(v)),
        keeps_order(keys_outcome(v)),
        keeps_order(values_outcome(v)),
        keeps_order(invert_outcome(v)),
{
    match v {
        DataView::Array(items) => {
            lemma_distinct_well_formed(items);
            assert(all_well_formed(items.reverse())) by {
                assert forall|i: int| 0 <= i < items.reverse().len() implies well_formed(
                    #[trigger] items.reverse()[i],
                ) by {
                    assert(items.reverse()[i] == items[items.len() - 1 - i]);
                }
            }
            assert forall|n: int| 0 <= n <= items.len() implies all_well_formed(
                #[trigger] items.take(n),
            ) && all_well_formed(#[trigger] items.skip(n)) by {
                assert forall|i: int| 0 <= i < items.take(n).len() implies well_formed(
                    #[trigger] items.take(n)[i],
                ) by {
                    assert(items.take(n)[i] == items[i]);
                }
                assert forall|i: int| 0 <= i < items.skip(n).len() implies well_formed(
                    #[trigger] items.skip(n)[i],
                ) by {
                    assert(items.skip(n)[i] == items[n + i]);
                }
            }
            if arguments.len() > 0 {
                match index_in(arguments[0]) {
                    Ok(n) => {
                        let k = clamped(n, items.len());
                        assert(all_well_formed(items.take(k)));
                        assert(all_well_formed(items.skip(k)));
                    },
                    Err(_) => {},
                }
            }
        },
        DataView::Object(members) => {
            lemma_inverted_well_formed(members);
            assert forall|i: int| 0 <= i < values_of(members).len() implies well_formed(
                #[trigger] values_of(members)[i],
            ) by {
                assert(values_of(members)[i] == members[i].value);
            }
            assert forall|i: int| 0 <= i < keys_of(members).len() implies well_formed(
                #[trigger] keys_of(members)[i],
            ) by {
                assert(keys_of(members)[i] == DataView::String(members[i].key));
            }
        },
        _ => {},
    }
}

/// `chunked`, `alternate`, `split`, `lines`, `default` and `coalesce` return
/// something well formed of something well formed.
pub proof fn lemma_compositions_keep_order(
    v: DataView,
    function: Seq<char>,
    arguments: Seq<DataView>,
)
    requires
        well_formed(v),
        all_well_formed(arguments),
    ensures
        keeps_order(chunked_outcome(v, function, arguments)),
        keeps_order(alternate_outcome(v, function, arguments)),
        keeps_order(split_outcome(v, function, arguments)),
        keeps_order(lines_outcome(v)),
        keeps_order(default_outcome(v, function, arguments)),
        keeps_order(coalesce_outcome(v, function, arguments)),
{
    if arguments.len() > 0 {
        assert(well_formed(arguments[0]));
    }
    match v {
        DataView::String(text) => {
            lemma_strings_well_formed(crate::words::lines_of(crate::text::trimmed(text)));
            if arguments.len() > 0 {
                match arguments[0] {
                    DataView::String(separator) => {
                        lemma_strings_well_formed(crate::search::split(text, separator));
                    },
                    _ => {},
                }
            }
        },
        DataView::Array(items) => {
            if arguments.len() > 1 {
                match (index_in(arguments[0]), index_in(arguments[1])) {
                    (Ok(size), Ok(overlap)) => {
                        lemma_windows_well_formed(items, size, size - overlap, 0);
                    },
                    _ => {},
                }
            }
        },
        _ => {},
    }
    if arguments.len() > 0 {
        match (index_in(v), items_in(arguments[0])) {
            (Ok(index), Ok(items)) => {
                if items.len() > 0 {
                    let len = items.len() as int;
                    assert(0 <= index % len < len) by (nonlinear_arith)
                        requires
                            0 <= index,
                            0 < len,
                    ;
                    assert(well_formed(items[index % len]));
                }
            },
            _ => {},
        }
    }
}

/// A function of the library, but for the one that reads JSON, returns
/// something well formed of a well-formed value and well-formed arguments.
#[verifier::rlimit(100)]
#[verifier::spinoff_prover]
pub proof fn law_functions_keep_order(
    v: DataView,
    function: Seq<char>,
    arguments: Seq<DataView>,
    host: HostView,
)
    requires
        well_formed(v),
        all_well_formed(arguments),
        function != "fromJson"@,
    ensures
        keeps_order(applied(v, function, arguments, host)),
{
    reveal(applied);
    lemma_selections_keep_order(v, function, arguments);
    lemma_compositions_keep_order(v, function, arguments);
}

/// Whether the text of every floating-point number in a value reads as
/// that number.
pub open spec fn faithful(v: DataView) -> bool
    decreases v,
{
    match v {
        DataView::Number(NumberView::Float(text)) => json_read(text) == Ok::<
            DataView,
            Seq<char>,
        >(v),
        DataView::Array(items) => forall|i: int|
            0 <= i < items.len() ==> faithful(#[trigger] items[i]),
        DataView::Object(members) => forall|i: int|
            0 <= i < members.len() ==> faithful((#[trigger] members[i]).value),
        _ => true,
    }
}

/// The JSON document of a well-formed value in which the text of every
/// floating-point number reads as that number holds the value itself.
pub proof fn law_document_holds_value(v: DataView)
    requires
        well_formed(v),
        faithful(v),
    ensures
        json_image(v) == Some(v),
    decreases v, 1int,
{
    match v {
        DataView::Array(items) => {
            lemma_documents_hold_items(items, items.len() as int);
            assert(items.take(items.len() as int) =~= items);
        },
        DataView::Object(members) => {
            lemma_documents_hold_members(members, members.len() as int);
            assert(members.take(members.len() as int) =~= members);
        },
        _ => {},
    }
}

/// The documents of the first `k` items hold those items.
pub proof fn lemma_documents_hold_items(items: Seq<DataView>, k: int)
    requires
        0 <= k <= items.len(),
        all_well_formed(items),
        forall|i: int| 0 <= i < items.len() ==> faithful(#[trigger] items[i]),
    ensures
        json_items(items.take(k)) == Some(items.take(k)),
    decreases items, 0int, k,
{
    if k == 0 {
        assert(items.take(0) =~= Seq::<DataView>::empty());
    } else {
        lemma_documents_hold_items(items, k - 1);
        assert(items.take(k).drop_last() =~= items.take(k - 1));
        assert(items.take(k).last() == items[k - 1]);
        assert(well_formed(items[k - 1]));
        law_document_holds_value(items[k - 1]);
        assert(items.take(k - 1).push(items[k - 1]) =~= items.take(k));
    }
}

/// The documents of the first `k` members hold those members.
pub proof fn lemma_documents_hold_members(members: Seq<MemberView>, k: int)
    requires
        0 <= k <= members.len(),
        well_formed(DataView::Object(members)),
        forall|i: int| 0 <= i < members.len() ==> faithful((#[trigger] members[i]).value),
    ensures
        json_members(members.take(k)) == Some(members.take(k)),
    decreases members, 0int, k,
{
    if k == 0 {
        assert(members.take(0) =~= Seq::<MemberView>::empty());
    } else {
        lemma_documents_hold_members(members, k - 1);
        let before = members.take(k - 1);
        let last = members[k - 1];
        assert(members.take(k).drop_last() =~= before);
        assert(members.take(k).last() == last);
        assert(well_formed(last.value));
        law_document_holds_value(last.value);
        assert forall|j: int| 0 <= j < before.len() implies text_lt(
            (#[trigger] before[j]).key,
            last.key,
        ) by {
            lemma_ascending_pairs(members, j, k - 1);
        }
        lemma_with_member_at(before, last.key, last.value, k - 1);
        assert(before.take(k - 1) =~= before);
        assert(before.skip(k - 1) =~= Seq::<MemberView>::empty());
        assert(before + seq![last] + Seq::<MemberView>::empty() =~= members.take(k));
    }
}

} // verus!
