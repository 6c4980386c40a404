use vstd::prelude::*;
use serde_json::Value as Json;
use crate::data::{
    ascending, lemma_array_view, lemma_object_view, member_views, views, well_formed,
    with_member, Data, DataView, Member, MemberView, Number, NumberView,
};

verus! {

/// A JSON document as the JSON library holds it.
#[verifier::external_type_specification]
#[verifier::external_body]
pub struct ExJsonDocument(serde_json::Value);

/// What a JSON document holds.
pub uninterp spec fn json_content(document: serde_json::Value) -> DataView;

/// What reading `text` as JSON gives: what the document holds, or the
/// sentence that says why the text is no document.
pub uninterp spec fn json_read(text: Seq<char>) -> Result<DataView, Seq<char>>;

/// The text of a document that holds `content`, on one line.
pub uninterp spec fn json_compact(content: DataView) -> Option<Seq<char>>;

/// The text of a document that holds `content`, one item to a line and
/// indented.
pub uninterp spec fn json_pretty(content: DataView) -> Option<Seq<char>>;

/// The members of a JSON object made of `members` put in one after the
/// other: a later member takes the place of an earlier one with its key.
pub open spec fn json_members(members: Seq<MemberView>) -> Option<Seq<MemberView>>
    decreases members, 0int,
{
    if members.len() == 0 {
        Some(Seq::empty())
    } else {
        match (json_members(members.drop_last()), json_image(members.last().value)) {
            (Some(before), Some(value)) => Some(with_member(before, members.last().key, value)),
            _ => None,
        }
    }
}

/// The images of `items`, if each has one.
pub open spec fn json_items(items: Seq<DataView>) -> Option<Seq<DataView>>
    decreases items, 0int,
{
    if items.len() == 0 {
        Some(Seq::empty())
    } else {
        match (json_items(items.drop_last()), json_image(items.last())) {
            (Some(before), Some(value)) => Some(before.push(value)),
            _ => None,
        }
    }
}

/// What a JSON document made of a value holds, if one can be made: a
/// floating-point number becomes what its text reads as, and the members of
/// an object are put in one after the other.
pub open spec fn json_image(v: DataView) -> Option<DataView>
    decreases v, 1int,
{
    match v {
        DataView::Number(NumberView::Float(text)) => match json_read(text) {
            Ok(content) => Some(content),
            Err(_) => None,
        },
        DataView::Array(items) => match json_items(items) {
            Some(images) => Some(DataView::Array(images)),
            None => None,
        },
        DataView::Object(members) => match json_members(members) {
            Some(images) => Some(DataView::Object(images)),
            None => None,
        },
        _ => Some(v),
    }
}

/// What some documents hold, one for one.
pub open spec fn json_contents(documents: Seq<serde_json::Value>) -> Seq<DataView> {
    Seq::new(documents.len(), |i: int| json_content(documents[i]))
}

/// Makes the document of a value that is null, a boolean, an integer or a
/// string: an integer with `serde_json::Value::from`, which keeps its
/// amount, the others as the variant of the same name. Nothing comes back
/// for any other value.
#[verifier::external_body]
pub(crate) fn json_scalar(value: &Data) -> (r: Option<serde_json::Value>)
    ensures
        r is Some == (value@ is Null || value@ is Bool || value@ is String || (
        value@ matches DataView::Number(n) && n is Int)),
        r matches Some(document) ==> json_content(document) == value@,
{
    match value {
        Data::Null => Some(Json::Null),
        Data::Bool(flag) => Some(Json::Bool(*flag)),
        Data::Number(Number::Unsigned(n)) => Some(Json::from(*n)),
        Data::Number(Number::Signed(n)) => Some(Json::from(*n)),
        Data::String(text) => Some(Json::String(text.clone())),
        _ => None,
    }
}

/// `serde_json::Value::Array` makes the document that holds the given
/// documents as its items, in order.
#[verifier::external_body]
pub(crate) fn json_array(items: Vec<serde_json::Value>) -> (r: serde_json::Value)
    ensures
        json_content(r) == DataView::Array(json_contents(items@)),
{
    Json::Array(items)
}

/// `serde_json::Map::new` makes the members of a document that is an object
/// without members.
#[verifier::external_body]
pub(crate) fn json_empty_object() -> (r: serde_json::Value)
    ensures
        json_content(r) == DataView::Object(Seq::<MemberView>::empty()),
{
    Json::Object(serde_json::Map::new())
}

/// `serde_json::Map::insert` puts a document under a key among the members
/// of an object: in place of the member that had the key, or else where the
/// order of the keys wants it. The members of a document are in the order of
/// their keys, which are compared character by character.
#[verifier::external_body]
pub(crate) fn json_insert(object: &mut serde_json::Value, key: String, value: serde_json::Value)
    requires
        json_content(*old(object)) is Object,
    ensures
        json_content(*final(object)) == DataView::Object(
            with_member(json_content(*old(object))->Object_0, key@, json_content(value)),
        ),
{
    if let Json::Object(members) = object {
        members.insert(key, value);
    }
}

/// Makes the JSON document of a value: nothing where the text of a
/// floating-point number in it cannot be read.
pub fn json_of(value: &Data) -> (r: Option<serde_json::Value>)
    ensures
        r is Some == json_image(value@) is Some,
        r matches Some(document) ==> json_image(value@) == Some(json_content(document)),
    decreases value,
{
    match value {
        Data::Number(Number::Float(text)) => match read_json(text.as_str()) {
            Ok(document) => Some(document),
            Err(_) => None,
        },
        Data::Array(items) => {
            proof {
                lemma_array_view(*items);
            }
            let ghost all = views(items@);
            let mut documents: Vec<serde_json::Value> = Vec::new();
            let mut i: usize = 0;
            assert(all.take(0) =~= Seq::<DataView>::empty());
            assert(json_contents(documents@) =~= Seq::<DataView>::empty());
            while i < items.len()
                invariant
                    *value == Data::Array(*items),
                    value@ == DataView::Array(all),
                    all == views(items@),
                    i <= items.len(),
                    json_items(all.take(i as int)) == Some(json_contents(documents@)),
                decreases items.len() - i,
            {
                proof {
                    assert(all.take(i + 1).drop_last() =~= all.take(i as int));
                    assert(all.take(i + 1).last() == all[i as int]);
                    assert(decreases_to!(*value => value->Array_0));
                    assert(decreases_to!(*items => items@));
                    assert(decreases_to!(items@ => items@[i as int]));
                }
                match json_of(&items[i]) {
                    Some(document) => {
                        let ghost before = json_contents(documents@);
                        documents.push(document);
                        assert(json_contents(documents@) =~= before.push(json_content(document)));
                    },
                    None => {
                        proof {
                            lemma_json_items_fail(all, i + 1);
                        }
                        return None;
                    },
                }
                i += 1;
            }
            assert(all.take(items.len() as int) =~= all);
            Some(json_array(documents))
        },
        Data::Object(members) => {
            proof {
                lemma_object_view(*members);
            }
            let ghost all = member_views(members@);
            let mut object = json_empty_object();
            let mut i: usize = 0;
            assert(all.take(0) =~= Seq::<MemberView>::empty());
            while i < members.len()
                invariant
                    *value == Data::Object(*members),
                    value@ == DataView::Object(all),
                    all == member_views(members@),
                    i <= members.len(),
                    json_content(object) is Object,
                    json_members(all.take(i as int)) == Some(json_content(object)->Object_0),
                decreases members.len() - i,
            {
                proof {
                    assert(all.take(i + 1).drop_last() =~= all.take(i as int));
                    assert(all.take(i + 1).last() == all[i as int]);
                    assert(decreases_to!(*value => value->Object_0));
                    assert(decreases_to!(*members => members@));
                    assert(decreases_to!(members@ => members@[i as int]));
                    assert(decreases_to!(members@[i as int] => members@[i as int].value));
                }
                match json_of(&members[i].value) {
                    Some(document) => {
                        json_insert(&mut object, members[i].key.clone(), document);
                    },
                    None => {
                        proof {
                            lemma_json_members_fail(all, i + 1);
                        }
                        return None;
                    },
                }
                i += 1;
            }
            assert(all.take(members.len() as int) =~= all);
            Some(object)
        },
        _ => json_scalar(value),
    }
}

/// Items have no images if the first of them have none.
pub proof fn lemma_json_items_fail(items: Seq<DataView>, k: int)
    requires
        0 <= k <= items.len(),
        json_items(items.take(k)) is None,
    ensures
        json_items(items) is None,
    decreases items.len() - k,
{
    if k == items.len() {
        assert(items.take(k) =~= items);
    } else {
        assert(items.drop_last().take(k) =~= items.take(k));
        lemma_json_items_fail(items.drop_last(), k);
    }
}

/// Members have no images if the first of them have none.
pub proof fn lemma_json_members_fail(members: Seq<MemberView>, k: int)
    requires
        0 <= k <= members.len(),
        json_members(members.take(k)) is None,
    ensures
        json_members(members) is None,
    decreases members.len() - k,
{
    if k == members.len() {
        assert(members.take(k) =~= members);
    } else {
        assert(members.drop_last().take(k) =~= members.take(k));
        lemma_json_members_fail(members.drop_last(), k);
    }
}

/// Reads a document that is null, a boolean, a number or a string, variant by
/// variant: an integer with `serde_json::Number::as_u64` or `as_i64`, a
/// floating-point number as the text that `to_string` gives it. Nothing
/// comes back for an array or an object.
#[verifier::external_body]
pub(crate) fn json_scalar_of(document: &serde_json::Value) -> (r: Option<Data>)
    ensures
        r is Some == !(json_content(*document) is Array || json_content(*document) is Object),
        r matches Some(value) ==> value@ == json_content(*document),
{
    match document {
        Json::Null => Some(Data::Null),
        Json::Bool(flag) => Some(Data::Bool(*flag)),
        Json::Number(n) => Some(
            Data::Number(
                n.as_u64().map(Number::Unsigned).or(n.as_i64().map(Number::Signed)).unwrap_or_else(
                    || Number::Float(n.to_string()),
                ),
            ),
        ),
        Json::String(text) => Some(Data::String(text.clone())),
        _ => None,
    }
}

/// `serde_json::Value::as_array` hands out the items of a document that is
/// an array, in order, and nothing for any other document.
#[verifier::external_body]
pub(crate) fn json_items_of(document: &serde_json::Value) -> (r: Option<Vec<serde_json::Value>>)
    ensures
        r is Some == json_content(*document) is Array,
        r matches Some(items) ==> json_contents(items@) == json_content(*document)->Array_0,
{
    document.as_array().cloned()
}

/// `serde_json::Value::as_object` hands out the members of a document that
/// is an object, and `serde_json::Map::keys` their keys in ascending order,
/// the order in which a document holds its members. Nothing comes back for
/// any other document.
#[verifier::external_body]
pub(crate) fn json_keys_of(document: &serde_json::Value) -> (r: Option<Vec<String>>)
    ensures
        r is Some == json_content(*document) is Object,
        r matches Some(keys) ==> {
            let members = json_content(*document)->Object_0;
            &&& keys@.len() == members.len()
            &&& forall|i: int| 0 <= i < keys@.len() ==> (#[trigger] keys@[i])@ == members[i].key
            &&& ascending(members)
        },
{
    document.as_object().map(|members| members.keys().cloned().collect())
}

/// `serde_json::Map::values` hands out the values of the members of a
/// document that is an object, in the order of the members.
#[verifier::external_body]
pub(crate) fn json_values_of(document: &serde_json::Value) -> (r: Vec<serde_json::Value>)
    requires
        json_content(*document) is Object,
    ensures
        json_contents(r@) == Seq::new(
            json_content(*document)->Object_0.len(),
            |i: int| json_content(*document)->Object_0[i].value,
        ),
{
    document.as_object().map(|members| members.values().cloned().collect()).unwrap_or_default()
}

/// What a JSON document holds, as a value of the library: well formed.
pub fn value_of(document: &serde_json::Value) -> (r: Data)
    ensures
        r@ == json_content(*document),
        well_formed(r@),
    decreases json_content(*document),
{
    if let Some(scalar) = json_scalar_of(document) {
        return scalar;
    }
    let ghost content = json_content(*document);
    if let Some(documents) = json_items_of(document) {
        let ghost all = content->Array_0;
        let mut items: Vec<Data> = Vec::new();
        let mut i: usize = 0;
        while i < documents.len()
            invariant
                content == json_content(*document),
                content == DataView::Array(all),
                json_contents(documents@) == all,
                i <= documents.len(),
                items@.len() == i,
                forall|j: int| 0 <= j < i ==> (#[trigger] items@[j])@ == all[j] && well_formed(all[j]),
            decreases documents.len() - i,
        {
            proof {
                assert(json_contents(documents@)[i as int] == json_content(documents@[i as int]));
                assert(decreases_to!(content => content->Array_0));
                assert(decreases_to!(all => all[i as int]));
            }
            let item = value_of(&documents[i]);
            let ghost before = items@;
            items.push(item);
            proof {
                assert(item@ == all[i as int]);
                assert(well_formed(all[i as int]));
                assert forall|j: int| 0 <= j < i + 1 implies (#[trigger] items@[j])@ == all[j]
                    && well_formed(all[j]) by {
                    if j < i {
                        assert(items@[j] == before[j]);
                    }
                }
            }
            i += 1;
        }
        proof {
            lemma_array_view(items);
            assert(views(items@) =~= all);
        }
        return Data::Array(items);
    }
    match json_keys_of(document) {
        Some(keys) => {
            let ghost all = content->Object_0;
            let documents = json_values_of(document);
            let mut members: Vec<Member> = Vec::new();
            let mut i: usize = 0;
            assert(json_contents(documents@).len() == all.len());
            assert forall|j: int| 0 <= j < all.len() implies json_content(
                #[trigger] documents@[j],
            ) == all[j].value by {
                assert(json_contents(documents@)[j] == json_content(documents@[j]));
            }
            while i < keys.len()
                invariant
                    content == json_content(*document),
                    content == DataView::Object(all),
                    keys@.len() == all.len(),
                    documents@.len() == all.len(),
                    forall|j: int| 0 <= j < keys@.len() ==> (#[trigger] keys@[j])@ == all[j].key,
                    forall|j: int|
                        0 <= j < all.len() ==> json_content(#[trigger] documents@[j]) == all[j].value,
                    i <= keys.len(),
                    members@.len() == i,
                    forall|j: int|
                        0 <= j < i ==> (#[trigger] members@[j])@ == all[j] && well_formed(all[j].value),
                decreases keys.len() - i,
            {
                proof {
                    assert(decreases_to!(content => content->Object_0));
                    assert(decreases_to!(all => all[i as int]));
                    assert(decreases_to!(all[i as int] => all[i as int].value));
                }
                let value = value_of(&documents[i]);
                let member = Member { key: keys[i].clone(), value };
                assert(member@ == all[i as int]);
                members.push(member);
                i += 1;
            }
            proof {
                lemma_object_view(members);
                assert(member_views(members@) =~= all);
            }
            Data::Object(members)
        },
        None => Data::Null,
    }
}

/// `serde_json::from_str` reads a text as a JSON document; where it fails,
/// the text of its error comes back. The call depends on its argument alone.
#[verifier::external_body]
pub(crate) fn read_json(text: &str) -> (r: Result<serde_json::Value, String>)
    ensures
        match r {
            Ok(document) => json_read(text@) == Ok::<DataView, Seq<char>>(json_content(document)),
            Err(reason) => json_read(text@) == Err::<DataView, Seq<char>>(reason@),
        },
{
    match serde_json::from_str::<serde_json::Value>(text) {
        Ok(document) => Ok(document),
        Err(error) => Err(error.to_string()),
    }
}

/// `serde_json::to_string` writes a document on one line. The call depends
/// on what the document holds alone.
#[verifier::external_body]
pub(crate) fn write_json(document: &serde_json::Value) -> (r: Option<String>)
    ensures
        r is Some == json_compact(json_content(*document)) is Some,
        r matches Some(text) ==> json_compact(json_content(*document)) == Some(text@),
{
    serde_json::to_string(document).ok()
}

/// `serde_json::to_string_pretty` writes a document one item to a line and
/// indented. The call depends on what the document holds alone.
#[verifier::external_body]
pub(crate) fn write_json_pretty(document: &serde_json::Value) -> (r: Option<String>)
    ensures
        r is Some == json_pretty(json_content(*document)) is Some,
        r matches Some(text) ==> json_pretty(json_content(*document)) == Some(text@),
{
    serde_json::to_string_pretty(document).ok()
}

} // verus!
