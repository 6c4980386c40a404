use vstd::prelude::*;
use crate::text::{chars_of, compare_text, lemma_text_lt_total, text_lt, Rank};
use vstd::string::StringExecFns;

verus! {

/// The mathematical content of a [`Number`].
pub enum NumberView {
    /// An exact integer.
    Int(int),
    /// A floating-point number, identified by its shortest decimal text.
    Float(Seq<char>),
}

/// The mathematical content of a [`Data`].
pub enum DataView {
    Null,
    Bool(bool),
    Number(NumberView),
    String(Seq<char>),
    Array(Seq<DataView>),
    Object(Seq<MemberView>),
}

/// The mathematical content of a [`Member`].
pub struct MemberView {
    pub key: Seq<char>,
    pub value: DataView,
}

/// A number that keeps its provenance: an integer stays an integer, a
/// floating-point number stays one.
#[derive(Debug)]
pub enum Number {
    /// An integer that is not negative.
    Unsigned(u64),
    /// An integer that may be negative.
    Signed(i64),
    /// A finite floating-point number, held as its shortest decimal text
    /// (`1.0`, `-0.0`, `1e16`).
    Float(String),
}

/// A structured value: the configuration handed to a template and every
/// intermediate result of an expression.
#[derive(Debug)]
pub enum Data {
    Null,
    Bool(bool),
    Number(Number),
    String(String),
    Array(Vec<Data>),
    /// The members of an object, in ascending order of their keys.
    Object(Vec<Member>),
}

/// A member of an object: a value under a key.
#[derive(Debug)]
pub struct Member {
    pub key: String,
    pub value: Data,
}

impl View for Number {
    type V = NumberView;

    open spec fn view(&self) -> NumberView {
        match self {
            Number::Unsigned(n) => NumberView::Int(*n as int),
            Number::Signed(n) => NumberView::Int(*n as int),
            Number::Float(text) => NumberView::Float(text@),
        }
    }
}

impl View for Data {
    type V = DataView;

    open spec fn view(&self) -> DataView
        decreases self,
    {
        match self {
            Data::Null => DataView::Null,
            Data::Bool(b) => DataView::Bool(*b),
            Data::Number(n) => DataView::Number(n@),
            Data::String(s) => DataView::String(s@),
            Data::Array(items) => DataView::Array(
                Seq::new(items@.len(), |i: int| if 0 <= i < items@.len() { items@[i].view() } else { DataView::Null }),
            ),
            Data::Object(members) => DataView::Object(
                Seq::new(
                    members@.len(),
                    |i: int|
                        if 0 <= i < members@.len() {
                            MemberView { key: members@[i].key@, value: members@[i].value.view() }
                        } else {
                            MemberView { key: Seq::empty(), value: DataView::Null }
                        },
                ),
            ),
        }
    }
}

/// The contents of the values of a sequence, one for one.
pub open spec fn views(items: Seq<Data>) -> Seq<DataView> {
    Seq::new(items.len(), |i: int| items[i]@)
}

/// The contents of the members of a sequence, one for one.
pub open spec fn member_views(members: Seq<Member>) -> Seq<MemberView> {
    Seq::new(members.len(), |i: int| members[i]@)
}

impl View for Member {
    type V = MemberView;

    open spec fn view(&self) -> MemberView {
        MemberView { key: self.key@, value: self.value@ }
    }
}

impl Clone for Member {
    fn clone(&self) -> (r: Member)
        ensures
            r@ == self@,
    {
        Member { key: self.key.clone(), value: self.value.duplicate() }
    }
}

/// The content of an array is the contents of its items.
pub proof fn lemma_array_view(items: Vec<Data>)
    ensures
        Data::Array(items)@ == DataView::Array(views(items@)),
{
    assert(Data::Array(items)@->Array_0 =~= views(items@));
}

/// The content of an object is the contents of its members.
pub proof fn lemma_object_view(members: Vec<Member>)
    ensures
        Data::Object(members)@ == DataView::Object(member_views(members@)),
{
    assert(Data::Object(members)@->Object_0 =~= member_views(members@));
}

/// Whether a text is one that writes the floating-point number zero.
pub open spec fn is_zero_text(text: Seq<char>) -> bool {
    text == seq!['0', '.', '0'] || text == seq!['-', '0', '.', '0']
}

/// Whether two numbers are equal: two integers of the same amount, or two
/// floating-point numbers of the same amount, where zero equals minus zero
/// unless `strict` holds.
pub open spec fn numbers_agree(a: NumberView, b: NumberView, strict: bool) -> bool {
    match (a, b) {
        (NumberView::Int(x), NumberView::Int(y)) => x == y,
        (NumberView::Float(x), NumberView::Float(y)) => x == y || (!strict && is_zero_text(x)
            && is_zero_text(y)),
        _ => false,
    }
}

/// Whether two values are equal: of the same kind, with equal scalars, equal
/// items in the same order, or equal members under equal keys. Numbers are
/// compared as [`numbers_agree`] says.
pub open spec fn agree(a: DataView, b: DataView, strict: bool) -> bool
    decreases a,
{
    match (a, b) {
        (DataView::Null, DataView::Null) => true,
        (DataView::Bool(x), DataView::Bool(y)) => x == y,
        (DataView::Number(x), DataView::Number(y)) => numbers_agree(x, y, strict),
        (DataView::String(x), DataView::String(y)) => x == y,
        (DataView::Array(x), DataView::Array(y)) => x.len() == y.len() && forall|i: int|
            0 <= i < x.len() ==> agree(#[trigger] x[i], y[i], strict),
        (DataView::Object(x), DataView::Object(y)) => x.len() == y.len() && forall|i: int|
            0 <= i < x.len() ==> (#[trigger] x[i]).key == y[i].key && agree(
                x[i].value,
                y[i].value,
                strict,
            ),
        _ => false,
    }
}

/// Whether two values are structurally equal, zero and minus zero being
/// equal.
pub open spec fn same_value(a: DataView, b: DataView) -> bool {
    agree(a, b, false)
}

/// Two values agree strictly exactly if they are the same.
pub proof fn lemma_agree_strict(a: DataView, b: DataView)
    ensures
        agree(a, b, true) == (a == b),
    decreases a,
{
    match (a, b) {
        (DataView::Array(x), DataView::Array(y)) => {
            if x.len() == y.len() {
                assert forall|i: int| 0 <= i < x.len() implies agree(#[trigger] x[i], y[i], true) == (
                x[i] == y[i]) by {
                    lemma_agree_strict(x[i], y[i]);
                }
                if agree(a, b, true) {
                    assert(x =~= y);
                }
            }
        },
        (DataView::Object(x), DataView::Object(y)) => {
            if x.len() == y.len() {
                assert forall|i: int| 0 <= i < x.len() implies agree(
                    (#[trigger] x[i]).value,
                    y[i].value,
                    true,
                ) == (x[i].value == y[i].value) by {
                    lemma_agree_strict(x[i].value, y[i].value);
                }
                if agree(a, b, true) {
                    assert(x =~= y);
                }
            }
        },
        _ => {},
    }
}

/// Whether the characters of `text` are those of a zero.
fn zero_text(text: &Vec<char>) -> (r: bool)
    ensures
        r == is_zero_text(text@),
{
    if text.len() == 3 {
        let r = text[0] == '0' && text[1] == '.' && text[2] == '0';
        assert(r == (text@ =~= seq!['0', '.', '0']));
        r
    } else if text.len() == 4 {
        let r = text[0] == '-' && text[1] == '0' && text[2] == '.' && text[3] == '0';
        assert(r == (text@ =~= seq!['-', '0', '.', '0']));
        r
    } else {
        false
    }
}

impl Number {
    /// Whether the number is zero.
    pub open spec fn is_zero(n: NumberView) -> bool {
        match n {
            NumberView::Int(i) => i == 0,
            NumberView::Float(text) => is_zero_text(text),
        }
    }

    /// The number as an index: itself if it is an integer from zero on.
    pub open spec fn index_of(n: NumberView) -> Option<int> {
        match n {
            NumberView::Int(i) => if 0 <= i { Some(i) } else { None },
            NumberView::Float(_) => None,
        }
    }

    /// Decides [`Number::is_zero`].
    pub fn zero(&self) -> (r: bool)
        ensures
            r == Number::is_zero(self@),
    {
        match self {
            Number::Unsigned(n) => *n == 0,
            Number::Signed(n) => *n == 0,
            Number::Float(text) => zero_text(&chars_of(text.as_str())),
        }
    }

    /// Computes [`Number::index_of`].
    pub fn as_index(&self) -> (r: Option<u64>)
        ensures
            r is Some == Number::index_of(self@) is Some,
            r matches Some(i) ==> Number::index_of(self@) == Some(i as int),
    {
        match self {
            Number::Unsigned(n) => Some(*n),
            Number::Signed(n) => if *n >= 0 { Some(*n as u64) } else { None },
            Number::Float(_) => None,
        }
    }

    /// Decides [`numbers_agree`].
    pub fn agrees(&self, other: &Number, strict: bool) -> (r: bool)
        ensures
            r == numbers_agree(self@, other@, strict),
    {
        match self {
            Number::Float(x) => match other {
                Number::Float(y) => {
                    let a = chars_of(x.as_str());
                    let b = chars_of(y.as_str());
                    compare_text(&a, &b) == Rank::Same || (!strict && zero_text(&a) && zero_text(&b))
                },
                _ => false,
            },
            Number::Unsigned(x) => match other {
                Number::Unsigned(y) => *x == *y,
                Number::Signed(y) => *y >= 0 && *x == *y as u64,
                Number::Float(_) => false,
            },
            Number::Signed(x) => match other {
                Number::Unsigned(y) => *x >= 0 && *x as u64 == *y,
                Number::Signed(y) => *x == *y,
                Number::Float(_) => false,
            },
        }
    }
}

impl Clone for Number {
    fn clone(&self) -> (r: Number)
        ensures
            r@ == self@,
    {
        match self {
            Number::Unsigned(n) => Number::Unsigned(*n),
            Number::Signed(n) => Number::Signed(*n),
            Number::Float(text) => Number::Float(text.clone()),
        }
    }
}

impl Clone for Data {
    fn clone(&self) -> (r: Data)
        ensures
            r@ == self@,
    {
        self.duplicate()
    }
}

impl Data {
    /// A copy of the value, independent of it.
    pub fn duplicate(&self) -> (r: Data)
        ensures
            r@ == self@,
        decreases self,
    {
        match self {
            Data::Null => Data::Null,
            Data::Bool(b) => Data::Bool(*b),
            Data::Number(n) => Data::Number(n.clone()),
            Data::String(s) => Data::String(s.clone()),
            Data::Array(items) => {
                let mut out: Vec<Data> = Vec::new();
                let mut i: usize = 0;
                while i < items.len()
                    invariant
                        *self == Data::Array(*items),
                        i <= items.len(),
                        out@.len() == i,
                        forall|j: int| 0 <= j < i ==> (#[trigger] out@[j])@ == items@[j]@,
                    decreases items.len() - i,
                {
                    proof {
                        assert(decreases_to!(*self => self->Array_0));
                        assert(decreases_to!(*items => items@));
                        assert(decreases_to!(items@ => items@[i as int]));
                    }
                    out.push(items[i].duplicate());
                    i += 1;
                }
                proof {
                    lemma_array_view(out);
                    lemma_array_view(*items);
                    assert(views(out@) =~= views(items@));
                }
                Data::Array(out)
            },
            Data::Object(members) => {
                let mut out: Vec<Member> = Vec::new();
                let mut i: usize = 0;
                while i < members.len()
                    invariant
                        *self == Data::Object(*members),
                        i <= members.len(),
                        out@.len() == i,
                        forall|j: int| 0 <= j < i ==> (#[trigger] out@[j])@ == members@[j]@,
                    decreases members.len() - i,
                {
                    proof {
                        assert(decreases_to!(*self => self->Object_0));
                        assert(decreases_to!(*members => members@));
                        assert(decreases_to!(members@ => members@[i as int]));
                        assert(decreases_to!(members@[i as int] => members@[i as int].value));
                    }
                    let key = members[i].key.clone();
                    let value = members[i].value.duplicate();
                    out.push(Member { key, value });
                    i += 1;
                }
                proof {
                    lemma_object_view(out);
                    lemma_object_view(*members);
                    assert(member_views(out@) =~= member_views(members@));
                }
                Data::Object(out)
            },
        }
    }
}

/// The value under `key` among `members`: that of the first member with
/// that key, or null if there is none.
pub open spec fn lookup(members: Seq<MemberView>, key: Seq<char>) -> DataView
    decreases members.len(),
{
    if members.len() == 0 {
        DataView::Null
    } else if members[0].key == key {
        members[0].value
    } else {
        lookup(members.skip(1), key)
    }
}

/// Whether one of `members` has the key `key`.
pub open spec fn has_key(members: Seq<MemberView>, key: Seq<char>) -> bool {
    exists|i: int| 0 <= i < members.len() && (#[trigger] members[i]).key == key
}

/// What a value holds under a name: the member of that name if the value is
/// an object that has one, null in every other case.
pub open spec fn property(v: DataView, name: Seq<char>) -> DataView {
    match v {
        DataView::Object(members) => lookup(members, name),
        _ => DataView::Null,
    }
}

/// `members` with `value` under `key`: in place of the member that had the
/// key, or else before the first member whose key comes after it.
pub open spec fn with_member(members: Seq<MemberView>, key: Seq<char>, value: DataView) -> Seq<
    MemberView,
>
    decreases members.len(),
{
    let fresh = MemberView { key, value };
    if members.len() == 0 {
        seq![fresh]
    } else if text_lt(members[0].key, key) {
        seq![members[0]] + with_member(members.skip(1), key, value)
    } else if members[0].key == key {
        seq![fresh] + members.skip(1)
    } else {
        seq![fresh] + members
    }
}

/// Whether the keys of `members` ascend: each comes before the next.
pub open spec fn ascending(members: Seq<MemberView>) -> bool {
    forall|i: int| 0 < i < members.len() ==> text_lt(members[i - 1].key, #[trigger] members[i].key)
}

/// Whether a value is well formed: the keys of every object in it ascend.
pub open spec fn well_formed(v: DataView) -> bool
    decreases v,
{
    match v {
        DataView::Array(items) => forall|i: int|
            0 <= i < items.len() ==> well_formed(#[trigger] items[i]),
        DataView::Object(members) => ascending(members) && forall|i: int|
            0 <= i < members.len() ==> well_formed((#[trigger] members[i]).value),
        _ => true,
    }
}

impl Data {
    /// Decides [`same_value`].
    pub fn equals(&self, other: &Data) -> (r: bool)
        ensures
            r == same_value(self@, other@),
    {
        self.agrees(other, false)
    }

    /// Decides whether two values hold the same.
    pub fn identical(&self, other: &Data) -> (r: bool)
        ensures
            r == (self@ == other@),
    {
        proof {
            lemma_agree_strict(self@, other@);
        }
        self.agrees(other, true)
    }

    /// Decides [`agree`].
    pub fn agrees(&self, other: &Data, strict: bool) -> (r: bool)
        ensures
            r == agree(self@, other@, strict),
        decreases self,
    {
        match self {
            Data::Null => match other {
                Data::Null => true,
                _ => false,
            },
            Data::Bool(x) => match other {
                Data::Bool(y) => *x == *y,
                _ => false,
            },
            Data::Number(x) => match other {
                Data::Number(y) => x.agrees(y, strict),
                _ => false,
            },
            Data::String(x) => match other {
                Data::String(y) => *x == *y,
                _ => false,
            },
            Data::Array(x) => match other {
                Data::Array(y) => {
                    proof {
                        lemma_array_view(*x);
                        lemma_array_view(*y);
                    }
                    if x.len() != y.len() {
                        return false;
                    }
                    let mut i: usize = 0;
                    while i < x.len()
                        invariant
                            *self == Data::Array(*x),
                            self@ == DataView::Array(views(x@)),
                            other@ == DataView::Array(views(y@)),
                            i <= x.len(),
                            x.len() == y.len(),
                            forall|j: int| 0 <= j < i ==> agree(#[trigger] x@[j]@, y@[j]@, strict),
                        decreases x.len() - i,
                    {
                        proof {
                            assert(decreases_to!(*self => self->Array_0));
                            assert(decreases_to!(*x => x@));
                            assert(decreases_to!(x@ => x@[i as int]));
                        }
                        if !x[i].agrees(&y[i], strict) {
                            assert(!agree(views(x@)[i as int], views(y@)[i as int], strict));
                            return false;
                        }
                        i += 1;
                    }
                    assert forall|j: int| 0 <= j < views(x@).len() implies agree(
                        #[trigger] views(x@)[j],
                        views(y@)[j],
                        strict,
                    ) by {
                        assert(agree(x@[j]@, y@[j]@, strict));
                    }
                    true
                },
                _ => false,
            },
            Data::Object(x) => match other {
                Data::Object(y) => {
                    proof {
                        lemma_object_view(*x);
                        lemma_object_view(*y);
                    }
                    if x.len() != y.len() {
                        return false;
                    }
                    let mut i: usize = 0;
                    while i < x.len()
                        invariant
                            *self == Data::Object(*x),
                            self@ == DataView::Object(member_views(x@)),
                            other@ == DataView::Object(member_views(y@)),
                            i <= x.len(),
                            x.len() == y.len(),
                            forall|j: int|
                                0 <= j < i ==> (#[trigger] x@[j]).key@ == y@[j].key@ && agree(
                                    x@[j].value@,
                                    y@[j].value@,
                                    strict,
                                ),
                        decreases x.len() - i,
                    {
                        proof {
                            assert(decreases_to!(*self => self->Object_0));
                            assert(decreases_to!(*x => x@));
                            assert(decreases_to!(x@ => x@[i as int]));
                            assert(decreases_to!(x@[i as int] => x@[i as int].value));
                        }
                        if !(x[i].key == y[i].key) || !x[i].value.agrees(&y[i].value, strict) {
                            assert(!(member_views(x@)[i as int].key == member_views(y@)[i as int].key
                                && agree(
                                member_views(x@)[i as int].value,
                                member_views(y@)[i as int].value,
                                strict,
                            )));
                            return false;
                        }
                        i += 1;
                    }
                    assert forall|j: int| 0 <= j < member_views(x@).len() implies (
                    #[trigger] member_views(x@)[j]).key == member_views(y@)[j].key && agree(
                        member_views(x@)[j].value,
                        member_views(y@)[j].value,
                        strict,
                    ) by {
                        assert(x@[j].key@ == y@[j].key@);
                    }
                    true
                },
                _ => false,
            },
        }
    }

    /// What the value holds under `name`: a copy of the member of that name
    /// if the value is an object that has one, null in every other case.
    pub fn property(&self, name: &str) -> (r: Data)
        ensures
            r@ == property(self@, name@),
    {
        match self {
            Data::Object(members) => {
                proof {
                    lemma_object_view(*members);
                }
                let wanted = String::from_str(name);
                let ghost all = member_views(members@);
                let mut i: usize = 0;
                assert(all.skip(0) =~= all);
                while i < members.len()
                    invariant
                        i <= members.len(),
                        all == member_views(members@),
                        self@ == DataView::Object(all),
                        wanted@ == name@,
                        lookup(all, name@) == lookup(all.skip(i as int), name@),
                    decreases members.len() - i,
                {
                    assert(all.skip(i as int)[0] == all[i as int]);
                    assert(all.skip(i as int).skip(1) =~= all.skip(i + 1));
                    if members[i].key == wanted {
                        return members[i].value.duplicate();
                    }
                    i += 1;
                }
                Data::Null
            },
            _ => Data::Null,
        }
    }
}

/// Putting a member into ascending members leaves them ascending.
pub proof fn lemma_with_member_ascending(members: Seq<MemberView>, key: Seq<char>, value: DataView)
    requires
        ascending(members),
    ensures
        ascending(with_member(members, key, value)),
        with_member(members, key, value).len() > 0,
        with_member(members, key, value)[0].key == key || (members.len() > 0 && with_member(
            members,
            key,
            value,
        )[0] == members[0]),
    decreases members.len(),
{
    let fresh = MemberView { key, value };
    let r = with_member(members, key, value);
    if members.len() == 0 {
    } else if text_lt(members[0].key, key) {
        let rest = members.skip(1);
        assert forall|i: int| 0 < i < rest.len() implies text_lt(
            rest[i - 1].key,
            #[trigger] rest[i].key,
        ) by {
            assert(rest[i] == members[i + 1]);
            assert(rest[i - 1] == members[i]);
        }
        lemma_with_member_ascending(rest, key, value);
        let tail = with_member(rest, key, value);
        assert(r =~= seq![members[0]] + tail);
        assert forall|i: int| 0 < i < r.len() implies text_lt(r[i - 1].key, #[trigger] r[i].key) by {
            if i == 1 {
                if tail[0].key != key {
                    assert(tail[0] == rest[0]);
                    assert(rest[0] == members[1]);
                }
            } else {
                assert(r[i] == tail[i - 1]);
                assert(r[i - 1] == tail[i - 2]);
            }
        }
    } else if members[0].key == key {
        assert(r =~= seq![fresh] + members.skip(1));
        assert forall|i: int| 0 < i < r.len() implies text_lt(r[i - 1].key, #[trigger] r[i].key) by {
            assert(r[i] == members[i]);
            assert(r[i - 1].key == members[i - 1].key);
        }
    } else {
        lemma_text_lt_total(members[0].key, key);
        assert(r =~= seq![fresh] + members);
        assert forall|i: int| 0 < i < r.len() implies text_lt(r[i - 1].key, #[trigger] r[i].key) by {
            assert(r[i] == members[i - 1]);
            if i > 1 {
                assert(r[i - 1] == members[i - 2]);
            }
        }
    }
}

/// Where [`with_member`] puts the member: after the `i` members whose keys
/// come before its key.
pub proof fn lemma_with_member_at(
    members: Seq<MemberView>,
    key: Seq<char>,
    value: DataView,
    i: int,
)
    requires
        0 <= i <= members.len(),
        forall|j: int| 0 <= j < i ==> text_lt((#[trigger] members[j]).key, key),
        i < members.len() ==> !text_lt(members[i].key, key),
    ensures
        with_member(members, key, value) == members.take(i) + seq![MemberView { key, value }] + (if i
            < members.len() && members[i].key == key {
            members.skip(i + 1)
        } else {
            members.skip(i)
        }),
    decreases i,
{
    let fresh = MemberView { key, value };
    let rest = if i < members.len() && members[i].key == key {
        members.skip(i + 1)
    } else {
        members.skip(i)
    };
    if i == 0 {
        assert(members.take(0) + seq![fresh] + rest =~= seq![fresh] + rest);
        if members.len() > 0 && members[0].key != key {
            assert(members.skip(0) =~= members);
        }
    } else {
        let tail = members.skip(1);
        assert forall|j: int| 0 <= j < i - 1 implies text_lt((#[trigger] tail[j]).key, key) by {
            assert(tail[j] == members[j + 1]);
        }
        assert(text_lt(members[0].key, key));
        lemma_with_member_at(tail, key, value, i - 1);
        assert(tail.skip(i - 1) =~= members.skip(i));
        if i < members.len() {
            assert(tail[i - 1] == members[i]);
            assert(tail.skip(i) =~= members.skip(i + 1));
        }
        assert(seq![members[0]] + (tail.take(i - 1) + seq![fresh] + rest) =~= members.take(i)
            + seq![fresh] + rest);
    }
}

/// Puts `value` under `key` among `members`, as [`with_member`] says.
pub fn insert_member(members: &mut Vec<Member>, key: String, value: Data)
    ensures
        member_views(final(members)@) == with_member(member_views(old(members)@), key@, value@),
{
    let wanted = chars_of(key.as_str());
    let ghost before = member_views(members@);
    let mut i: usize = 0;
    let mut found = false;
    while i < members.len()
        invariant_except_break
            !found,
        invariant
            i <= members.len(),
            members@ == old(members)@,
            before == member_views(members@),
            wanted@ == key@,
            forall|j: int| 0 <= j < i ==> text_lt((#[trigger] before[j]).key, key@),
        ensures
            i <= members.len(),
            members@ == old(members)@,
            forall|j: int| 0 <= j < i ==> text_lt((#[trigger] before[j]).key, key@),
            i < members.len() ==> !text_lt(before[i as int].key, key@),
            found == (i < members.len() && before[i as int].key == key@),
        decreases members.len() - i,
    {
        let rank = compare_text(&chars_of(members[i].key.as_str()), &wanted);
        if rank == Rank::Before {
            i += 1;
        } else {
            found = rank == Rank::Same;
            break;
        }
    }
    proof {
        lemma_with_member_at(before, key@, value@, i as int);
    }
    if found {
        members.remove(i);
    }
    members.insert(i, Member { key, value });
    assert(member_views(final(members)@) =~= with_member(before, key@, value@));
}

impl PartialEq for Data {
    fn eq(&self, other: &Data) -> (r: bool) {
        self.equals(other)
    }
}

impl vstd::std_specs::cmp::PartialEqSpecImpl for Data {
    open spec fn obeys_eq_spec() -> bool {
        true
    }

    open spec fn eq_spec(&self, other: &Data) -> bool {
        same_value(self@, other@)
    }
}

} // verus!
