use vstd::prelude::*;
use crate::text::slice_chars;

verus! {

/// Whether `pattern` stands in `s` at position `i`.
pub open spec fn occurs_at(s: Seq<char>, pattern: Seq<char>, i: int) -> bool {
    0 <= i && i + pattern.len() <= s.len() && s.subrange(i, i + pattern.len()) == pattern
}

/// The first position from `from` on at which `pattern` stands in `s`.
pub open spec fn find(s: Seq<char>, pattern: Seq<char>, from: int) -> Option<int>
    decreases s.len() - from,
{
    if from < 0 || from + pattern.len() > s.len() {
        None
    } else if occurs_at(s, pattern, from) {
        Some(from)
    } else if from < s.len() {
        find(s, pattern, from + 1)
    } else {
        None
    }
}

/// Whether `pattern` stands somewhere in `s`.
pub open spec fn contains_text(s: Seq<char>, pattern: Seq<char>) -> bool {
    find(s, pattern, 0) is Some
}

/// Whether `s` begins with `prefix`.
pub open spec fn starts_with(s: Seq<char>, prefix: Seq<char>) -> bool {
    occurs_at(s, prefix, 0)
}

/// Whether `s` ends with `suffix`.
pub open spec fn ends_with(s: Seq<char>, suffix: Seq<char>) -> bool {
    occurs_at(s, suffix, s.len() - suffix.len())
}

/// The parts of `s` from `from` on that a separator, which is not empty,
/// stands between: up to its first occurrence, then from behind that
/// occurrence, and so on.
pub open spec fn pieces(s: Seq<char>, separator: Seq<char>, from: int) -> Seq<Seq<char>>
    decreases s.len() - from,
{
    match find(s, separator, from) {
        Some(i) => if separator.len() > 0 && from <= i && i + separator.len() <= s.len() {
            seq![s.subrange(from, i)] + pieces(s, separator, i + separator.len())
        } else {
            seq![s.subrange(from, s.len() as int)]
        },
        None => seq![s.subrange(from, s.len() as int)],
    }
}

/// Each character of `s` as a text of its own.
pub open spec fn letters(s: Seq<char>) -> Seq<Seq<char>> {
    Seq::new(s.len(), |i: int| seq![s[i]])
}

/// The parts of `s` that `separator` stands between, empty ones included.
/// The empty separator stands before, between and behind all characters.
pub open spec fn split(s: Seq<char>, separator: Seq<char>) -> Seq<Seq<char>> {
    if separator.len() == 0 {
        seq![Seq::<char>::empty()] + letters(s) + seq![Seq::<char>::empty()]
    } else {
        pieces(s, separator, 0)
    }
}

/// The parts in order, with `glue` between each two.
pub open spec fn joined(parts: Seq<Seq<char>>, glue: Seq<char>) -> Seq<char>
    decreases parts.len(),
{
    if parts.len() == 0 {
        Seq::empty()
    } else if parts.len() == 1 {
        parts[0]
    } else {
        joined(parts.drop_last(), glue) + glue + parts.last()
    }
}

/// `s` with `replacement` in place of every occurrence of `pattern`, taken
/// from left to right without overlap.
pub open spec fn replaced(s: Seq<char>, pattern: Seq<char>, replacement: Seq<char>) -> Seq<char> {
    joined(split(s, pattern), replacement)
}

/// The texts that a list of character lists holds.
pub open spec fn texts(parts: Seq<Vec<char>>) -> Seq<Seq<char>> {
    Seq::new(parts.len(), |i: int| parts[i]@)
}

/// Decides [`occurs_at`].
pub fn occurs_here(s: &Vec<char>, pattern: &Vec<char>, i: usize) -> (r: bool)
    ensures
        r == occurs_at(s@, pattern@, i as int),
{
    if i > s.len() || pattern.len() > s.len() - i {
        return false;
    }
    let mut k: usize = 0;
    while k < pattern.len()
        invariant
            k <= pattern.len(),
            i + pattern.len() <= s.len(),
            forall|j: int| 0 <= j < k ==> s@[i + j] == pattern@[j],
        decreases pattern.len() - k,
    {
        if s[i + k] != pattern[k] {
            assert(s@.subrange(i as int, i + pattern.len())[k as int] != pattern@[k as int]);
            return false;
        }
        k += 1;
    }
    assert(s@.subrange(i as int, i + pattern.len()) =~= pattern@);
    true
}

/// Computes [`find`].
pub fn find_from(s: &Vec<char>, pattern: &Vec<char>, from: usize) -> (r: Option<usize>)
    ensures
        match r {
            Some(i) => find(s@, pattern@, from as int) == Some(i as int) && from <= i && i
                + pattern.len() <= s.len(),
            None => find(s@, pattern@, from as int) is None,
        },
{
    if from > s.len() || pattern.len() > s.len() - from {
        return None;
    }
    let last: usize = s.len() - pattern.len();
    let mut i: usize = from;
    loop
        invariant
            from <= i <= last,
            last == s.len() - pattern.len(),
            find(s@, pattern@, from as int) == find(s@, pattern@, i as int),
        decreases last - i,
    {
        if occurs_here(s, pattern, i) {
            return Some(i);
        }
        if i == last {
            assert(find(s@, pattern@, last + 1) is None);
            return None;
        }
        i += 1;
    }
}

/// Decides [`contains_text`].
pub fn text_contains(s: &Vec<char>, pattern: &Vec<char>) -> (r: bool)
    ensures
        r == contains_text(s@, pattern@),
{
    find_from(s, pattern, 0).is_some()
}

/// Decides [`starts_with`].
pub fn text_starts_with(s: &Vec<char>, prefix: &Vec<char>) -> (r: bool)
    ensures
        r == starts_with(s@, prefix@),
{
    occurs_here(s, prefix, 0)
}

/// Decides [`ends_with`].
pub fn text_ends_with(s: &Vec<char>, suffix: &Vec<char>) -> (r: bool)
    ensures
        r == ends_with(s@, suffix@),
{
    if suffix.len() > s.len() {
        false
    } else {
        occurs_here(s, suffix, s.len() - suffix.len())
    }
}

/// Computes [`split`].
pub fn split_text(s: &Vec<char>, separator: &Vec<char>) -> (r: Vec<Vec<char>>)
    ensures
        texts(r@) == split(s@, separator@),
{
    let mut r: Vec<Vec<char>> = Vec::new();
    if separator.len() == 0 {
        r.push(Vec::new());
        let mut i: usize = 0;
        while i < s.len()
            invariant
                i <= s.len(),
                r@.len() == i + 1,
                r@[0]@ == Seq::<char>::empty(),
                forall|j: int| 0 <= j < i ==> (#[trigger] r@[j + 1])@ == seq![s@[j]],
            decreases s.len() - i,
        {
            let mut one: Vec<char> = Vec::new();
            one.push(s[i]);
            assert(one@ =~= seq![s@[i as int]]);
            r.push(one);
            i += 1;
        }
        r.push(Vec::new());
        proof {
            let want = seq![Seq::<char>::empty()] + letters(s@) + seq![Seq::<char>::empty()];
            assert(texts(r@).len() == want.len());
            assert forall|j: int| 0 <= j < want.len() implies texts(r@)[j] == want[j] by {
                if 0 < j && j <= s.len() {
                    assert(r@[(j - 1) + 1]@ == seq![s@[j - 1]]);
                }
            }
            assert(texts(r@) =~= want);
        }
        return r;
    }
    let mut from: usize = 0;
    loop
        invariant_except_break
            from <= s.len(),
            separator.len() > 0,
            split(s@, separator@) == texts(r@) + pieces(s@, separator@, from as int),
        ensures
            texts(r@) == split(s@, separator@),
        decreases s.len() - from,
    {
        match find_from(s, separator, from) {
            Some(i) => {
                let part = slice_chars(s, from, i);
                proof {
                    assert(texts(r@.push(part)) =~= texts(r@) + seq![s@.subrange(from as int, i as int)]);
                    assert((texts(r@) + seq![s@.subrange(from as int, i as int)]) + pieces(
                        s@,
                        separator@,
                        i + separator.len(),
                    ) =~= texts(r@) + pieces(s@, separator@, from as int));
                }
                r.push(part);
                from = i + separator.len();
            },
            None => {
                let part = slice_chars(s, from, s.len());
                proof {
                    assert(texts(r@.push(part)) =~= texts(r@) + seq![
                        s@.subrange(from as int, s@.len() as int),
                    ]);
                }
                r.push(part);
                break;
            },
        }
    }
    r
}

/// Computes [`joined`].
pub fn join_texts(parts: &Vec<Vec<char>>, glue: &Vec<char>) -> (r: Vec<char>)
    ensures
        r@ == joined(texts(parts@), glue@),
{
    let mut r: Vec<char> = Vec::new();
    let mut i: usize = 0;
    while i < parts.len()
        invariant
            i <= parts.len(),
            r@ == joined(texts(parts@).take(i as int), glue@),
        decreases parts.len() - i,
    {
        let ghost before = texts(parts@).take(i as int);
        let ghost after = texts(parts@).take(i + 1);
        if i > 0 {
            let mut g = glue.clone();
            r.append(&mut g);
        }
        let mut part = parts[i].clone();
        r.append(&mut part);
        proof {
            assert(after.drop_last() =~= before);
            assert(after.last() == parts@[i as int]@);
        }
        i += 1;
    }
    assert(texts(parts@).take(parts.len() as int) =~= texts(parts@));
    r
}

/// Computes [`replaced`].
pub fn replace_text(s: &Vec<char>, pattern: &Vec<char>, replacement: &Vec<char>) -> (r: Vec<char>)
    ensures
        r@ == replaced(s@, pattern@, replacement@),
{
    let parts = split_text(s, pattern);
    join_texts(&parts, replacement)
}

} // verus!
