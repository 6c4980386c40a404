use vstd::prelude::*;
use crate::search::{pieces, split_text, texts};
use crate::text::{
    ascii_upper, chars_of, letter_or_number, white_space, slice_chars, string_of, uppercase,
};

verus! {

/// The letters and numbers of `s`, the others dropped; each that follows a
/// dropped character, and the first if `raise` holds, in ASCII upper case.
pub open spec fn humped(s: Seq<char>, raise: bool) -> Seq<char>
    decreases s.len(),
{
    if s.len() == 0 {
        Seq::empty()
    } else if letter_or_number(s[0]) {
        seq![if raise { ascii_upper(s[0]) } else { s[0] }] + humped(s.skip(1), false)
    } else {
        humped(s.skip(1), true)
    }
}

/// `s` with the first character of every word in ASCII upper case. A word
/// is a run of characters that are not white space.
pub open spec fn words_raised(s: Seq<char>, raise: bool) -> Seq<char>
    decreases s.len(),
{
    if s.len() == 0 {
        Seq::empty()
    } else if white_space(s[0]) {
        seq![s[0]] + words_raised(s.skip(1), true)
    } else {
        seq![if raise { ascii_upper(s[0]) } else { s[0] }] + words_raised(s.skip(1), false)
    }
}

/// `s` with its first character in upper case.
pub open spec fn capitalized(s: Seq<char>) -> Seq<char> {
    if s.len() == 0 {
        s
    } else {
        uppercase(s.take(1)) + s.skip(1)
    }
}

/// Computes [`humped`].
fn hump(value: &String, raise: bool) -> (r: String)
    ensures
        r@ == humped(value@, raise),
{
    let s = chars_of(value.as_str());
    let mut out: Vec<char> = Vec::new();
    let mut to_upper = raise;
    let mut i: usize = 0;
    assert(s@.skip(0) =~= s@);
    while i < s.len()
        invariant
            i <= s.len(),
            humped(s@, raise) == out@ + humped(s@.skip(i as int), to_upper),
        decreases s.len() - i,
    {
        let c = s[i];
        proof {
            assert(s@.skip(i as int)[0] == c);
            assert(s@.skip(i as int).skip(1) =~= s@.skip(i + 1));
        }
        if c.is_alphanumeric() {
            let d = if to_upper { c.to_ascii_uppercase() } else { c };
            proof {
                assert(out@.push(d) + humped(s@.skip(i + 1), false) =~= out@ + humped(
                    s@.skip(i as int),
                    to_upper,
                ));
            }
            out.push(d);
            to_upper = false;
        } else {
            to_upper = true;
        }
        i += 1;
    }
    assert(out@ + humped(s@.skip(i as int), to_upper) =~= out@);
    string_of(&out)
}

/// The words of `value` run together, each but the first beginning in upper
/// case: what is neither letter nor number parts the words and is dropped.
pub fn camel_case(value: &String) -> (r: String)
    ensures
        r@ == humped(value@, false),
{
    hump(value, false)
}

/// The words of `value` run together, each beginning in upper case: what is
/// neither letter nor number parts the words and is dropped.
pub fn pascal_case(value: &String) -> (r: String)
    ensures
        r@ == humped(value@, true),
{
    hump(value, true)
}

/// `value` with its first character in upper case.
pub fn capitalize(value: &String) -> (r: String)
    ensures
        r@ == capitalized(value@),
{
    let s = chars_of(value.as_str());
    if s.len() == 0 {
        return value.clone();
    }
    let first = string_of(&slice_chars(&s, 0, 1));
    let mut out = chars_of(first.as_str().to_uppercase().as_str());
    let mut rest = slice_chars(&s, 1, s.len());
    out.append(&mut rest);
    proof {
        assert(s@.subrange(0, 1) =~= s@.take(1));
        assert(s@.subrange(1, s@.len() as int) =~= s@.skip(1));
    }
    string_of(&out)
}

/// `value` with the first character of every word in upper case.
pub fn capitalize_words(value: &String) -> (r: String)
    ensures
        r@ == words_raised(value@, true),
{
    let s = chars_of(value.as_str());
    let mut out: Vec<char> = Vec::new();
    let mut to_upper = true;
    let mut i: usize = 0;
    assert(s@.skip(0) =~= s@);
    while i < s.len()
        invariant
            i <= s.len(),
            words_raised(s@, true) == out@ + words_raised(s@.skip(i as int), to_upper),
        decreases s.len() - i,
    {
        let c = s[i];
        proof {
            assert(s@.skip(i as int)[0] == c);
            assert(s@.skip(i as int).skip(1) =~= s@.skip(i + 1));
        }
        if c.is_whitespace() {
            proof {
                assert(out@.push(c) + words_raised(s@.skip(i + 1), true) =~= out@ + words_raised(
                    s@.skip(i as int),
                    to_upper,
                ));
            }
            out.push(c);
            to_upper = true;
        } else {
            let d = if to_upper { c.to_ascii_uppercase() } else { c };
            proof {
                assert(out@.push(d) + words_raised(s@.skip(i + 1), false) =~= out@ + words_raised(
                    s@.skip(i as int),
                    to_upper,
                ));
            }
            out.push(d);
            to_upper = false;
        }
        i += 1;
    }
    assert(out@ + words_raised(s@.skip(i as int), to_upper) =~= out@);
    string_of(&out)
}

/// `line` without the carriage return that ends it, if one does.
pub open spec fn without_return(line: Seq<char>) -> Seq<char> {
    if line.len() > 0 && line.last() == '\r' {
        line.drop_last()
    } else {
        line
    }
}

/// The lines of a text: its parts between line feeds, each but the last
/// without the carriage return that ends it. The empty text has no line.
pub open spec fn lines_of(s: Seq<char>) -> Seq<Seq<char>> {
    if s.len() == 0 {
        Seq::empty()
    } else {
        let parts = pieces(s, seq!['\n'], 0);
        Seq::new(
            parts.len(),
            |i: int| if i + 1 < parts.len() { without_return(parts[i]) } else { parts[i] },
        )
    }
}

/// Computes [`lines_of`].
pub fn lines(s: &Vec<char>) -> (r: Vec<Vec<char>>)
    ensures
        texts(r@) == lines_of(s@),
{
    let mut r: Vec<Vec<char>> = Vec::new();
    if s.len() == 0 {
        assert(texts(r@) =~= lines_of(s@));
        return r;
    }
    let mut feed: Vec<char> = Vec::new();
    feed.push('\n');
    assert(feed@ =~= seq!['\n']);
    let parts = split_text(s, &feed);
    let mut i: usize = 0;
    while i < parts.len()
        invariant
            i <= parts.len(),
            r@.len() == i,
            texts(parts@) == pieces(s@, seq!['\n'], 0),
            forall|j: int|
                0 <= j < i ==> (#[trigger] r@[j])@ == (if j + 1 < parts.len() {
                    without_return(parts@[j]@)
                } else {
                    parts@[j]@
                }),
        decreases parts.len() - i,
    {
        let part = &parts[i];
        if i + 1 < parts.len() && part.len() > 0 && part[part.len() - 1] == '\r' {
            let line = slice_chars(part, 0, part.len() - 1);
            assert(part@.subrange(0, part.len() - 1) =~= part@.drop_last());
            r.push(line);
        } else {
            r.push(part.clone());
        }
        i += 1;
    }
    proof {
        let want = lines_of(s@);
        assert(texts(r@).len() == want.len());
        assert forall|j: int| 0 <= j < want.len() implies texts(r@)[j] == want[j] by {
            assert(texts(parts@)[j] == parts@[j]@);
        }
        assert(texts(r@) =~= want);
    }
    r
}

} // verus!
