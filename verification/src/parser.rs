use vstd::prelude::*;
use crate::grammar::{
    at,  branches_at, calls_at, closes, closing, condition_at,  entries_at,  expression_at,  head_at, in_class, items_at, key_at,
    loop_end_at, loop_head_at, more_entries_at, more_items_at, names_at, node_at, nodes_at,
    number_at, opens, parsed, run, string_at, tag_at, tag_end_at, tag_word, tag_word_end,
    tag_word_start, text_len,  word_starts, Class, Expected,
    ParseError, Step,
};
use crate::search::{find_from, occurs_here};
use crate::shape::{law_parsed_is_shaped, nodes_shaped};
use crate::template::{
    branches_view, calls_view, entries_view, expression_view, expressions_view, head_view,
    literal_view, names_view, node_view, nodes_view, test_view, Branch, BranchView, Call,
    CallView, Entry, EntryView, Expression, ExpressionView, Head, HeadView, Literal,
    LiteralView, Loop, Node, NodeView, Template, TemplateView, Test, 
};
use crate::decimal::{decimal, decimal_of_u64};
use crate::text::{chars_of, slice_chars, string_of};
use vstd::string::StringExecFns;

verus! {

/// A run of a class ends where the first character stands that is not of it.
pub proof fn lemma_run(s: Seq<char>, pos: int, class: Class, k: int)
    requires
        0 <= pos,
        0 <= k,
        pos + k <= s.len(),
        forall|i: int| pos <= i < pos + k ==> in_class(class, #[trigger] s[i]),
        pos + k < s.len() ==> !in_class(class, s[pos + k]),
    ensures
        run(s, pos, class) == k,
    decreases k,
{
    if k > 0 {
        lemma_run(s, pos + 1, class, k - 1);
    }
}

/// Decides [`in_class`].
fn of_class(class: Class, c: char) -> (r: bool)
    ensures
        r == in_class(class, c),
{
    match class {
        Class::Space => c == ' ' || c == '\t' || c == '\n' || c == '\r',
        Class::Word => (c >= 'a' && c <= 'z') || (c >= 'A' && c <= 'Z') || (c >= '0' && c <= '9')
            || c == '_',
        Class::Digit => c >= '0' && c <= '9',
        Class::Unquoted => c != '"',
    }
}

/// Computes [`run`].
fn count(s: &Vec<char>, pos: usize, class: Class) -> (n: usize)
    requires
        pos <= s.len(),
    ensures
        n == run(s@, pos as int, class),
        pos + n <= s.len(),
{
    let mut n: usize = 0;
    while pos + n < s.len() && of_class(class, s[pos + n])
        invariant
            pos + n <= s.len(),
            forall|i: int| pos <= i < pos + n ==> in_class(class, #[trigger] s@[i]),
        decreases s.len() - pos - n,
    {
        n += 1;
    }
    proof {
        lemma_run(s@, pos as int, class, n as int);
    }
    n
}

/// Decides [`at`].
fn stands(s: &Vec<char>, pos: usize, c: char) -> (r: bool)
    ensures
        r == at(s@, pos as int, c),
{
    pos < s.len() && s[pos] == c
}

/// Decides [`word_starts`].
fn name_starts(s: &Vec<char>, pos: usize) -> (r: bool)
    ensures
        r == word_starts(s@, pos as int),
{
    pos < s.len() && of_class(Class::Word, s[pos]) && !of_class(Class::Digit, s[pos])
}

/// The failure to read on at `position` for want of `expected`.
fn fail<T>(position: usize, expected: Expected) -> (r: Result<T, ParseError>)
    ensures
        r == Err::<T, ParseError>(ParseError { position, expected }),
{
    Err(ParseError { position, expected })
}

/// The text from `from` up to, not including, `to`.
fn cut(s: &Vec<char>, from: usize, to: usize) -> (r: String)
    requires
        from <= to <= s.len(),
    ensures
        r@ == s@.subrange(from as int, to as int),
{
    string_of(&slice_chars(s, from, to))
}

/// Whether the word of length `len` at `start` is `word`.
fn word_is(s: &Vec<char>, start: usize, len: usize, word: &str) -> (r: bool)
    requires
        start + len <= s.len(),
    ensures
        r == (s@.subrange(start as int, start + len) == word@),
{
    let w = chars_of(word);
    if w.len() != len {
        assert(s@.subrange(start as int, start + len).len() != word@.len());
        false
    } else {
        occurs_here(s, &w, start)
    }
}

/// Reads the number at `pos`, as [`number_at`] says.
fn number(s: &Vec<char>, pos: usize) -> (r: Result<(Literal, usize), ParseError>)
    requires
        pos < s.len(),
    ensures
        match r {
            Ok((literal, next)) => number_at(s@, pos as int) == Ok::<(LiteralView, int), ParseError>(
                (literal_view(literal), next as int),
            ) && pos < next <= s.len(),
            Err(e) => number_at(s@, pos as int) == Err::<(LiteralView, int), ParseError>(e),
        },
{
    let sign: usize = if stands(s, pos, '-') { 1 } else { 0 };
    let whole = count(s, pos + sign, Class::Digit);
    if whole == 0 {
        return fail(pos + sign, Expected::Digit);
    }
    let point = pos + sign + whole;
    let mut fraction: usize = 0;
    if stands(s, point, '.') {
        let digits = count(s, point + 1, Class::Digit);
        if digits > 0 {
            fraction = 1 + digits;
        }
    }
    let e = point + fraction;
    let mut exponent: usize = 0;
    if stands(s, e, 'e') || stands(s, e, 'E') {
        let signed: usize = if stands(s, e + 1, '+') || stands(s, e + 1, '-') { 1 } else { 0 };
        let digits = count(s, e + 1 + signed, Class::Digit);
        if digits > 0 {
            exponent = 1 + signed + digits;
        }
    }
    let end = e + exponent;
    let text = cut(s, pos, end);
    if fraction + exponent > 0 {
        Ok((Literal::Float(text), end))
    } else {
        Ok((Literal::Integer(text), end))
    }
}

/// Reads the string at `pos`, as [`string_at`] says.
fn string(s: &Vec<char>, pos: usize) -> (r: Result<(String, usize), ParseError>)
    requires
        pos < s.len(),
    ensures
        match r {
            Ok((text, next)) => string_at(s@, pos as int) == Ok::<(Seq<char>, int), ParseError>(
                (text@, next as int),
            ) && pos < next <= s.len(),
            Err(e) => string_at(s@, pos as int) == Err::<(Seq<char>, int), ParseError>(e),
        },
{
    let end = pos + 1 + count(s, pos + 1, Class::Unquoted);
    if stands(s, end, '"') {
        Ok((cut(s, pos, end + 1), end + 1))
    } else {
        fail(end, Expected::ClosingQuote)
    }
}

/// `first` before `rest`.
fn names_after(first: String, rest: Vec<String>) -> (r: Vec<String>)
    ensures
        names_view(r@) == seq![first@] + names_view(rest@),
{
    let mut r = rest;
    r.insert(0, first);
    assert(names_view(r@) =~= seq![first@] + names_view(rest@));
    r
}

/// `first` before `rest`.
fn expressions_after(first: Expression, rest: Vec<Expression>) -> (r: Vec<Expression>)
    ensures
        expressions_view(r@) == seq![expression_view(first)] + expressions_view(rest@),
{
    let mut r = rest;
    r.insert(0, first);
    assert(expressions_view(r@) =~= seq![expression_view(first)] + expressions_view(rest@));
    r
}

/// `first` before `rest`.
fn entries_after(first: Entry, rest: Vec<Entry>) -> (r: Vec<Entry>)
    ensures
        entries_view(r@) == seq![
            EntryView { key: first.key@, value: expression_view(first.value) },
        ] + entries_view(rest@),
{
    let mut r = rest;
    r.insert(0, first);
    assert(entries_view(r@) =~= seq![
        EntryView { key: first.key@, value: expression_view(first.value) },
    ] + entries_view(rest@));
    r
}

/// `first` before `rest`.
fn calls_after(first: Call, rest: Vec<Call>) -> (r: Vec<Call>)
    ensures
        calls_view(r@) == seq![
            CallView { name: first.name@, arguments: expressions_view(first.arguments@) },
        ] + calls_view(rest@),
{
    let mut r = rest;
    r.insert(0, first);
    assert(calls_view(r@) =~= seq![
        CallView { name: first.name@, arguments: expressions_view(first.arguments@) },
    ] + calls_view(rest@));
    r
}

/// Reads the names behind the first of a path, as [`names_at`] says.
fn names(s: &Vec<char>, pos: usize) -> (r: Result<(Vec<String>, usize), ParseError>)
    requires
        pos <= s.len(),
    ensures
        match r {
            Ok((names, next)) => names_at(s@, pos as int) == Ok::<(Seq<Seq<char>>, int), ParseError>(
                (names_view(names@), next as int),
            ) && pos <= next <= s.len(),
            Err(e) => names_at(s@, pos as int) == Err::<(Seq<Seq<char>>, int), ParseError>(e),
        },
    decreases s.len() - pos, 0int,
{
    if stands(s, pos, '.') {
        if name_starts(s, pos + 1) {
            let len = count(s, pos + 1, Class::Word);
            let first = cut(s, pos + 1, pos + 1 + len);
            match names(s, pos + 1 + len) {
                Ok((rest, end)) => Ok((names_after(first, rest), end)),
                Err(e) => Err(e),
            }
        } else {
            fail(pos + 1, Expected::Identifier)
        }
    } else {
        let none: Vec<String> = Vec::new();
        assert(names_view(none@) =~= Seq::<Seq<char>>::empty());
        Ok((none, pos))
    }
}

/// What is wanted where a list that `close` ends goes wrong.
fn closing_of(close: char) -> (r: Expected)
    ensures
        r == closing(close),
{
    if close == ']' {
        Expected::ClosingBracket
    } else if close == ')' {
        Expected::ClosingParenthesis
    } else {
        Expected::ClosingBrace
    }
}

/// Reads the head of an expression at `pos`, as [`head_at`] says.
fn head(s: &Vec<char>, pos: usize) -> (r: Result<(Head, usize), ParseError>)
    requires
        pos <= s.len(),
    ensures
        match r {
            Ok((head, next)) => head_at(s@, pos as int) == Ok::<(HeadView, int), ParseError>(
                (head_view(head), next as int),
            ) && pos < next <= s.len(),
            Err(e) => head_at(s@, pos as int) == Err::<(HeadView, int), ParseError>(e),
        },
    decreases s.len() - pos, 0int,
{
    if stands(s, pos, '"') {
        match string(s, pos) {
            Ok((text, end)) => Ok((Head::Literal(Literal::Text(text)), end)),
            Err(e) => Err(e),
        }
    } else if stands(s, pos, '[') {
        match items(s, pos + 1, ']') {
            Ok((list, end)) => Ok((Head::Literal(Literal::Array(list)), end)),
            Err(e) => Err(e),
        }
    } else if stands(s, pos, '{') {
        match entries(s, pos + 1) {
            Ok((list, end)) => Ok((Head::Literal(Literal::Dictionary(list)), end)),
            Err(e) => Err(e),
        }
    } else if stands(s, pos, '-') || (pos < s.len() && of_class(Class::Digit, s[pos])) {
        match number(s, pos) {
            Ok((literal, end)) => Ok((Head::Literal(literal), end)),
            Err(e) => Err(e),
        }
    } else if name_starts(s, pos) {
        let len = count(s, pos, Class::Word);
        let end = pos + len;
        if word_is(s, pos, len, "null") {
            Ok((Head::Literal(Literal::Null), end))
        } else if word_is(s, pos, len, "true") || word_is(s, pos, len, "false") {
            Ok((Head::Literal(Literal::Boolean(cut(s, pos, end))), end))
        } else {
            let first = cut(s, pos, end);
            match names(s, end) {
                Ok((rest, after)) => Ok((Head::Properties(names_after(first, rest)), after)),
                Err(e) => Err(e),
            }
        }
    } else {
        fail(pos, Expected::Expression)
    }
}

/// Reads the calls of an expression from `pos` on, as [`calls_at`] says.
fn calls(s: &Vec<char>, pos: usize) -> (r: Result<(Vec<Call>, usize), ParseError>)
    requires
        pos <= s.len(),
    ensures
        match r {
            Ok((calls, next)) => calls_at(s@, pos as int) == Ok::<(Seq<CallView>, int), ParseError>(
                (calls_view(calls@), next as int),
            ) && pos <= next <= s.len(),
            Err(e) => calls_at(s@, pos as int) == Err::<(Seq<CallView>, int), ParseError>(e),
        },
    decreases s.len() - pos, 0int,
{
    let bar = pos + count(s, pos, Class::Space);
    if stands(s, bar, '|') {
        let start = bar + 1 + count(s, bar + 1, Class::Space);
        if name_starts(s, start) {
            let end = start + count(s, start, Class::Word);
            let open = end + count(s, end, Class::Space);
            let name = cut(s, start, end);
            let (arguments, next) = if stands(s, open, '(') {
                match items(s, open + 1, ')') {
                    Ok(found) => found,
                    Err(e) => { return Err(e); },
                }
            } else {
                let none: Vec<Expression> = Vec::new();
                assert(expressions_view(none@) =~= Seq::<ExpressionView>::empty());
                (none, end)
            };
            match calls(s, next) {
                Ok((rest, after)) => Ok((calls_after(Call { name, arguments }, rest), after)),
                Err(e) => Err(e),
            }
        } else {
            fail(start, Expected::Identifier)
        }
    } else {
        let none: Vec<Call> = Vec::new();
        assert(calls_view(none@) =~= Seq::<CallView>::empty());
        Ok((none, pos))
    }
}

/// Reads the expression at `pos`, as [`expression_at`] says.
pub fn expression(s: &Vec<char>, pos: usize) -> (r: Result<(Expression, usize), ParseError>)
    requires
        pos <= s.len(),
    ensures
        match r {
            Ok((expression, next)) => expression_at(s@, pos as int) == Ok::<
                (ExpressionView, int),
                ParseError,
            >((expression_view(expression), next as int)) && pos < next <= s.len(),
            Err(e) => expression_at(s@, pos as int) == Err::<(ExpressionView, int), ParseError>(e),
        },
    decreases s.len() - pos, 1int,
{
    let start = pos + count(s, pos, Class::Space);
    match head(s, start) {
        Ok((head, next)) => match calls(s, next) {
            Ok((calls, after)) => Ok((Expression { head, calls }, after)),
            Err(e) => Err(e),
        },
        Err(e) => Err(e),
    }
}

/// Reads the expressions of a list from `pos` on, as [`items_at`] says.
fn items(s: &Vec<char>, pos: usize, close: char) -> (r: Result<(Vec<Expression>, usize), ParseError>)
    requires
        pos <= s.len(),
    ensures
        match r {
            Ok((items, next)) => items_at(s@, pos as int, close) == Ok::<
                (Seq<ExpressionView>, int),
                ParseError,
            >((expressions_view(items@), next as int)) && pos < next <= s.len(),
            Err(e) => items_at(s@, pos as int, close) == Err::<(Seq<ExpressionView>, int), ParseError>(
                e,
            ),
        },
    decreases s.len() - pos, 3int,
{
    let mark = pos + count(s, pos, Class::Space);
    if stands(s, mark, close) {
        let none: Vec<Expression> = Vec::new();
        assert(expressions_view(none@) =~= Seq::<ExpressionView>::empty());
        Ok((none, mark + 1))
    } else {
        more_items(s, pos, close)
    }
}

/// Reads the expressions of a list that is not empty, as [`more_items_at`]
/// says.
fn more_items(s: &Vec<char>, pos: usize, close: char) -> (r: Result<
    (Vec<Expression>, usize),
    ParseError,
>)
    requires
        pos <= s.len(),
    ensures
        match r {
            Ok((items, next)) => more_items_at(s@, pos as int, close) == Ok::<
                (Seq<ExpressionView>, int),
                ParseError,
            >((expressions_view(items@), next as int)) && pos < next <= s.len(),
            Err(e) => more_items_at(s@, pos as int, close) == Err::<
                (Seq<ExpressionView>, int),
                ParseError,
            >(e),
        },
    decreases s.len() - pos, 2int,
{
    match expression(s, pos) {
        Ok((item, next)) => {
            let mark = next + count(s, next, Class::Space);
            if stands(s, mark, ',') {
                match more_items(s, mark + 1, close) {
                    Ok((rest, after)) => Ok((expressions_after(item, rest), after)),
                    Err(e) => Err(e),
                }
            } else if stands(s, mark, close) {
                let none: Vec<Expression> = Vec::new();
                assert(expressions_view(none@) =~= Seq::<ExpressionView>::empty());
                let one = expressions_after(item, none);
                assert(expressions_view(one@) =~= seq![expression_view(item)]);
                Ok((one, mark + 1))
            } else {
                fail(mark, closing_of(close))
            }
        },
        Err(e) => Err(e),
    }
}

/// Reads the entries of a dictionary from `pos` on, as [`entries_at`] says.
fn entries(s: &Vec<char>, pos: usize) -> (r: Result<(Vec<Entry>, usize), ParseError>)
    requires
        pos <= s.len(),
    ensures
        match r {
            Ok((entries, next)) => entries_at(s@, pos as int) == Ok::<(Seq<EntryView>, int), ParseError>(
                (entries_view(entries@), next as int),
            ) && pos < next <= s.len(),
            Err(e) => entries_at(s@, pos as int) == Err::<(Seq<EntryView>, int), ParseError>(e),
        },
    decreases s.len() - pos, 3int,
{
    let mark = pos + count(s, pos, Class::Space);
    if stands(s, mark, '}') {
        let none: Vec<Entry> = Vec::new();
        assert(entries_view(none@) =~= Seq::<EntryView>::empty());
        Ok((none, mark + 1))
    } else {
        more_entries(s, pos)
    }
}

/// Reads the key of an entry at `pos`, as [`key_at`] says.
fn key(s: &Vec<char>, pos: usize) -> (r: Result<(String, usize), ParseError>)
    requires
        pos <= s.len(),
    ensures
        match r {
            Ok((key, next)) => key_at(s@, pos as int) == Ok::<(Seq<char>, int), ParseError>(
                (key@, next as int),
            ) && pos < next <= s.len(),
            Err(e) => key_at(s@, pos as int) == Err::<(Seq<char>, int), ParseError>(e),
        },
{
    if stands(s, pos, '"') {
        string(s, pos)
    } else if name_starts(s, pos) {
        let end = pos + count(s, pos, Class::Word);
        Ok((cut(s, pos, end), end))
    } else {
        fail(pos, Expected::Key)
    }
}

/// Reads the entries of a dictionary that is not empty, as
/// [`more_entries_at`] says.
fn more_entries(s: &Vec<char>, pos: usize) -> (r: Result<(Vec<Entry>, usize), ParseError>)
    requires
        pos <= s.len(),
    ensures
        match r {
            Ok((entries, next)) => more_entries_at(s@, pos as int) == Ok::<
                (Seq<EntryView>, int),
                ParseError,
            >((entries_view(entries@), next as int)) && pos < next <= s.len(),
            Err(e) => more_entries_at(s@, pos as int) == Err::<(Seq<EntryView>, int), ParseError>(e),
        },
    decreases s.len() - pos, 2int,
{
    let start = pos + count(s, pos, Class::Space);
    match key(s, start) {
        Ok((key, end)) => {
            let colon = end + count(s, end, Class::Space);
            if !stands(s, colon, ':') {
                return fail(colon, Expected::Colon);
            }
            match expression(s, colon + 1) {
                Ok((value, next)) => {
                    let mark = next + count(s, next, Class::Space);
                    if stands(s, mark, ',') {
                        match more_entries(s, mark + 1) {
                            Ok((rest, after)) => Ok((entries_after(Entry { key, value }, rest), after)),
                            Err(e) => Err(e),
                        }
                    } else if stands(s, mark, '}') {
                        let none: Vec<Entry> = Vec::new();
                        assert(entries_view(none@) =~= Seq::<EntryView>::empty());
                        let ghost want = seq![EntryView { key: key@, value: expression_view(value) }];
                        let one = entries_after(Entry { key, value }, none);
                        assert(entries_view(one@) =~= want);
                        Ok((one, mark + 1))
                    } else {
                        fail(mark, Expected::ClosingBrace)
                    }
                },
                Err(e) => Err(e),
            }
        },
        Err(e) => Err(e),
    }
}

/// Text ends where the first of its characters stands at which something
/// opens.
pub proof fn lemma_text_len(s: Seq<char>, pos: int, k: int)
    requires
        0 <= pos,
        0 <= k,
        pos + k <= s.len(),
        forall|i: int| pos <= i < pos + k ==> !opens(s, i),
        pos + k < s.len() ==> opens(s, pos + k),
    ensures
        text_len(s, pos) == k,
    decreases k,
{
    if k > 0 {
        lemma_text_len(s, pos + 1, k - 1);
    }
}

/// Decides [`opens`].
fn opens_here(s: &Vec<char>, pos: usize) -> (r: bool)
    ensures
        r == opens(s@, pos as int),
{
    if pos >= s.len() || s[pos] != '{' {
        return false;
    }
    stands(s, pos + 1, '{') || stands(s, pos + 1, '%') || stands(s, pos + 1, '#')
}

/// Computes [`text_len`].
fn text_count(s: &Vec<char>, pos: usize) -> (n: usize)
    requires
        pos <= s.len(),
    ensures
        n == text_len(s@, pos as int),
        pos + n <= s.len(),
{
    let mut n: usize = 0;
    while pos + n < s.len() && !opens_here(s, pos + n)
        invariant
            pos + n <= s.len(),
            forall|i: int| pos <= i < pos + n ==> !opens(s@, i),
        decreases s.len() - pos - n,
    {
        n += 1;
    }
    proof {
        lemma_text_len(s@, pos as int, n as int);
    }
    n
}

/// Decides [`tag_at`].
fn tag_here(s: &Vec<char>, pos: usize) -> (r: bool)
    ensures
        r == tag_at(s@, pos as int),
{
    if pos >= s.len() || s[pos] != '{' {
        return false;
    }
    stands(s, pos + 1, '%')
}

/// Where the word of the tag that opens at `pos` begins and ends.
fn tag_word_of(s: &Vec<char>, pos: usize) -> (r: (usize, usize))
    requires
        tag_at(s@, pos as int),
    ensures
        r.0 == tag_word_start(s@, pos as int),
        r.1 == tag_word_end(s@, pos as int),
        pos + 2 <= r.0 <= r.1 <= s.len(),
{
    let start = pos + 2 + count(s, pos + 2, Class::Space);
    let end = start + count(s, start, Class::Word);
    (start, end)
}

/// Decides [`closes`].
fn closes_here(s: &Vec<char>, pos: usize) -> (r: bool)
    ensures
        r == closes(s@, pos as int),
{
    if tag_here(s, pos) {
        let (start, end) = tag_word_of(s, pos);
        word_is(s, start, end - start, "elif") || word_is(s, start, end - start, "else") || word_is(
            s,
            start,
            end - start,
            "end",
        )
    } else {
        false
    }
}

/// Reads the end of a tag from `pos` on, as [`tag_end_at`] says.
fn tag_end(s: &Vec<char>, pos: usize) -> (r: Result<usize, ParseError>)
    requires
        pos <= s.len(),
    ensures
        match r {
            Ok(next) => tag_end_at(s@, pos as int) == Ok::<((), int), ParseError>(((), next as int))
                && pos < next <= s.len(),
            Err(e) => tag_end_at(s@, pos as int) == Err::<((), int), ParseError>(e),
        },
{
    let mark = pos + count(s, pos, Class::Space);
    if stands(s, mark, '%') && stands(s, mark + 1, '}') {
        Ok(mark + 2)
    } else {
        fail(mark, Expected::ClosingTag)
    }
}

/// Reads an expression and the end of its tag, as [`condition_at`] says.
fn condition(s: &Vec<char>, pos: usize) -> (r: Result<(Expression, usize), ParseError>)
    requires
        pos <= s.len(),
    ensures
        match r {
            Ok((expression, next)) => condition_at(s@, pos as int) == Ok::<
                (ExpressionView, int),
                ParseError,
            >((expression_view(expression), next as int)) && pos < next <= s.len(),
            Err(e) => condition_at(s@, pos as int) == Err::<(ExpressionView, int), ParseError>(e),
        },
{
    match expression(s, pos) {
        Ok((found, next)) => match tag_end(s, next) {
            Ok(after) => Ok((found, after)),
            Err(e) => Err(e),
        },
        Err(e) => Err(e),
    }
}

/// `first` before `rest`.
fn branches_after(first: Branch, rest: Vec<Branch>) -> (r: Vec<Branch>)
    ensures
        branches_view(r@) == seq![
            BranchView { test: test_view(first.test), body: nodes_view(first.body@) },
        ] + branches_view(rest@),
{
    let mut r = rest;
    r.insert(0, first);
    assert(branches_view(r@) =~= seq![
        BranchView { test: test_view(first.test), body: nodes_view(first.body@) },
    ] + branches_view(rest@));
    r
}

/// The content of the `else` part of a loop.
pub open spec fn otherwise_view(otherwise: Option<Vec<Node>>) -> Option<Seq<NodeView>> {
    match otherwise {
        Some(nodes) => Some(nodes_view(nodes@)),
        None => None,
    }
}

/// What was read so far before what reading on gives.
pub open spec fn after_nodes(before: Seq<NodeView>, step: Step<Seq<NodeView>>) -> Step<Seq<NodeView>> {
    match step {
        Ok((rest, end)) => Ok((before + rest, end)),
        Err(e) => Err(e),
    }
}

/// Reads the nodes from `pos` on, as [`nodes_at`] says.
fn nodes(s: &Vec<char>, pos: usize) -> (r: Result<(Vec<Node>, usize), ParseError>)
    requires
        pos <= s.len(),
    ensures
        match r {
            Ok((nodes, next)) => nodes_at(s@, pos as int) == Ok::<(Seq<NodeView>, int), ParseError>(
                (nodes_view(nodes@), next as int),
            ) && pos <= next <= s.len() && (next < s.len() ==> closes(s@, next as int)),
            Err(e) => nodes_at(s@, pos as int) == Err::<(Seq<NodeView>, int), ParseError>(e),
        },
    decreases s.len() - pos, 2int,
{
    let mut found: Vec<Node> = Vec::new();
    let mut here: usize = pos;
    proof {
        assert(nodes_view(found@) =~= Seq::<NodeView>::empty());
        match nodes_at(s@, pos as int) {
            Ok((rest, end)) => {
                assert(Seq::<NodeView>::empty() + rest =~= rest);
            },
            Err(_) => {},
        }
    }
    loop
        invariant
            pos <= here <= s.len(),
            nodes_at(s@, pos as int) == after_nodes(nodes_view(found@), nodes_at(s@, here as int)),
        decreases s.len() - here,
    {
        if here >= s.len() || closes_here(s, here) {
            assert(nodes_view(found@) + Seq::<NodeView>::empty() =~= nodes_view(found@));
            return Ok((found, here));
        }
        match node(s, here) {
            Ok((first, next)) => {
                proof {
                    let before = nodes_view(found@);
                    assert(nodes_view(found@.push(first)) =~= before.push(node_view(first)));
                    match nodes_at(s@, next as int) {
                        Ok((rest, end)) => {
                            assert(before + (seq![node_view(first)] + rest) =~= before.push(
                                node_view(first),
                            ) + rest);
                        },
                        Err(_) => {},
                    }
                }
                found.push(first);
                here = next;
            },
            Err(e) => {
                return Err(e);
            },
        }
    }
}

/// Reads the branches of a conditional block behind its first, as
/// [`branches_at`] says.
fn branches(s: &Vec<char>, pos: usize, last: bool) -> (r: Result<(Vec<Branch>, usize), ParseError>)
    requires
        pos <= s.len(),
    ensures
        match r {
            Ok((branches, next)) => branches_at(s@, pos as int, last) == Ok::<
                (Seq<BranchView>, int),
                ParseError,
            >((branches_view(branches@), next as int)) && pos < next <= s.len(),
            Err(e) => branches_at(s@, pos as int, last) == Err::<(Seq<BranchView>, int), ParseError>(e),
        },
    decreases s.len() - pos, 0int,
{
    if !closes_here(s, pos) {
        return fail(pos, Expected::End);
    }
    let (start, end) = tag_word_of(s, pos);
    if word_is(s, start, end - start, "end") {
        match tag_end(s, end) {
            Ok(after) => {
                let none: Vec<Branch> = Vec::new();
                assert(branches_view(none@) =~= Seq::<BranchView>::empty());
                Ok((none, after))
            },
            Err(e) => Err(e),
        }
    } else if last {
        fail(start, Expected::End)
    } else {
        let (test, next) = if word_is(s, start, end - start, "elif") {
            match condition(s, end) {
                Ok((found, next)) => (Test::Elif(found), next),
                Err(e) => { return Err(e); },
            }
        } else {
            match tag_end(s, end) {
                Ok(next) => (Test::Else, next),
                Err(e) => { return Err(e); },
            }
        };
        let after_else = match &test {
            Test::Else => true,
            _ => false,
        };
        match nodes(s, next) {
            Ok((body, closer)) => match branches(s, closer, after_else) {
                Ok((rest, after)) => Ok((branches_after(Branch { test, body }, rest), after)),
                Err(e) => Err(e),
            },
            Err(e) => Err(e),
        }
    }
}

/// Reads what ends a loop, as [`loop_end_at`] says.
#[verifier::rlimit(60)]
fn loop_end(s: &Vec<char>, pos: usize) -> (r: Result<(Option<Vec<Node>>, usize), ParseError>)
    requires
        pos <= s.len(),
    ensures
        match r {
            Ok((otherwise, next)) => loop_end_at(s@, pos as int) == Ok::<
                (Option<Seq<NodeView>>, int),
                ParseError,
            >((otherwise_view(otherwise), next as int)) && pos < next <= s.len(),
            Err(e) => loop_end_at(s@, pos as int) == Err::<(Option<Seq<NodeView>>, int), ParseError>(
                e,
            ),
        },
    decreases s.len() - pos, 0int,
{
    if !closes_here(s, pos) {
        return fail(pos, Expected::End);
    }
    let (start, end) = tag_word_of(s, pos);
    if word_is(s, start, end - start, "end") {
        match tag_end(s, end) {
            Ok(after) => Ok((None, after)),
            Err(e) => Err(e),
        }
    } else if word_is(s, start, end - start, "else") {
        let next = match tag_end(s, end) {
            Ok(next) => next,
            Err(e) => { return Err(e); },
        };
        match nodes(s, next) {
            Ok((found, closer)) => {
                if !closes_here(s, closer) {
                    return fail(closer, Expected::End);
                }
                let (word, word_end) = tag_word_of(s, closer);
                if !word_is(s, word, word_end - word, "end") {
                    return fail(closer, Expected::End);
                }
                match tag_end(s, word_end) {
                    Ok(after) => Ok((Some(found), after)),
                    Err(e) => Err(e),
                }
            },
            Err(e) => Err(e),
        }
    } else {
        fail(start, Expected::End)
    }
}

/// Reads the head of a loop, as [`loop_head_at`] says.
fn loop_head(s: &Vec<char>, pos: usize) -> (r: Result<(String, Expression, usize), ParseError>)
    requires
        pos <= s.len(),
    ensures
        match r {
            Ok((variable, iterable, next)) => loop_head_at(s@, pos as int) == Ok::<
                ((Seq<char>, ExpressionView), int),
                ParseError,
            >(((variable@, expression_view(iterable)), next as int)) && pos < next <= s.len(),
            Err(e) => loop_head_at(s@, pos as int) == Err::<
                ((Seq<char>, ExpressionView), int),
                ParseError,
            >(e),
        },
{
    let name = pos + count(s, pos, Class::Space);
    if !name_starts(s, name) {
        return fail(name, Expected::Identifier);
    }
    let name_end = name + count(s, name, Class::Word);
    let word = name_end + count(s, name_end, Class::Space);
    let word_end = word + count(s, word, Class::Word);
    if !word_is(s, word, word_end - word, "in") {
        return fail(word, Expected::In);
    }
    proof {
        reveal_strlit("in");
        assert(s@.subrange(word as int, word_end as int).len() == 2);
    }
    match condition(s, word_end) {
        Ok((iterable, after)) => Ok((cut(s, name, name_end), iterable, after)),
        Err(e) => Err(e),
    }
}

/// Reads a conditional block whose first tag opens at `pos` and has its
/// word end at `end`, as [`node_at`] says.
fn conditional(s: &Vec<char>, pos: usize, end: usize, is_if: bool) -> (r: Result<
    (Node, usize),
    ParseError,
>)
    requires
        tag_at(s@, pos as int),
        !(at(s@, pos as int, '{') && at(s@, pos + 1, '{')),
        !(at(s@, pos as int, '{') && at(s@, pos + 1, '#')),
        end == tag_word_end(s@, pos as int),
        pos + 2 <= end <= s.len(),
        is_if == (tag_word(s@, pos as int) == "if"@),
        tag_word(s@, pos as int) == "if"@ || tag_word(s@, pos as int) == "unless"@,
    ensures
        match r {
            Ok((node, next)) => node_at(s@, pos as int) == Ok::<(NodeView, int), ParseError>(
                (node_view(node), next as int),
            ) && pos < next <= s.len(),
            Err(e) => node_at(s@, pos as int) == Err::<(NodeView, int), ParseError>(e),
        },
    decreases s.len() - pos, 0int,
{
    let (found, next) = match condition(s, end) {
        Ok(read) => read,
        Err(e) => { return Err(e); },
    };
    let (body, closer) = match nodes(s, next) {
        Ok(read) => read,
        Err(e) => { return Err(e); },
    };
    match branches(s, closer, false) {
        Ok((rest, after)) => {
            let test = if is_if { Test::If(found) } else { Test::Unless(found) };
            Ok((Node::Conditional(branches_after(Branch { test, body }, rest)), after))
        },
        Err(e) => Err(e),
    }
}

/// Reads a loop block whose first tag opens at `pos` and has its word end at
/// `end`, as [`node_at`] says.
#[verifier::rlimit(100)]
#[verifier::spinoff_prover]
fn loop_block(s: &Vec<char>, pos: usize, end: usize) -> (r: Result<(Node, usize), ParseError>)
    requires
        tag_at(s@, pos as int),
        !(at(s@, pos as int, '{') && at(s@, pos + 1, '{')),
        !(at(s@, pos as int, '{') && at(s@, pos + 1, '#')),
        end == tag_word_end(s@, pos as int),
        pos + 2 <= end <= s.len(),
        tag_word(s@, pos as int) != "if"@,
        tag_word(s@, pos as int) != "unless"@,
        tag_word(s@, pos as int) == "for"@,
    ensures
        match r {
            Ok((node, next)) => node_at(s@, pos as int) == Ok::<(NodeView, int), ParseError>(
                (node_view(node), next as int),
            ) && pos < next <= s.len(),
            Err(e) => node_at(s@, pos as int) == Err::<(NodeView, int), ParseError>(e),
        },
    decreases s.len() - pos, 0int,
{
    let (variable, iterable, next) = match loop_head(s, end) {
        Ok(read) => read,
        Err(e) => { return Err(e); },
    };
    let (body, closer) = match nodes(s, next) {
        Ok(read) => read,
        Err(e) => { return Err(e); },
    };
    match loop_end(s, closer) {
        Ok((otherwise, after)) => Ok((Node::Loop(Loop { variable, iterable, body, otherwise }), after)),
        Err(e) => Err(e),
    }
}

/// Reads the expression between double braces that open at `pos`, as
/// [`node_at`] says.
fn expression_node(s: &Vec<char>, pos: usize) -> (r: Result<(Node, usize), ParseError>)
    requires
        at(s@, pos as int, '{') && at(s@, pos + 1, '{'),
    ensures
        match r {
            Ok((node, next)) => node_at(s@, pos as int) == Ok::<(NodeView, int), ParseError>(
                (node_view(node), next as int),
            ) && pos < next <= s.len(),
            Err(e) => node_at(s@, pos as int) == Err::<(NodeView, int), ParseError>(e),
        },
{
    assert(pos + 1 < s.len());
    match expression(s, pos + 2) {
        Ok((found, next)) => {
            let mark = next + count(s, next, Class::Space);
            if stands(s, mark, '}') && stands(s, mark + 1, '}') {
                Ok((Node::Expression(found), mark + 2))
            } else {
                fail(mark, Expected::ClosingExpression)
            }
        },
        Err(e) => Err(e),
    }
}

/// Reads the comment that opens at `pos`, as [`node_at`] says.
#[verifier::rlimit(100)]
#[verifier::spinoff_prover]
fn comment(s: &Vec<char>, pos: usize) -> (r: Result<(Node, usize), ParseError>)
    requires
        at(s@, pos as int, '{') && at(s@, pos + 1, '#'),
    ensures
        match r {
            Ok((node, next)) => node_at(s@, pos as int) == Ok::<(NodeView, int), ParseError>(
                (node_view(node), next as int),
            ) && pos < next <= s.len(),
            Err(e) => node_at(s@, pos as int) == Err::<(NodeView, int), ParseError>(e),
        },
{
    let mut close: Vec<char> = Vec::new();
    close.push('#');
    close.push('}');
    assert(close@ =~= seq!['#', '}']);
    assert(pos + 1 < s.len());
    match find_from(s, &close, pos + 2) {
        Some(end) => Ok((Node::Comment, end + 2)),
        None => fail(s.len(), Expected::ClosingComment),
    }
}

/// Reads the node at `pos`, as [`node_at`] says.
fn node(s: &Vec<char>, pos: usize) -> (r: Result<(Node, usize), ParseError>)
    requires
        pos < s.len(),
    ensures
        match r {
            Ok((node, next)) => node_at(s@, pos as int) == Ok::<(NodeView, int), ParseError>(
                (node_view(node), next as int),
            ) && pos < next <= s.len(),
            Err(e) => node_at(s@, pos as int) == Err::<(NodeView, int), ParseError>(e),
        },
    decreases s.len() - pos, 1int,
{
    if stands(s, pos, '{') && stands(s, pos + 1, '{') {
        expression_node(s, pos)
    } else if stands(s, pos, '{') && stands(s, pos + 1, '#') {
        comment(s, pos)
    } else if tag_here(s, pos) {
        let (start, end) = tag_word_of(s, pos);
        let is_if = word_is(s, start, end - start, "if");
        if is_if || word_is(s, start, end - start, "unless") {
            conditional(s, pos, end, is_if)
        } else if word_is(s, start, end - start, "for") {
            loop_block(s, pos, end)
        } else {
            fail(start, Expected::Keyword)
        }
    } else {
        let len = text_count(s, pos);
        Ok((Node::Text(cut(s, pos, pos + len)), pos + len))
    }
}

/// The parser of templates.
pub struct TemplateParser;

impl TemplateParser {
    /// Reads a template, as [`parsed`] says: the tree of its nodes, or why
    /// and where the text is no template.
    pub fn parse(input: &str) -> (r: Result<Template, ParseError>)
        ensures
            match r {
                Ok(template) => parsed(input@) == Ok::<TemplateView, ParseError>(template@),
                Err(e) => parsed(input@) == Err::<TemplateView, ParseError>(e),
            },
            r matches Ok(template) ==> nodes_shaped(template@.nodes),
    {
        proof {
            law_parsed_is_shaped(input@);
        }
        let s = chars_of(input);
        match nodes(&s, 0) {
            Ok((found, end)) => {
                if end >= s.len() {
                    Ok(Template { nodes: found })
                } else {
                    let (start, _) = tag_word_of(&s, end);
                    Err(ParseError { position: start, expected: Expected::Keyword })
                }
            },
            Err(e) => Err(e),
        }
    }
}

/// Reads a template: the tree of its nodes, or why and where the text is no
/// template.
pub fn parse_template(template_content: &String) -> (r: Result<Template, ParseError>)
    ensures
        match r {
            Ok(template) => parsed(template_content@) == Ok::<TemplateView, ParseError>(template@),
            Err(e) => parsed(template_content@) == Err::<TemplateView, ParseError>(e),
        },
        r matches Ok(template) ==> nodes_shaped(template@.nodes),
{
    TemplateParser::parse(template_content.as_str())
}

/// The words for what a template lacks.
pub open spec fn expectation_text(expected: Expected) -> Seq<char> {
    match expected {
        Expected::Expression => "an expression"@,
        Expected::Identifier => "a name"@,
        Expected::Digit => "a digit"@,
        Expected::Key => "a key"@,
        Expected::Colon => "':'"@,
        Expected::ClosingQuote => "'\"'"@,
        Expected::ClosingBracket => "',' or ']'"@,
        Expected::ClosingBrace => "',' or '}'"@,
        Expected::ClosingParenthesis => "',' or ')'"@,
        Expected::ClosingExpression => "'}}'"@,
        Expected::ClosingTag => "'%}'"@,
        Expected::ClosingComment => "'#}'"@,
        Expected::Keyword => "'if', 'unless' or 'for'"@,
        Expected::In => "'in'"@,
        Expected::End => "'elif', 'else' or 'end'"@,
    }
}

/// The words for what a template lacks.
fn expectation(expected: Expected) -> (r: &'static str)
    ensures
        r@ == expectation_text(expected),
{
    match expected {
        Expected::Expression => "an expression",
        Expected::Identifier => "a name",
        Expected::Digit => "a digit",
        Expected::Key => "a key",
        Expected::Colon => "':'",
        Expected::ClosingQuote => "'\"'",
        Expected::ClosingBracket => "',' or ']'",
        Expected::ClosingBrace => "',' or '}'",
        Expected::ClosingParenthesis => "',' or ')'",
        Expected::ClosingExpression => "'}}'",
        Expected::ClosingTag => "'%}'",
        Expected::ClosingComment => "'#}'",
        Expected::Keyword => "'if', 'unless' or 'for'",
        Expected::In => "'in'",
        Expected::End => "'elif', 'else' or 'end'",
    }
}

impl ParseError {
    /// The text of [`ParseError::message`].
    pub open spec fn message_text(&self) -> Seq<char> {
        "expected "@ + expectation_text(self.expected) + " at character "@ + decimal(
            self.position as int,
        )
    }

    /// The sentence that tells a person where the template goes wrong.
    pub fn message(&self) -> (r: String)
        ensures
            r@ == self.message_text(),
    {
        let mut r = String::from_str("expected ");
        r.append(expectation(self.expected));
        r.append(" at character ");
        r.append(string_of(&decimal_of_u64(self.position as u64)).as_str());
        r
    }
}

} // verus!
