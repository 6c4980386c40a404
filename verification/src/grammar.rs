use vstd::prelude::*;
use crate::decimal::is_digit;
use crate::search::find;
use crate::template::{
    BranchView, CallView, EntryView, ExpressionView, HeadView, LiteralView, LoopView, NodeView,
    TemplateView, TestView,
};

verus! {

/// What a template lacks where it cannot be read on.
#[derive(Clone, Copy, Debug, PartialEq, Eq, Structural)]
pub enum Expected {
    /// A literal or the name of a property.
    Expression,
    /// A name.
    Identifier,
    /// A digit.
    Digit,
    /// The key of an entry of a dictionary.
    Key,
    /// The colon behind the key of an entry.
    Colon,
    /// The quote that ends a string.
    ClosingQuote,
    /// A comma or the bracket that ends an array.
    ClosingBracket,
    /// A comma or the brace that ends a dictionary.
    ClosingBrace,
    /// A comma or the parenthesis that ends the arguments of a call.
    ClosingParenthesis,
    /// The two braces that end an expression.
    ClosingExpression,
    /// The percent sign and brace that end a tag.
    ClosingTag,
    /// The number sign and brace that end a comment.
    ClosingComment,
    /// One of `if`, `unless` and `for`.
    Keyword,
    /// The word `in` of a loop.
    In,
    /// The tag that ends a block, or one that goes on with it.
    End,
}

/// Why a text is no template: what is lacking, and at which character.
#[derive(Clone, Copy, Debug, PartialEq, Eq, Structural)]
pub struct ParseError {
    pub position: usize,
    pub expected: Expected,
}

/// What reading a part of a template gives: what was read and the position
/// behind it, or why it cannot be read.
pub type Step<T> = Result<(T, int), ParseError>;

/// The failure to read on at `position` for want of `expected`.
pub open spec fn fault<T>(position: int, expected: Expected) -> Step<T> {
    Err(ParseError { position: position as usize, expected })
}

/// Whether the character `c` stands at `pos`.
pub open spec fn at(s: Seq<char>, pos: int, c: char) -> bool {
    0 <= pos < s.len() && s[pos] == c
}

/// Whether a character is white space between the parts of a tag.
pub open spec fn is_space(c: char) -> bool {
    c == ' ' || c == '\t' || c == '\n' || c == '\r'
}

/// Whether a character can stand in a name.
pub open spec fn is_word_char(c: char) -> bool {
    ('a' <= c && c <= 'z') || ('A' <= c && c <= 'Z') || is_digit(c) || c == '_'
}

/// Whether a character can begin a name.
pub open spec fn is_word_start(c: char) -> bool {
    is_word_char(c) && !is_digit(c)
}

/// A class of characters.
#[derive(Clone, Copy, Debug, PartialEq, Eq, Structural)]
pub enum Class {
    /// White space.
    Space,
    /// What can stand in a name.
    Word,
    /// The digits.
    Digit,
    /// All but the quote.
    Unquoted,
}

/// Whether a character is of a class.
pub open spec fn in_class(class: Class, c: char) -> bool {
    match class {
        Class::Space => is_space(c),
        Class::Word => is_word_char(c),
        Class::Digit => is_digit(c),
        Class::Unquoted => c != '"',
    }
}

/// The number of characters of a class from `pos` on, up to the first that
/// is not of it.
pub open spec fn run(s: Seq<char>, pos: int, class: Class) -> nat
    decreases s.len() - pos,
{
    if 0 <= pos < s.len() && in_class(class, s[pos]) {
        1 + run(s, pos + 1, class)
    } else {
        0
    }
}

/// The number of white-space characters at `pos`.
pub open spec fn blanks(s: Seq<char>, pos: int) -> nat {
    run(s, pos, Class::Space)
}

/// The length of the word at `pos`.
pub open spec fn word_len(s: Seq<char>, pos: int) -> nat {
    run(s, pos, Class::Word)
}

/// The number of digits at `pos`.
pub open spec fn digits_len(s: Seq<char>, pos: int) -> nat {
    run(s, pos, Class::Digit)
}

/// The word at `pos`.
pub open spec fn word_at(s: Seq<char>, pos: int) -> Seq<char> {
    s.subrange(pos, pos + word_len(s, pos))
}

/// Whether a name can begin at `pos`.
pub open spec fn word_starts(s: Seq<char>, pos: int) -> bool {
    0 <= pos < s.len() && is_word_start(s[pos])
}

/// The length of the fraction of a number at `pos`: a point and digits.
pub open spec fn fraction_len(s: Seq<char>, pos: int) -> nat {
    if at(s, pos, '.') && digits_len(s, pos + 1) > 0 {
        1 + digits_len(s, pos + 1)
    } else {
        0
    }
}

/// The length of the exponent of a number at `pos`: `e`, a sign or none, and
/// digits.
pub open spec fn exponent_len(s: Seq<char>, pos: int) -> nat {
    if at(s, pos, 'e') || at(s, pos, 'E') {
        let sign: nat = if at(s, pos + 1, '+') || at(s, pos + 1, '-') { 1 } else { 0 };
        if digits_len(s, pos + 1 + sign) > 0 {
            1 + sign + digits_len(s, pos + 1 + sign)
        } else {
            0
        }
    } else {
        0
    }
}

/// The number at `pos`: a minus sign or none, digits, a fraction or none, an
/// exponent or none. With a fraction or an exponent it is a floating-point
/// number, else an integer.
pub open spec fn number_at(s: Seq<char>, pos: int) -> Step<LiteralView> {
    let sign: nat = if at(s, pos, '-') { 1 } else { 0 };
    let whole = digits_len(s, pos + sign);
    let fraction = fraction_len(s, pos + sign + whole);
    let exponent = exponent_len(s, pos + sign + whole + fraction);
    let end = pos + sign + whole + fraction + exponent;
    if whole == 0 {
        fault(pos + sign, Expected::Digit)
    } else if fraction + exponent > 0 {
        Ok((LiteralView::Float(s.subrange(pos, end)), end))
    } else {
        Ok((LiteralView::Integer(s.subrange(pos, end)), end))
    }
}

/// The number of characters from `pos` up to the next quote or the end.
pub open spec fn unquoted(s: Seq<char>, pos: int) -> nat {
    run(s, pos, Class::Unquoted)
}

/// The string at `pos`, where a quote stands: all up to the next quote, the
/// quotes included.
pub open spec fn string_at(s: Seq<char>, pos: int) -> Step<Seq<char>> {
    let end = pos + 1 + unquoted(s, pos + 1);
    if at(s, end, '"') {
        Ok((s.subrange(pos, end + 1), end + 1))
    } else {
        fault(end, Expected::ClosingQuote)
    }
}

/// The names behind the first of a path: each behind a point.
pub open spec fn names_at(s: Seq<char>, pos: int) -> Step<Seq<Seq<char>>>
    decreases s.len() - pos, 0int,
{
    if at(s, pos, '.') {
        if word_starts(s, pos + 1) && pos + 1 + word_len(s, pos + 1) <= s.len() {
            match names_at(s, pos + 1 + word_len(s, pos + 1)) {
                Err(e) => Err(e),
                Ok((rest, end)) => Ok((seq![word_at(s, pos + 1)] + rest, end)),
            }
        } else {
            fault(pos + 1, Expected::Identifier)
        }
    } else {
        Ok((Seq::empty(), pos))
    }
}

/// What is wanted where a list that `close` ends goes wrong.
pub open spec fn closing(close: char) -> Expected {
    if close == ']' {
        Expected::ClosingBracket
    } else if close == ')' {
        Expected::ClosingParenthesis
    } else {
        Expected::ClosingBrace
    }
}

/// The head of an expression at `pos`: a string, an array, a dictionary, a
/// number, one of the words `null`, `true` and `false`, or a path.
pub open spec fn head_at(s: Seq<char>, pos: int) -> Step<HeadView>
    decreases s.len() - pos, 0int,
{
    if at(s, pos, '"') {
        match string_at(s, pos) {
            Err(e) => Err(e),
            Ok((text, end)) => Ok((HeadView::Literal(LiteralView::Text(text)), end)),
        }
    } else if at(s, pos, '[') {
        match items_at(s, pos + 1, ']') {
            Err(e) => Err(e),
            Ok((items, end)) => Ok((HeadView::Literal(LiteralView::Array(items)), end)),
        }
    } else if at(s, pos, '{') {
        match entries_at(s, pos + 1) {
            Err(e) => Err(e),
            Ok((entries, end)) => Ok((HeadView::Literal(LiteralView::Dictionary(entries)), end)),
        }
    } else if at(s, pos, '-') || (0 <= pos < s.len() && is_digit(s[pos])) {
        match number_at(s, pos) {
            Err(e) => Err(e),
            Ok((number, end)) => Ok((HeadView::Literal(number), end)),
        }
    } else if word_starts(s, pos) {
        let word = word_at(s, pos);
        let end = pos + word_len(s, pos);
        if word == "null"@ {
            Ok((HeadView::Literal(LiteralView::Null), end))
        } else if word == "true"@ || word == "false"@ {
            Ok((HeadView::Literal(LiteralView::Boolean(word)), end))
        } else {
            match names_at(s, end) {
                Err(e) => Err(e),
                Ok((rest, after)) => Ok((HeadView::Properties(seq![word] + rest), after)),
            }
        }
    } else {
        fault(pos, Expected::Expression)
    }
}

/// The calls behind the head of an expression from `pos` on: each behind a
/// bar, a name with arguments in parentheses or without.
pub open spec fn calls_at(s: Seq<char>, pos: int) -> Step<Seq<CallView>>
    decreases s.len() - pos, 0int,
{
    let bar = pos + blanks(s, pos);
    if at(s, bar, '|') {
        let start = bar + 1 + blanks(s, bar + 1);
        if word_starts(s, start) {
            let end = start + word_len(s, start);
            let open = end + blanks(s, end);
            let arguments = if at(s, open, '(') {
                items_at(s, open + 1, ')')
            } else {
                Ok((Seq::empty(), end))
            };
            match arguments {
                Err(e) => Err(e),
                Ok((arguments, next)) => if pos < next <= s.len() {
                    match calls_at(s, next) {
                        Err(e) => Err(e),
                        Ok((rest, after)) => Ok(
                            (seq![CallView { name: word_at(s, start), arguments }] + rest, after),
                        ),
                    }
                } else {
                    fault(next, Expected::Expression)
                },
            }
        } else {
            fault(start, Expected::Identifier)
        }
    } else {
        Ok((Seq::empty(), pos))
    }
}

/// The expression at `pos`, behind white space or none: a head and its
/// calls.
pub open spec fn expression_at(s: Seq<char>, pos: int) -> Step<ExpressionView>
    decreases s.len() - pos, 1int,
{
    let start = pos + blanks(s, pos);
    if start > s.len() {
        fault(start, Expected::Expression)
    } else {
        match head_at(s, start) {
            Err(e) => Err(e),
            Ok((head, next)) => if pos < next <= s.len() {
                match calls_at(s, next) {
                    Err(e) => Err(e),
                    Ok((calls, after)) => Ok((ExpressionView { head, calls }, after)),
                }
            } else {
                fault(next, Expected::Expression)
            },
        }
    }
}

/// The expressions of a list from `pos` on, with commas between them, up to
/// the character `close` that ends the list.
pub open spec fn items_at(s: Seq<char>, pos: int, close: char) -> Step<Seq<ExpressionView>>
    decreases s.len() - pos, 3int,
{
    if at(s, pos + blanks(s, pos), close) {
        Ok((Seq::empty(), pos + blanks(s, pos) + 1))
    } else {
        more_items_at(s, pos, close)
    }
}

/// The expressions of a list that is not empty from `pos` on.
pub open spec fn more_items_at(s: Seq<char>, pos: int, close: char) -> Step<Seq<ExpressionView>>
    decreases s.len() - pos, 2int,
{
    match expression_at(s, pos) {
        Err(e) => Err(e),
        Ok((item, next)) => {
            let mark = next + blanks(s, next);
            if at(s, mark, ',') {
                if pos < mark + 1 {
                    match more_items_at(s, mark + 1, close) {
                        Err(e) => Err(e),
                        Ok((rest, after)) => Ok((seq![item] + rest, after)),
                    }
                } else {
                    fault(mark, closing(close))
                }
            } else if at(s, mark, close) {
                Ok((seq![item], mark + 1))
            } else {
                fault(mark, closing(close))
            }
        },
    }
}

/// The entries of a dictionary from `pos` on, up to the brace that ends it.
pub open spec fn entries_at(s: Seq<char>, pos: int) -> Step<Seq<EntryView>>
    decreases s.len() - pos, 3int,
{
    if at(s, pos + blanks(s, pos), '}') {
        Ok((Seq::empty(), pos + blanks(s, pos) + 1))
    } else {
        more_entries_at(s, pos)
    }
}

/// The key of an entry at `pos`: a name, or a string with its quotes.
pub open spec fn key_at(s: Seq<char>, pos: int) -> Step<Seq<char>> {
    if at(s, pos, '"') {
        string_at(s, pos)
    } else if word_starts(s, pos) {
        Ok((word_at(s, pos), pos + word_len(s, pos)))
    } else {
        fault(pos, Expected::Key)
    }
}

/// The entries of a dictionary that is not empty from `pos` on: each a key,
/// a colon and an expression.
pub open spec fn more_entries_at(s: Seq<char>, pos: int) -> Step<Seq<EntryView>>
    decreases s.len() - pos, 2int,
{
    match key_at(s, pos + blanks(s, pos)) {
        Err(e) => Err(e),
        Ok((key, end)) => {
            let colon = end + blanks(s, end);
            if at(s, colon, ':') && pos <= colon {
                match expression_at(s, colon + 1) {
                    Err(e) => Err(e),
                    Ok((value, next)) => {
                        let mark = next + blanks(s, next);
                        if at(s, mark, ',') {
                            if pos < mark + 1 {
                                match more_entries_at(s, mark + 1) {
                                    Err(e) => Err(e),
                                    Ok((rest, after)) => Ok(
                                        (seq![EntryView { key, value }] + rest, after),
                                    ),
                                }
                            } else {
                                fault(mark, Expected::ClosingBrace)
                            }
                        } else if at(s, mark, '}') {
                            Ok((seq![EntryView { key, value }], mark + 1))
                        } else {
                            fault(mark, Expected::ClosingBrace)
                        }
                    },
                }
            } else {
                fault(colon, Expected::Colon)
            }
        },
    }
}

/// Whether a tag, an expression or a comment opens at `pos`.
pub open spec fn opens(s: Seq<char>, pos: int) -> bool {
    at(s, pos, '{') && (at(s, pos + 1, '{') || at(s, pos + 1, '%') || at(s, pos + 1, '#'))
}

/// The number of characters of the text at `pos`: all up to where something
/// opens.
pub open spec fn text_len(s: Seq<char>, pos: int) -> nat
    decreases s.len() - pos,
{
    if 0 <= pos < s.len() && !opens(s, pos) {
        1 + text_len(s, pos + 1)
    } else {
        0
    }
}

/// Where the word of the tag that opens at `pos` begins.
pub open spec fn tag_word_start(s: Seq<char>, pos: int) -> int {
    pos + 2 + blanks(s, pos + 2)
}

/// The word of the tag that opens at `pos`.
pub open spec fn tag_word(s: Seq<char>, pos: int) -> Seq<char> {
    word_at(s, tag_word_start(s, pos))
}

/// Where the word of the tag that opens at `pos` ends.
pub open spec fn tag_word_end(s: Seq<char>, pos: int) -> int {
    tag_word_start(s, pos) + word_len(s, tag_word_start(s, pos))
}

/// Whether a tag opens at `pos`.
pub open spec fn tag_at(s: Seq<char>, pos: int) -> bool {
    at(s, pos, '{') && at(s, pos + 1, '%')
}

/// Whether a tag that ends a part of a block opens at `pos`: one of `elif`,
/// `else` and `end`.
pub open spec fn closes(s: Seq<char>, pos: int) -> bool {
    tag_at(s, pos) && (tag_word(s, pos) == "elif"@ || tag_word(s, pos) == "else"@ || tag_word(
        s,
        pos,
    ) == "end"@)
}

/// The position behind the end of a tag from `pos` on: behind white space or
/// none, a percent sign and a brace.
pub open spec fn tag_end_at(s: Seq<char>, pos: int) -> Step<()> {
    let mark = pos + blanks(s, pos);
    if at(s, mark, '%') && at(s, mark + 1, '}') {
        Ok(((), mark + 2))
    } else {
        fault(mark, Expected::ClosingTag)
    }
}

/// An expression and the end of the tag that holds it, from `pos` on.
pub open spec fn condition_at(s: Seq<char>, pos: int) -> Step<ExpressionView> {
    match expression_at(s, pos) {
        Err(e) => Err(e),
        Ok((condition, next)) => match tag_end_at(s, next) {
            Err(e) => Err(e),
            Ok((_, after)) => Ok((condition, after)),
        },
    }
}

/// The nodes from `pos` on, up to the end of the text or to a tag that ends
/// a part of a block.
pub open spec fn nodes_at(s: Seq<char>, pos: int) -> Step<Seq<NodeView>>
    decreases s.len() - pos, 1int,
{
    if pos < 0 || pos >= s.len() || closes(s, pos) {
        Ok((Seq::empty(), pos))
    } else {
        match node_at(s, pos) {
            Err(e) => Err(e),
            Ok((node, next)) => if pos < next <= s.len() {
                match nodes_at(s, next) {
                    Err(e) => Err(e),
                    Ok((rest, after)) => Ok((seq![node] + rest, after)),
                }
            } else {
                fault(next, Expected::End)
            },
        }
    }
}

/// The branches of a conditional block behind its first, from the tag at
/// `pos` on, up to the tag that ends the block. Behind `else` only the end
/// can follow.
pub open spec fn branches_at(s: Seq<char>, pos: int, last: bool) -> Step<Seq<BranchView>>
    decreases s.len() - pos, 0int,
{
    if !closes(s, pos) {
        fault(pos, Expected::End)
    } else if tag_word(s, pos) == "end"@ {
        match tag_end_at(s, tag_word_end(s, pos)) {
            Err(e) => Err(e),
            Ok((_, after)) => Ok((Seq::empty(), after)),
        }
    } else if last {
        fault(tag_word_start(s, pos), Expected::End)
    } else {
        let opened = if tag_word(s, pos) == "elif"@ {
            match condition_at(s, tag_word_end(s, pos)) {
                Err(e) => Err(e),
                Ok((condition, next)) => Ok((TestView::Elif(condition), next)),
            }
        } else {
            match tag_end_at(s, tag_word_end(s, pos)) {
                Err(e) => Err(e),
                Ok((_, next)) => Ok((TestView::Else, next)),
            }
        };
        match opened {
            Err(e) => Err(e),
            Ok((test, next)) => if pos < next <= s.len() {
                match nodes_at(s, next) {
                    Err(e) => Err(e),
                    Ok((body, closer)) => if next <= closer <= s.len() {
                        match branches_at(s, closer, test is Else) {
                            Err(e) => Err(e),
                            Ok((rest, after)) => Ok((seq![BranchView { test, body }] + rest, after)),
                        }
                    } else {
                        fault(closer, Expected::End)
                    },
                }
            } else {
                fault(next, Expected::End)
            },
        }
    }
}

/// What ends a loop, from the tag at `pos` on: the `else` part, if there is
/// one, and the tag that ends the block.
pub open spec fn loop_end_at(s: Seq<char>, pos: int) -> Step<Option<Seq<NodeView>>>
    decreases s.len() - pos, 0int,
{
    if !closes(s, pos) {
        fault(pos, Expected::End)
    } else if tag_word(s, pos) == "end"@ {
        match tag_end_at(s, tag_word_end(s, pos)) {
            Err(e) => Err(e),
            Ok((_, after)) => Ok((None, after)),
        }
    } else if tag_word(s, pos) == "else"@ {
        match tag_end_at(s, tag_word_end(s, pos)) {
            Err(e) => Err(e),
            Ok((_, next)) => if pos < next <= s.len() {
                match nodes_at(s, next) {
                    Err(e) => Err(e),
                    Ok((nodes, closer)) => if closes(s, closer) && tag_word(s, closer) == "end"@ {
                        match tag_end_at(s, tag_word_end(s, closer)) {
                            Err(e) => Err(e),
                            Ok((_, after)) => Ok((Some(nodes), after)),
                        }
                    } else {
                        fault(closer, Expected::End)
                    },
                }
            } else {
                fault(next, Expected::End)
            },
        }
    } else {
        fault(tag_word_start(s, pos), Expected::End)
    }
}

/// The head of a loop from `pos` on, behind the word `for`: a name, the
/// word `in`, an expression and the end of the tag.
pub open spec fn loop_head_at(s: Seq<char>, pos: int) -> Step<(Seq<char>, ExpressionView)> {
    let name = pos + blanks(s, pos);
    if word_starts(s, name) {
        let word = name + word_len(s, name) + blanks(s, name + word_len(s, name));
        if word_at(s, word) == "in"@ {
            match condition_at(s, word + 2) {
                Err(e) => Err(e),
                Ok((iterable, after)) => Ok(((word_at(s, name), iterable), after)),
            }
        } else {
            fault(word, Expected::In)
        }
    } else {
        fault(name, Expected::Identifier)
    }
}

/// The node at `pos`: an expression between double braces, a comment, a
/// block, or text up to where the next of these opens.
pub open spec fn node_at(s: Seq<char>, pos: int) -> Step<NodeView>
    decreases s.len() - pos, 0int,
{
    if at(s, pos, '{') && at(s, pos + 1, '{') {
        match expression_at(s, pos + 2) {
            Err(e) => Err(e),
            Ok((expression, next)) => {
                let mark = next + blanks(s, next);
                if at(s, mark, '}') && at(s, mark + 1, '}') {
                    Ok((NodeView::Expression(expression), mark + 2))
                } else {
                    fault(mark, Expected::ClosingExpression)
                }
            },
        }
    } else if at(s, pos, '{') && at(s, pos + 1, '#') {
        match find(s, seq!['#', '}'], pos + 2) {
            Some(end) => Ok((NodeView::Comment, end + 2)),
            None => fault(s.len() as int, Expected::ClosingComment),
        }
    } else if tag_at(s, pos) {
        if tag_word(s, pos) == "if"@ || tag_word(s, pos) == "unless"@ {
            match condition_at(s, tag_word_end(s, pos)) {
                Err(e) => Err(e),
                Ok((condition, next)) => if pos < next <= s.len() {
                    match nodes_at(s, next) {
                        Err(e) => Err(e),
                        Ok((body, closer)) => if next <= closer <= s.len() {
                            match branches_at(s, closer, false) {
                                Err(e) => Err(e),
                                Ok((rest, after)) => {
                                    let test = if tag_word(s, pos) == "if"@ {
                                        TestView::If(condition)
                                    } else {
                                        TestView::Unless(condition)
                                    };
                                    Ok(
                                        (
                                            NodeView::Conditional(
                                                seq![BranchView { test, body }] + rest,
                                            ),
                                            after,
                                        ),
                                    )
                                },
                            }
                        } else {
                            fault(closer, Expected::End)
                        },
                    }
                } else {
                    fault(next, Expected::End)
                },
            }
        } else if tag_word(s, pos) == "for"@ {
            match loop_head_at(s, tag_word_end(s, pos)) {
                Err(e) => Err(e),
                Ok(((variable, iterable), next)) => if pos < next <= s.len() {
                    match nodes_at(s, next) {
                        Err(e) => Err(e),
                        Ok((body, closer)) => if next <= closer <= s.len() {
                            match loop_end_at(s, closer) {
                                Err(e) => Err(e),
                                Ok((otherwise, after)) => Ok(
                                    (
                                        NodeView::Loop(
                                            LoopView { variable, iterable, body, otherwise },
                                        ),
                                        after,
                                    ),
                                ),
                            }
                        } else {
                            fault(closer, Expected::End)
                        },
                    }
                } else {
                    fault(next, Expected::End)
                },
            }
        } else {
            fault(tag_word_start(s, pos), Expected::Keyword)
        }
    } else {
        Ok((NodeView::Text(s.subrange(pos, pos + text_len(s, pos))), pos + text_len(s, pos)))
    }
}

/// The template that a text is: its nodes up to its end. A tag that ends a
/// part of a block outside of any block is a fault.
pub open spec fn parsed(s: Seq<char>) -> Result<TemplateView, ParseError> {
    match nodes_at(s, 0) {
        Err(e) => Err(e),
        Ok((nodes, end)) => if end >= s.len() {
            Ok(TemplateView { nodes })
        } else {
            Err(ParseError { position: tag_word_start(s, end) as usize, expected: Expected::Keyword })
        },
    }
}

} // verus!
