//! The lexer: from the characters of a document to line tokens, and from the
//! text of one line to a tree of inline markup.
//!
//! Every function here is total. Markup that is opened and not closed before
//! the line ends is kept as literal text ([`TextToken::TextExtra`]).
use crate::text::{chars_of, string_of};
use std::collections::VecDeque;
use vstd::prelude::*;
use vstd::string::StringExecFns;

verus! {

/// The model of one node of inline markup: strings are sequences of
/// characters, children are sequences of nodes.
pub enum Span {
    Verbatim(Seq<Span>),
    Underline(Seq<Span>),
    Crossed(Seq<Span>),
    Bold(Seq<Span>),
    Italic(Seq<Span>),
    Link { name: Seq<char>, handler: Seq<char>, path: Seq<char> },
    /// A delimiter that was never closed on its line, with what was lexed
    /// behind it.
    TextExtra(char, Seq<Span>),
    Text(Seq<char>),
}

/// The model of one line token.
pub enum LineToken {
    BracketOpen,
    Inside(Seq<char>),
    BracketClose,
    Heading(Seq<char>),
    Bullet(Seq<Span>),
    Text(Seq<Span>),
    Newline,
}

/// The name of a link's handler, as written in the document.
#[derive(Debug, PartialEq, Eq)]
pub struct Handler(pub String);

/// One node of inline markup, as the lexer finds it.
#[derive(Debug, PartialEq, Eq)]
pub enum TextToken {
    Verbatim(Vec<TextToken>),
    Underline(Vec<TextToken>),
    Crossed(Vec<TextToken>),
    Bold(Vec<TextToken>),
    Italic(Vec<TextToken>),
    Link { name: String, handler: Handler, path: String },
    TextExtra(char, Vec<TextToken>),
    Text(String),
}

/// The inline markup of one line.
#[derive(Debug, PartialEq, Eq)]
pub struct TextTokens(pub VecDeque<TextToken>);

/// One line token.
#[derive(Debug, PartialEq, Eq)]
pub enum Token {
    BracketOpen,
    Inside(String),
    BracketClose,
    Heading(String),
    Bullet(TextTokens),
    Text(TextTokens),
    Newline,
}

/// The line tokens of a document.
#[derive(Debug, PartialEq, Eq)]
pub struct Tokens(pub VecDeque<Token>);

/// The model of a markup node.
pub open spec fn span_of(token: TextToken) -> Span
    decreases token,
{
    match token {
        TextToken::Verbatim(children) => Span::Verbatim(
            Seq::new(
                children@.len(),
                |i: int|
                    if 0 <= i < children@.len() {
                        span_of(children@[i])
                    } else {
                        Span::Text(Seq::empty())
                    },
            ),
        ),
        TextToken::Underline(children) => Span::Underline(
            Seq::new(
                children@.len(),
                |i: int|
                    if 0 <= i < children@.len() {
                        span_of(children@[i])
                    } else {
                        Span::Text(Seq::empty())
                    },
            ),
        ),
        TextToken::Crossed(children) => Span::Crossed(
            Seq::new(
                children@.len(),
                |i: int|
                    if 0 <= i < children@.len() {
                        span_of(children@[i])
                    } else {
                        Span::Text(Seq::empty())
                    },
            ),
        ),
        TextToken::Bold(children) => Span::Bold(
            Seq::new(
                children@.len(),
                |i: int|
                    if 0 <= i < children@.len() {
                        span_of(children@[i])
                    } else {
                        Span::Text(Seq::empty())
                    },
            ),
        ),
        TextToken::Italic(children) => Span::Italic(
            Seq::new(
                children@.len(),
                |i: int|
                    if 0 <= i < children@.len() {
                        span_of(children@[i])
                    } else {
                        Span::Text(Seq::empty())
                    },
            ),
        ),
        TextToken::Link { name, handler, path } => Span::Link {
            name: name@,
            handler: handler.0@,
            path: path@,
        },
        TextToken::TextExtra(delimiter, children) => Span::TextExtra(
            delimiter,
            Seq::new(
                children@.len(),
                |i: int|
                    if 0 <= i < children@.len() {
                        span_of(children@[i])
                    } else {
                        Span::Text(Seq::empty())
                    },
            ),
        ),
        TextToken::Text(text) => Span::Text(text@),
    }
}

impl View for TextToken {
    type V = Span;

    open spec fn view(&self) -> Span {
        span_of(*self)
    }
}

/// The models of a sequence of markup nodes, in order.
pub open spec fn spans_of(tokens: Seq<TextToken>) -> Seq<Span> {
    Seq::new(tokens.len(), |i: int| tokens[i]@)
}

impl View for TextTokens {
    type V = Seq<Span>;

    open spec fn view(&self) -> Seq<Span> {
        spans_of(self.0@)
    }
}

impl View for Token {
    type V = LineToken;

    open spec fn view(&self) -> LineToken {
        match self {
            Token::BracketOpen => LineToken::BracketOpen,
            Token::Inside(text) => LineToken::Inside(text@),
            Token::BracketClose => LineToken::BracketClose,
            Token::Heading(name) => LineToken::Heading(name@),
            Token::Bullet(spans) => LineToken::Bullet(spans@),
            Token::Text(spans) => LineToken::Text(spans@),
            Token::Newline => LineToken::Newline,
        }
    }
}

/// The models of a sequence of line tokens, in order.
pub open spec fn line_tokens_of(tokens: Seq<Token>) -> Seq<LineToken> {
    Seq::new(tokens.len(), |i: int| tokens[i]@)
}

impl View for Tokens {
    type V = Seq<LineToken>;

    open spec fn view(&self) -> Seq<LineToken> {
        line_tokens_of(self.0@)
    }
}

/// A node with children is modelled by the models of its children.
pub proof fn lemma_view_children(token: TextToken)
    ensures
        token matches TextToken::Verbatim(c) ==> token@ == Span::Verbatim(spans_of(c@)),
        token matches TextToken::Underline(c) ==> token@ == Span::Underline(spans_of(c@)),
        token matches TextToken::Crossed(c) ==> token@ == Span::Crossed(spans_of(c@)),
        token matches TextToken::Bold(c) ==> token@ == Span::Bold(spans_of(c@)),
        token matches TextToken::Italic(c) ==> token@ == Span::Italic(spans_of(c@)),
        token matches TextToken::TextExtra(d, c) ==> token@ == Span::TextExtra(d, spans_of(c@)),
{
    reveal_with_fuel(span_of, 2);
    match token {
        TextToken::Verbatim(c) => {
            assert(token@->Verbatim_0 =~= spans_of(c@));
        },
        TextToken::Underline(c) => {
            assert(token@->Underline_0 =~= spans_of(c@));
        },
        TextToken::Crossed(c) => {
            assert(token@->Crossed_0 =~= spans_of(c@));
        },
        TextToken::Bold(c) => {
            assert(token@->Bold_0 =~= spans_of(c@));
        },
        TextToken::Italic(c) => {
            assert(token@->Italic_0 =~= spans_of(c@));
        },
        TextToken::TextExtra(d, c) => {
            assert(token@->TextExtra_1 =~= spans_of(c@));
        },
        _ => {},
    }
}

// ---------------------------------------------------------------------------
// Character classes and scanning
// ---------------------------------------------------------------------------

/// The five delimiters that open and close a styled span.
pub open spec fn is_style(c: char) -> bool {
    c == '`' || c == '_' || c == '-' || c == '*' || c == '/'
}

/// The six characters that end a run of plain text within a line.
pub open spec fn is_special(c: char) -> bool {
    is_style(c) || c == '|'
}

/// Whether the line ends at position `i`: at a newline or with the text.
pub open spec fn ends_line(s: Seq<char>, i: int) -> bool {
    i < 0 || i >= s.len() || s[i] == '\n'
}

/// The styled node that delimiter `d` stands for.
pub open spec fn styled(d: char, children: Seq<Span>) -> Span {
    if d == '`' {
        Span::Verbatim(children)
    } else if d == '_' {
        Span::Underline(children)
    } else if d == '-' {
        Span::Crossed(children)
    } else if d == '*' {
        Span::Bold(children)
    } else {
        Span::Italic(children)
    }
}

/// The first position at or after `i` that holds no space; the length of
/// `s` if there is none.
pub open spec fn spaces_end(s: Seq<char>, i: int) -> int
    decreases s.len() - i,
{
    if 0 <= i < s.len() && s[i] == ' ' {
        spaces_end(s, i + 1)
    } else {
        i
    }
}

/// The first position at or after `i` that holds `c`; the length of `s` if
/// there is none.
pub open spec fn position_of(s: Seq<char>, i: int, c: char) -> int
    decreases s.len() - i,
{
    if 0 <= i < s.len() && s[i] != c {
        position_of(s, i + 1, c)
    } else {
        i
    }
}

/// The first position at or after `i` that holds `c` or ends the line.
pub open spec fn position_on_line(s: Seq<char>, i: int, c: char) -> int
    decreases s.len() - i,
{
    if 0 <= i < s.len() && s[i] != c && s[i] != '\n' {
        position_on_line(s, i + 1, c)
    } else {
        i
    }
}

/// The first position at or after `i` that holds a special character or
/// ends the line.
pub open spec fn plain_end(s: Seq<char>, i: int) -> int
    decreases s.len() - i,
{
    if 0 <= i < s.len() && !is_special(s[i]) && s[i] != '\n' {
        plain_end(s, i + 1)
    } else {
        i
    }
}

/// The end of `s[from..to]` once the spaces at its end are left out.
pub open spec fn trimmed_end(s: Seq<char>, from: int, to: int) -> int
    decreases to - from,
{
    if 0 <= from < to <= s.len() && s[to - 1] == ' ' {
        trimmed_end(s, from, to - 1)
    } else {
        to
    }
}

/// Where the spaces end: within the text, behind spaces only, and before a
/// character that is no space.
pub proof fn lemma_spaces_end(s: Seq<char>, i: int)
    requires
        0 <= i <= s.len(),
    ensures
        i <= spaces_end(s, i) <= s.len(),
        spaces_end(s, i) < s.len() ==> s[spaces_end(s, i)] != ' ',
        forall|k: int| i <= k < spaces_end(s, i) ==> s[k] == ' ',
    decreases s.len() - i,
{
    if i < s.len() && s[i] == ' ' {
        lemma_spaces_end(s, i + 1);
    }
}

/// Where `c` is found: within the text, behind characters other than `c`,
/// and at a `c` unless the text ends there.
pub proof fn lemma_position_of(s: Seq<char>, i: int, c: char)
    requires
        0 <= i <= s.len(),
    ensures
        i <= position_of(s, i, c) <= s.len(),
        position_of(s, i, c) < s.len() ==> s[position_of(s, i, c)] == c,
        forall|k: int| i <= k < position_of(s, i, c) ==> s[k] != c,
    decreases s.len() - i,
{
    if i < s.len() && s[i] != c {
        lemma_position_of(s, i + 1, c);
    }
}

/// Where `c` is found on the line: within the text, behind characters that
/// are neither `c` nor a newline.
pub proof fn lemma_position_on_line(s: Seq<char>, i: int, c: char)
    requires
        0 <= i <= s.len(),
    ensures
        i <= position_on_line(s, i, c) <= s.len(),
        position_on_line(s, i, c) < s.len() ==> s[position_on_line(s, i, c)] == c || s[position_on_line(
            s,
            i,
            c,
        )] == '\n',
        forall|k: int| i <= k < position_on_line(s, i, c) ==> s[k] != c && s[k] != '\n',
    decreases s.len() - i,
{
    if i < s.len() && s[i] != c && s[i] != '\n' {
        lemma_position_on_line(s, i + 1, c);
    }
}

/// Where a run of plain text ends: within the text, behind plain characters
/// only, and before a special character or the end of the line.
pub proof fn lemma_plain_end(s: Seq<char>, i: int)
    requires
        0 <= i <= s.len(),
    ensures
        i <= plain_end(s, i) <= s.len(),
        plain_end(s, i) < s.len() ==> is_special(s[plain_end(s, i)]) || s[plain_end(s, i)] == '\n',
        forall|k: int| i <= k < plain_end(s, i) ==> !is_special(s[k]) && s[k] != '\n',
    decreases s.len() - i,
{
    if i < s.len() && !is_special(s[i]) && s[i] != '\n' {
        lemma_plain_end(s, i + 1);
    }
}

/// Where a text ends without the spaces at its end: behind a character that
/// is no space, with spaces only behind it.
pub proof fn lemma_trimmed_end(s: Seq<char>, from: int, to: int)
    requires
        0 <= from <= to <= s.len(),
    ensures
        from <= trimmed_end(s, from, to) <= to,
        from < trimmed_end(s, from, to) ==> s[trimmed_end(s, from, to) - 1] != ' ',
        forall|k: int| trimmed_end(s, from, to) <= k < to ==> s[k] == ' ',
    decreases to - from,
{
    if from < to && s[to - 1] == ' ' {
        lemma_trimmed_end(s, from, to - 1);
    }
}

// ---------------------------------------------------------------------------
// What the lexer computes
// ---------------------------------------------------------------------------

/// Where the three brackets of a link stand, for a link whose name starts
/// at `i`: the first `[` of the line, the first `:` behind it, the first `]`
/// behind that, if all three are on the line and `|` follows the `]` at
/// once. `None` if the line holds no such link.
pub open spec fn link_at(s: Seq<char>, i: int) -> Option<(int, int, int)> {
    let open = position_on_line(s, i, '[');
    let colon = position_on_line(s, open + 1, ':');
    let close = position_on_line(s, colon + 1, ']');
    if 0 <= i <= open < s.len() && s[open] == '[' && colon < s.len() && s[colon] == ':' && close
        < s.len() && s[close] == ']' && close + 1 < s.len() && s[close + 1] == '|' {
        Some((open, colon, close))
    } else {
        None
    }
}

/// The span that starts at position `i`, and the position behind it.
///
/// At the end of the line this is the empty text, and nothing is consumed.
/// A style delimiter takes one child at once, then children up to its
/// closer; a `|` starts a link if the line holds one, and else stands as
/// literal text before one child. Anything else starts a run of plain text.
///
/// The tests `i < j <= s.len()` are there for the termination
/// proof only: a child never ends before it starts
/// ([`lemma_span_at`]), so the other branch is never taken.
pub open spec fn span_at(s: Seq<char>, i: int) -> (Span, int)
    decreases s.len() - i, 0int,
{
    if ends_line(s, i) {
        (Span::Text(Seq::empty()), i)
    } else if is_style(s[i]) {
        let (first, j) = span_at(s, i + 1);
        if i < j <= s.len() {
            let (rest, k, closed) = children_at(s, j, s[i]);
            if closed {
                (styled(s[i], seq![first] + rest), k)
            } else {
                (Span::TextExtra(s[i], seq![first] + rest), k)
            }
        } else {
            (Span::Text(Seq::empty()), i)
        }
    } else if s[i] == '|' {
        match link_at(s, i + 1) {
            Some((open, colon, close)) => (
                Span::Link {
                    name: s.subrange(i + 1, open),
                    handler: s.subrange(open + 1, colon),
                    path: s.subrange(colon + 1, close),
                },
                close + 2,
            ),
            None => {
                let (child, j) = span_at(s, i + 1);
                (Span::TextExtra('|', seq![child]), j)
            },
        }
    } else {
        let j = plain_end(s, i + 1);
        (Span::Text(s.subrange(i, j)), j)
    }
}

/// The children of a styled span from position `i` on, the position behind
/// them, and whether the closer `d` was found there (it is then consumed).
/// The children end at the closer or with the line, whichever comes first.
pub open spec fn children_at(s: Seq<char>, i: int, d: char) -> (Seq<Span>, int, bool)
    decreases s.len() - i, 1int,
{
    if ends_line(s, i) {
        (Seq::empty(), i, false)
    } else if s[i] == d {
        (Seq::empty(), i + 1, true)
    } else {
        let (child, j) = span_at(s, i);
        if i < j <= s.len() {
            let (rest, k, closed) = children_at(s, j, d);
            (seq![child] + rest, k, closed)
        } else {
            (Seq::empty(), i, false)
        }
    }
}

/// A span ends within the text and not before its start; it consumes a
/// character unless the line ends where it starts. The same holds of the
/// children of a styled span, which consume the closer if there is one.
pub proof fn lemma_span_at(s: Seq<char>, i: int)
    requires
        0 <= i <= s.len(),
    ensures
        i <= span_at(s, i).1 <= s.len(),
        !ends_line(s, i) ==> i < span_at(s, i).1,
    decreases s.len() - i, 0int,
{
    if ends_line(s, i) {
    } else if is_style(s[i]) {
        lemma_span_at(s, i + 1);
        let j = span_at(s, i + 1).1;
        lemma_children_at(s, j, s[i]);
    } else if s[i] == '|' {
        lemma_position_on_line(s, i + 1, '[');
        let open = position_on_line(s, i + 1, '[');
        if open < s.len() {
            lemma_position_on_line(s, open + 1, ':');
            let colon = position_on_line(s, open + 1, ':');
            if colon < s.len() {
                lemma_position_on_line(s, colon + 1, ']');
            }
        }
        lemma_span_at(s, i + 1);
    } else {
        lemma_plain_end(s, i + 1);
    }
}

/// The children of a styled span end within the text and not before their
/// start.
pub proof fn lemma_children_at(s: Seq<char>, i: int, d: char)
    requires
        0 <= i <= s.len(),
    ensures
        i <= children_at(s, i, d).1 <= s.len(),
    decreases s.len() - i, 1int,
{
    if ends_line(s, i) {
    } else if s[i] == d {
    } else {
        lemma_span_at(s, i);
        lemma_children_at(s, span_at(s, i).1, d);
    }
}

/// The spans of the line from position `i` on, and the position at which
/// the line ends.
pub open spec fn spans_at(s: Seq<char>, i: int) -> (Seq<Span>, int)
    decreases s.len() - i,
{
    if ends_line(s, i) {
        (Seq::empty(), i)
    } else {
        let (span, j) = span_at(s, i);
        if i < j <= s.len() {
            let (rest, k) = spans_at(s, j);
            (seq![span] + rest, k)
        } else {
            (Seq::empty(), i)
        }
    }
}

/// The spans of a line end where the line ends.
pub proof fn lemma_spans_at(s: Seq<char>, i: int)
    requires
        0 <= i <= s.len(),
    ensures
        i <= spans_at(s, i).1 <= s.len(),
        !ends_line(s, i) ==> i < spans_at(s, i).1,
        ends_line(s, spans_at(s, i).1),
    decreases s.len() - i,
{
    if !ends_line(s, i) {
        lemma_span_at(s, i);
        lemma_spans_at(s, span_at(s, i).1);
    }
}

/// The line tokens of the text from position `i` on, where `i` is the start
/// of a line or stands among the spaces at its start.
///
/// Spaces at the start of a line are skipped. A newline gives
/// [`LineToken::Newline`]. `#` gives the heading's name, without the spaces
/// around it, and a newline. `[` gives the bracket, what stands inside it up
/// to the next `]` (without the spaces behind `[`), the closing bracket, and
/// the rest of the line as text. `-` gives a bullet with the rest of the
/// line. Any other character starts a line of text.
pub open spec fn tokens_at(s: Seq<char>, i: int) -> Seq<LineToken>
    decreases s.len() - i,
{
    if i < 0 || i >= s.len() {
        Seq::empty()
    } else if s[i] == ' ' {
        tokens_at(s, i + 1)
    } else if s[i] == '\n' {
        seq![LineToken::Newline] + tokens_at(s, i + 1)
    } else if s[i] == '#' {
        let from = spaces_end(s, i + 1);
        let end = position_of(s, from, '\n');
        let name = s.subrange(from, trimmed_end(s, from, end));
        let next = if end < s.len() {
            end + 1
        } else {
            end
        };
        proof {
            lemma_spaces_end(s, i + 1);
            lemma_position_of(s, from, '\n');
        }
        seq![LineToken::Heading(name), LineToken::Newline] + tokens_at(s, next)
    } else if s[i] == '[' {
        let from = spaces_end(s, i + 1);
        let close = position_of(s, from, ']');
        let after = if close < s.len() {
            close + 1
        } else {
            close
        };
        let (spans, end) = spans_at(s, spaces_end(s, after));
        proof {
            lemma_spaces_end(s, i + 1);
            lemma_position_of(s, from, ']');
            lemma_spaces_end(s, after);
            lemma_spans_at(s, spaces_end(s, after));
        }
        seq![
            LineToken::BracketOpen,
            LineToken::Inside(s.subrange(from, close)),
            LineToken::BracketClose,
            LineToken::Text(spans),
        ] + tokens_at(s, end)
    } else if s[i] == '-' {
        let (spans, end) = spans_at(s, spaces_end(s, i + 1));
        proof {
            lemma_spaces_end(s, i + 1);
            lemma_spans_at(s, spaces_end(s, i + 1));
        }
        seq![LineToken::Bullet(spans)] + tokens_at(s, end)
    } else {
        let (spans, end) = spans_at(s, i);
        proof {
            lemma_spans_at(s, i);
        }
        seq![LineToken::Text(spans)] + tokens_at(s, end)
    }
}

/// The line tokens of a whole document.
pub open spec fn tokens_of_text(s: Seq<char>) -> Seq<LineToken> {
    tokens_at(s, 0)
}

// ---------------------------------------------------------------------------
// Markup
// ---------------------------------------------------------------------------

/// The text that a span is written as: a styled span between its
/// delimiters, an unclosed delimiter before what follows it, a link with its
/// handler and path.
pub open spec fn markup_of(span: Span) -> Seq<char>
    decreases span,
{
    match span {
        Span::Verbatim(children) => seq!['`'] + markup_of_all(children) + seq!['`'],
        Span::Underline(children) => seq!['_'] + markup_of_all(children) + seq!['_'],
        Span::Crossed(children) => seq!['-'] + markup_of_all(children) + seq!['-'],
        Span::Bold(children) => seq!['*'] + markup_of_all(children) + seq!['*'],
        Span::Italic(children) => seq!['/'] + markup_of_all(children) + seq!['/'],
        Span::Link { name, handler, path } => seq!['|'] + name + seq!['['] + handler + seq![':']
            + path + seq![']', '|'],
        Span::TextExtra(delimiter, children) => seq![delimiter] + markup_of_all(children),
        Span::Text(text) => text,
    }
}

/// The text that a sequence of spans is written as: one behind the other.
pub open spec fn markup_of_all(spans: Seq<Span>) -> Seq<char>
    decreases spans,
{
    if spans.len() == 0 {
        Seq::empty()
    } else {
        markup_of(spans[0]) + markup_of_all(spans.drop_first())
    }
}

/// The markup of a span before other spans.
pub proof fn lemma_markup_of_first(first: Span, rest: Seq<Span>)
    ensures
        markup_of_all(seq![first] + rest) == markup_of(first) + markup_of_all(rest),
{
    let all = seq![first] + rest;
    assert(all[0] == first);
    assert(all.drop_first() =~= rest);
}

/// Lexing loses nothing: a span is written as the very text it was lexed
/// from.
pub proof fn lemma_span_markup(s: Seq<char>, i: int)
    requires
        0 <= i <= s.len(),
    ensures
        markup_of(span_at(s, i).0) == s.subrange(i, span_at(s, i).1),
    decreases s.len() - i, 0int,
{
    lemma_span_at(s, i);
    if ends_line(s, i) {
        assert(s.subrange(i, i) =~= Seq::<char>::empty());
    } else if is_style(s[i]) {
        let d = s[i];
        lemma_span_at(s, i + 1);
        lemma_span_markup(s, i + 1);
        let (first, j) = span_at(s, i + 1);
        lemma_children_at(s, j, d);
        lemma_children_markup(s, j, d);
        let (rest, k, closed) = children_at(s, j, d);
        lemma_markup_of_first(first, rest);
        let inner = markup_of_all(seq![first] + rest);
        assert(inner == s.subrange(i + 1, j) + markup_of_all(rest));
        if closed {
            let tail = markup_of_all(rest) + seq![d];
            assert(inner + seq![d] =~= s.subrange(i + 1, j) + tail);
            assert(seq![d] + inner + seq![d] =~= seq![d] + (inner + seq![d]));
            assert(seq![d] + (s.subrange(i + 1, j) + s.subrange(j, k)) =~= s.subrange(i, k));
        } else {
            assert(seq![d] + inner =~= s.subrange(i, k));
        }
    } else if s[i] == '|' {
        match link_at(s, i + 1) {
            Some((open, colon, close)) => {
                lemma_position_on_line(s, i + 1, '[');
                lemma_position_on_line(s, open + 1, ':');
                lemma_position_on_line(s, colon + 1, ']');
                assert(seq!['|'] + s.subrange(i + 1, open) + seq!['['] + s.subrange(open + 1, colon)
                    + seq![':'] + s.subrange(colon + 1, close) + seq![']', '|'] =~= s.subrange(
                    i,
                    close + 2,
                ));
            },
            None => {
                lemma_span_at(s, i + 1);
                lemma_span_markup(s, i + 1);
                let (child, j) = span_at(s, i + 1);
                lemma_markup_of_first(child, Seq::empty());
                assert(seq![child] + Seq::<Span>::empty() =~= seq![child]);
                assert(seq!['|'] + (s.subrange(i + 1, j) + Seq::<char>::empty()) =~= s.subrange(
                    i,
                    j,
                ));
            },
        }
    } else {
        lemma_plain_end(s, i + 1);
    }
}

/// The children of a styled span, with the closer if it was found, are
/// written as the very text they were lexed from.
pub proof fn lemma_children_markup(s: Seq<char>, i: int, d: char)
    requires
        0 <= i <= s.len(),
    ensures
        children_at(s, i, d).2 ==> markup_of_all(children_at(s, i, d).0) + seq![d] == s.subrange(
            i,
            children_at(s, i, d).1,
        ),
        !children_at(s, i, d).2 ==> markup_of_all(children_at(s, i, d).0) == s.subrange(
            i,
            children_at(s, i, d).1,
        ),
    decreases s.len() - i, 1int,
{
    lemma_children_at(s, i, d);
    if ends_line(s, i) {
        assert(s.subrange(i, i) =~= Seq::<char>::empty());
    } else if s[i] == d {
        assert(Seq::<char>::empty() + seq![d] =~= s.subrange(i, i + 1));
    } else {
        lemma_span_at(s, i);
        lemma_span_markup(s, i);
        let (child, j) = span_at(s, i);
        lemma_children_at(s, j, d);
        lemma_children_markup(s, j, d);
        let (rest, k, closed) = children_at(s, j, d);
        lemma_markup_of_first(child, rest);
        if closed {
            let tail = markup_of_all(rest) + seq![d];
            assert(s.subrange(i, j) + markup_of_all(rest) + seq![d] =~= s.subrange(i, j) + tail);
            assert(s.subrange(i, j) + s.subrange(j, k) =~= s.subrange(i, k));
        } else {
            assert(s.subrange(i, j) + markup_of_all(rest) =~= s.subrange(i, k));
        }
    }
}

/// The spans of a line are written as the very text of the line.
pub proof fn lemma_spans_markup(s: Seq<char>, i: int)
    requires
        0 <= i <= s.len(),
    ensures
        markup_of_all(spans_at(s, i).0) == s.subrange(i, spans_at(s, i).1),
    decreases s.len() - i,
{
    lemma_spans_at(s, i);
    if ends_line(s, i) {
        assert(s.subrange(i, i) =~= Seq::<char>::empty());
    } else {
        lemma_span_at(s, i);
        lemma_span_markup(s, i);
        let (span, j) = span_at(s, i);
        lemma_spans_at(s, j);
        lemma_spans_markup(s, j);
        let (rest, k) = spans_at(s, j);
        lemma_markup_of_first(span, rest);
        assert(s.subrange(i, j) + s.subrange(j, k) =~= s.subrange(i, k));
    }
}

/// The name of a heading neither starts nor ends with a space, and stays on
/// its line; a newline token follows the heading.
pub proof fn lemma_heading_name_is_trimmed(s: Seq<char>, i: int)
    requires
        0 <= i < s.len(),
        s[i] == '#',
    ensures
        tokens_at(s, i).len() >= 2,
        tokens_at(s, i)[1] == LineToken::Newline,
        tokens_at(s, i)[0] matches LineToken::Heading(name) && (name.len() > 0 ==> name[0] != ' '
            && name.last() != ' ') && (forall|k: int| 0 <= k < name.len() ==> name[k] != '\n'),
{
    lemma_spaces_end(s, i + 1);
    let from = spaces_end(s, i + 1);
    lemma_position_of(s, from, '\n');
    let end = position_of(s, from, '\n');
    lemma_trimmed_end(s, from, end);
}

// ---------------------------------------------------------------------------
// The lexer
// ---------------------------------------------------------------------------

fn is_style_char(c: char) -> (b: bool)
    ensures
        b == is_style(c),
{
    c == '`' || c == '_' || c == '-' || c == '*' || c == '/'
}

fn skip_spaces(chars: &VecDeque<char>, from: usize) -> (end: usize)
    requires
        from <= chars.len(),
    ensures
        end == spaces_end(chars@, from as int),
        from <= end <= chars.len(),
{
    let mut at: usize = from;
    while at < chars.len() && chars[at] == ' '
        invariant
            from <= at <= chars.len(),
            spaces_end(chars@, at as int) == spaces_end(chars@, from as int),
        decreases chars.len() - at,
    {
        at += 1;
    }
    at
}

fn find(chars: &VecDeque<char>, from: usize, c: char) -> (end: usize)
    requires
        from <= chars.len(),
    ensures
        end == position_of(chars@, from as int, c),
        from <= end <= chars.len(),
{
    let mut at: usize = from;
    while at < chars.len() && chars[at] != c
        invariant
            from <= at <= chars.len(),
            position_of(chars@, at as int, c) == position_of(chars@, from as int, c),
        decreases chars.len() - at,
    {
        at += 1;
    }
    at
}

fn find_on_line(chars: &VecDeque<char>, from: usize, c: char) -> (end: usize)
    requires
        from <= chars.len(),
    ensures
        end == position_on_line(chars@, from as int, c),
        from <= end <= chars.len(),
{
    let mut at: usize = from;
    while at < chars.len() && chars[at] != c && chars[at] != '\n'
        invariant
            from <= at <= chars.len(),
            position_on_line(chars@, at as int, c) == position_on_line(chars@, from as int, c),
        decreases chars.len() - at,
    {
        at += 1;
    }
    at
}

fn scan_plain(chars: &VecDeque<char>, from: usize) -> (end: usize)
    requires
        from <= chars.len(),
    ensures
        end == plain_end(chars@, from as int),
        from <= end <= chars.len(),
{
    let mut at: usize = from;
    while at < chars.len() && !is_style_char(chars[at]) && chars[at] != '|' && chars[at] != '\n'
        invariant
            from <= at <= chars.len(),
            plain_end(chars@, at as int) == plain_end(chars@, from as int),
        decreases chars.len() - at,
    {
        at += 1;
    }
    at
}

fn trim_end(chars: &VecDeque<char>, from: usize, to: usize) -> (end: usize)
    requires
        from <= to <= chars.len(),
    ensures
        end == trimmed_end(chars@, from as int, to as int),
        from <= end <= to,
{
    let mut at: usize = to;
    while from < at && chars[at - 1] == ' '
        invariant
            from <= at <= to <= chars.len(),
            trimmed_end(chars@, from as int, at as int) == trimmed_end(
                chars@,
                from as int,
                to as int,
            ),
        decreases at - from,
    {
        at -= 1;
    }
    at
}

/// The styled node that delimiter `d` stands for, around `children`.
fn styled_token(d: char, children: Vec<TextToken>) -> (token: TextToken)
    requires
        is_style(d),
    ensures
        token@ == styled(d, spans_of(children@)),
{
    let token = if d == '`' {
        TextToken::Verbatim(children)
    } else if d == '_' {
        TextToken::Underline(children)
    } else if d == '-' {
        TextToken::Crossed(children)
    } else if d == '*' {
        TextToken::Bold(children)
    } else {
        TextToken::Italic(children)
    };
    proof {
        lemma_view_children(token);
    }
    token
}

impl TextToken {
    /// Lexes the span that starts at position `pos` of `chars`, and returns it
    /// with the position behind it.
    pub(crate) fn lex(chars: &VecDeque<char>, pos: usize) -> (r: (TextToken, usize))
        requires
            pos <= chars.len(),
        ensures
            r.0@ == span_at(chars@, pos as int).0,
            r.1 == span_at(chars@, pos as int).1,
            pos <= r.1 <= chars.len(),
            !ends_line(chars@, pos as int) ==> pos < r.1,
        decreases chars.len() - pos,
    {
        if pos >= chars.len() || chars[pos] == '\n' {
            return (TextToken::Text(String::new()), pos);
        }
        let c: char = chars[pos];
        if is_style_char(c) {
            let (first, after_first) = TextToken::lex(chars, pos + 1);
            let ghost first_span = first@;
            let mut children: Vec<TextToken> = Vec::new();
            children.push(first);
            let mut at: usize = after_first;
            let mut closed: bool = false;
            assert(spans_of(children@) =~= seq![first_span]);
            loop
                invariant_except_break
                    !closed,
                    pos < after_first <= at <= chars.len(),
                    seq![first_span] + children_at(chars@, after_first as int, c).0 == spans_of(
                        children@,
                    ) + children_at(chars@, at as int, c).0,
                    children_at(chars@, after_first as int, c).1 == children_at(
                        chars@,
                        at as int,
                        c,
                    ).1,
                    children_at(chars@, after_first as int, c).2 == children_at(
                        chars@,
                        at as int,
                        c,
                    ).2,
                ensures
                    pos < at <= chars.len(),
                    seq![first_span] + children_at(chars@, after_first as int, c).0 == spans_of(
                        children@,
                    ),
                    at == children_at(chars@, after_first as int, c).1,
                    closed == children_at(chars@, after_first as int, c).2,
                decreases chars.len() - at,
            {
                if at >= chars.len() || chars[at] == '\n' {
                    assert(spans_of(children@) + Seq::<Span>::empty() =~= spans_of(children@));
                    break;
                }
                if chars[at] == c {
                    assert(spans_of(children@) + Seq::<Span>::empty() =~= spans_of(children@));
                    at += 1;
                    closed = true;
                    break;
                }
                let ghost before = spans_of(children@);
                let (child, next) = TextToken::lex(chars, at);
                let ghost child_span = child@;
                children.push(child);
                proof {
                    let rest = children_at(chars@, next as int, c).0;
                    assert(spans_of(children@) =~= before.push(child_span));
                    assert(before + (seq![child_span] + rest) =~= before.push(child_span) + rest);
                }
                at = next;
            }
            let token = if closed {
                styled_token(c, children)
            } else {
                let extra = TextToken::TextExtra(c, children);
                proof {
                    lemma_view_children(extra);
                }
                extra
            };
            (token, at)
        } else if c == '|' {
            let open: usize = find_on_line(chars, pos + 1, '[');
            if open < chars.len() && chars[open] == '[' {
                let colon: usize = find_on_line(chars, open + 1, ':');
                if colon < chars.len() && chars[colon] == ':' {
                    let close: usize = find_on_line(chars, colon + 1, ']');
                    if close < chars.len() && chars[close] == ']' && close + 1 < chars.len()
                        && chars[close + 1] == '|' {
                        let link = TextToken::Link {
                            name: string_of(chars, pos + 1, open),
                            handler: Handler(string_of(chars, open + 1, colon)),
                            path: string_of(chars, colon + 1, close),
                        };
                        return (link, close + 2);
                    }
                }
            }
            let (child, next) = TextToken::lex(chars, pos + 1);
            let ghost child_span = child@;
            let mut children: Vec<TextToken> = Vec::new();
            children.push(child);
            let extra = TextToken::TextExtra('|', children);
            proof {
                lemma_view_children(extra);
                assert(spans_of(children@) =~= seq![child_span]);
            }
            (extra, next)
        } else {
            let end: usize = scan_plain(chars, pos + 1);
            (TextToken::Text(string_of(chars, pos, end)), end)
        }
    }
}

impl TextTokens {
    pub fn to_vecdeque(self) -> (spans: VecDeque<TextToken>)
        ensures
            spans == self.0,
    {
        self.0
    }

    /// Lexes the inline markup of the line from position `pos` on, and
    /// returns it with the position at which the line ends.
    pub(crate) fn lex(chars: &VecDeque<char>, pos: usize) -> (r: (TextTokens, usize))
        requires
            pos <= chars.len(),
        ensures
            r.0@ == spans_at(chars@, pos as int).0,
            r.1 == spans_at(chars@, pos as int).1,
            pos <= r.1 <= chars.len(),
            ends_line(chars@, r.1 as int),
    {
        let mut spans: VecDeque<TextToken> = VecDeque::new();
        let mut at: usize = pos;
        assert(spans_of(spans@) =~= Seq::<Span>::empty());
        while at < chars.len() && chars[at] != '\n'
            invariant
                pos <= at <= chars.len(),
                spans_at(chars@, pos as int).0 == spans_of(spans@) + spans_at(chars@, at as int).0,
                spans_at(chars@, pos as int).1 == spans_at(chars@, at as int).1,
            decreases chars.len() - at,
        {
            let ghost before = spans_of(spans@);
            let (span, next) = TextToken::lex(chars, at);
            let ghost model = span@;
            spans.push_back(span);
            proof {
                let rest = spans_at(chars@, next as int).0;
                assert(spans_of(spans@) =~= before.push(model));
                assert(before + (seq![model] + rest) =~= before.push(model) + rest);
            }
            at = next;
        }
        assert(spans_of(spans@) + Seq::<Span>::empty() =~= spans_of(spans@));
        (TextTokens(spans), at)
    }
}

impl Tokens {
    pub fn to_vecdeque(self) -> (tokens: VecDeque<Token>)
        ensures
            tokens == self.0,
    {
        self.0
    }

    /// Lexes a document. Every text has its tokens: nothing is refused.
    pub fn lex(text: &str) -> (tokens: Tokens)
        ensures
            tokens@ == tokens_of_text(text@),
            text@.len() == 0 ==> tokens@.len() == 0,
    {
        let chars = chars_of(text);
        let mut tokens: VecDeque<Token> = VecDeque::new();
        let mut pos: usize = 0;
        assert(line_tokens_of(tokens@) =~= Seq::<LineToken>::empty());
        while pos < chars.len()
            invariant
                pos <= chars.len(),
                tokens_at(chars@, 0) == line_tokens_of(tokens@) + tokens_at(chars@, pos as int),
            decreases chars.len() - pos,
        {
            let ghost before = line_tokens_of(tokens@);
            let ghost here = pos as int;
            let c: char = chars[pos];
            if c == ' ' {
                pos += 1;
            } else if c == '\n' {
                tokens.push_back(Token::Newline);
                pos += 1;
                proof {
                    let rest = tokens_at(chars@, pos as int);
                    assert(line_tokens_of(tokens@) =~= before.push(LineToken::Newline));
                    assert(before + (seq![LineToken::Newline] + rest) =~= before.push(
                        LineToken::Newline,
                    ) + rest);
                }
            } else if c == '#' {
                let from: usize = skip_spaces(&chars, pos + 1);
                let end: usize = find(&chars, from, '\n');
                let name = string_of(&chars, from, trim_end(&chars, from, end));
                let ghost name_model = name@;
                tokens.push_back(Token::Heading(name));
                tokens.push_back(Token::Newline);
                pos = if end < chars.len() {
                    end + 1
                } else {
                    end
                };
                proof {
                    let rest = tokens_at(chars@, pos as int);
                    let new = seq![LineToken::Heading(name_model), LineToken::Newline];
                    assert(line_tokens_of(tokens@) =~= before + new);
                    assert(before + (new + rest) =~= (before + new) + rest);
                    assert(tokens_at(chars@, here) == new + rest);
                }
            } else if c == '[' {
                let from: usize = skip_spaces(&chars, pos + 1);
                let close: usize = find(&chars, from, ']');
                let inside = string_of(&chars, from, close);
                let after: usize = if close < chars.len() {
                    close + 1
                } else {
                    close
                };
                let text_from: usize = skip_spaces(&chars, after);
                let (spans, end) = TextTokens::lex(&chars, text_from);
                let ghost inside_model = inside@;
                let ghost spans_model = spans@;
                tokens.push_back(Token::BracketOpen);
                tokens.push_back(Token::Inside(inside));
                tokens.push_back(Token::BracketClose);
                tokens.push_back(Token::Text(spans));
                pos = end;
                proof {
                    let rest = tokens_at(chars@, pos as int);
                    let new = seq![
                        LineToken::BracketOpen,
                        LineToken::Inside(inside_model),
                        LineToken::BracketClose,
                        LineToken::Text(spans_model),
                    ];
                    assert(line_tokens_of(tokens@) =~= before + new);
                    assert(before + (new + rest) =~= (before + new) + rest);
                    assert(tokens_at(chars@, here) == new + rest);
                }
            } else if c == '-' {
                let from: usize = skip_spaces(&chars, pos + 1);
                let (spans, end) = TextTokens::lex(&chars, from);
                let ghost spans_model = spans@;
                tokens.push_back(Token::Bullet(spans));
                pos = end;
                proof {
                    let rest = tokens_at(chars@, pos as int);
                    let new = seq![LineToken::Bullet(spans_model)];
                    assert(line_tokens_of(tokens@) =~= before + new);
                    assert(before + (new + rest) =~= (before + new) + rest);
                    assert(tokens_at(chars@, here) == new + rest);
                }
            } else {
                let (spans, end) = TextTokens::lex(&chars, pos);
                let ghost spans_model = spans@;
                tokens.push_back(Token::Text(spans));
                proof {
                    lemma_spans_at(chars@, here);
                }
                pos = end;
                proof {
                    let rest = tokens_at(chars@, pos as int);
                    let new = seq![LineToken::Text(spans_model)];
                    assert(line_tokens_of(tokens@) =~= before + new);
                    assert(before + (new + rest) =~= (before + new) + rest);
                    assert(tokens_at(chars@, here) == new + rest);
                }
            }
        }
        assert(line_tokens_of(tokens@) + Seq::<LineToken>::empty() =~= line_tokens_of(tokens@));
        Tokens(tokens)
    }
}


/// Appends the markup of `children`, one behind the other, to `out`.
fn write_markup_all(children: &Vec<TextToken>, out: &mut String)
    ensures
        final(out)@ == old(out)@ + markup_of_all(spans_of(children@)),
    decreases children,
{
    let ghost all = spans_of(children@);
    let ghost start = out@;
    let mut at: usize = 0;
    assert(all.skip(0) =~= all);
    while at < children.len()
        invariant
            at <= children.len(),
            all == spans_of(children@),
            out@ + markup_of_all(all.skip(at as int)) == start + markup_of_all(all),
        decreases children.len() - at,
    {
        let ghost before = out@;
        children[at].write_markup(out);
        proof {
            let rest = all.skip(at as int);
            assert(rest[0] == children@[at as int]@);
            assert(rest.drop_first() =~= all.skip(at + 1));
            assert(before + (markup_of(rest[0]) + markup_of_all(rest.drop_first())) =~= out@
                + markup_of_all(all.skip(at + 1)));
        }
        at += 1;
    }
    assert(out@ + Seq::<char>::empty() =~= out@);
}

impl TextToken {
    /// Appends the markup of this span to `out`.
    pub fn write_markup(&self, out: &mut String)
        ensures
            final(out)@ == old(out)@ + markup_of(self@),
        decreases self,
    {
        let ghost start = out@;
        proof {
            lemma_view_children(*self);
        }
        match self {
            TextToken::Verbatim(children) => {
                out.push('`');
                write_markup_all(children, out);
                out.push('`');
                assert(out@ =~= start + (seq!['`'] + markup_of_all(spans_of(children@)) + seq!['`']));
            },
            TextToken::Underline(children) => {
                out.push('_');
                write_markup_all(children, out);
                out.push('_');
                assert(out@ =~= start + (seq!['_'] + markup_of_all(spans_of(children@)) + seq!['_']));
            },
            TextToken::Crossed(children) => {
                out.push('-');
                write_markup_all(children, out);
                out.push('-');
                assert(out@ =~= start + (seq!['-'] + markup_of_all(spans_of(children@)) + seq!['-']));
            },
            TextToken::Bold(children) => {
                out.push('*');
                write_markup_all(children, out);
                out.push('*');
                assert(out@ =~= start + (seq!['*'] + markup_of_all(spans_of(children@)) + seq!['*']));
            },
            TextToken::Italic(children) => {
                out.push('/');
                write_markup_all(children, out);
                out.push('/');
                assert(out@ =~= start + (seq!['/'] + markup_of_all(spans_of(children@)) + seq!['/']));
            },
            TextToken::Link { name, handler, path } => {
                out.push('|');
                out.append(name.as_str());
                out.push('[');
                out.append(handler.0.as_str());
                out.push(':');
                out.append(path.as_str());
                out.push(']');
                out.push('|');
                assert(out@ =~= start + (seq!['|'] + name@ + seq!['['] + handler.0@ + seq![':']
                    + path@ + seq![']', '|']));
            },
            TextToken::TextExtra(delimiter, children) => {
                out.push(*delimiter);
                write_markup_all(children, out);
                assert(out@ =~= start + (seq![*delimiter] + markup_of_all(spans_of(children@))));
            },
            TextToken::Text(text) => {
                out.append(text.as_str());
            },
        }
    }

    /// The markup of this span.
    pub fn markup(&self) -> (text: String)
        ensures
            text@ == markup_of(self@),
    {
        let mut text = String::new();
        self.write_markup(&mut text);
        assert(Seq::<char>::empty() + markup_of(self@) =~= markup_of(self@));
        text
    }
}

impl TextTokens {
    /// Appends the markup of these spans to `out`.
    pub fn write_markup(&self, out: &mut String)
        ensures
            final(out)@ == old(out)@ + markup_of_all(self@),
    {
        let ghost all = self@;
        let ghost start = out@;
        let mut at: usize = 0;
        assert(all.skip(0) =~= all);
        while at < self.0.len()
            invariant
                at <= self.0.len(),
                all == self@,
                out@ + markup_of_all(all.skip(at as int)) == start + markup_of_all(all),
            decreases self.0.len() - at,
        {
            let ghost before = out@;
            self.0[at].write_markup(out);
            proof {
                let rest = all.skip(at as int);
                assert(rest[0] == self.0@[at as int]@);
                assert(rest.drop_first() =~= all.skip(at + 1));
                assert(before + (markup_of(rest[0]) + markup_of_all(rest.drop_first())) =~= out@
                    + markup_of_all(all.skip(at + 1)));
            }
            at += 1;
        }
        assert(out@ + Seq::<char>::empty() =~= out@);
    }

    /// The markup of these spans: for spans that were lexed, the text of
    /// their line (see [`lemma_spans_markup`]).
    pub fn markup(&self) -> (text: String)
        ensures
            text@ == markup_of_all(self@),
    {
        let mut text = String::new();
        self.write_markup(&mut text);
        assert(Seq::<char>::empty() + markup_of_all(self@) =~= markup_of_all(self@));
        text
    }
}

impl std::str::FromStr for Tokens {
    type Err = String;

    /// Lexes a document; this never fails.
    fn from_str(s: &str) -> (r: Result<Tokens, String>)
        ensures
            r is Ok,
            r->Ok_0@ == tokens_of_text(s@),
    {
        Ok(Tokens::lex(s))
    }
}

} // verus!
