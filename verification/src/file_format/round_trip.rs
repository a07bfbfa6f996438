//! What printing and parsing undo of each other.
//!
//! Lexing loses nothing of a line
//! ([`lemma_spans_markup`](crate::file_format::tokenizer::lemma_spans_markup)),
//! and a line without links is printed as it was written. So a line that was
//! parsed is parsed again from what is printed for it
//! ([`lemma_line_round_trip`], [`lemma_text_round_trip`]), and so are the
//! todos and bullets under a heading ([`lemma_body_round_trip`]) and whole
//! documents of headings with todos and bullets
//! ([`lemma_file_round_trip`]).
//!
//! A link is printed as its name alone, and a paragraph is wrapped by
//! another crate: they are not in the class of what comes back.
use crate::config::ConfigModel;
use crate::file_format::parser::error::Failure;
use crate::file_format::parser::{
    lemma_op_of_children, op_of, ops_of, parse_body,
    parse_file, parse_heading, parse_headings, parse_text, parse_todo, print_body,
    print_entry, print_file, print_heading, print_headings, print_op, print_ops,
    print_state, state_of, BulletModel, HeadingModel, TextOpModel, TodoModel,
    TodoStateModel, UnderHeadingModel,
};
use crate::file_format::tokenizer::{
    children_at, ends_line, is_style, lemma_children_at, lemma_plain_end,
    lemma_position_of, lemma_position_on_line, lemma_span_at, lemma_spans_markup,
    lemma_spaces_end, link_at, markup_of, markup_of_all, plain_end,
    position_of, position_on_line, span_at, spaces_end, spans_at, tokens_at, tokens_of_text,
    trimmed_end, LineToken, Span,
};
use crate::text::joined;
use vstd::prelude::*;

verus! {

/// Whether a span is a link or holds one.
pub open spec fn has_link(span: Span) -> bool
    decreases span,
{
    match span {
        Span::Verbatim(children) => have_link(children),
        Span::Underline(children) => have_link(children),
        Span::Crossed(children) => have_link(children),
        Span::Bold(children) => have_link(children),
        Span::Italic(children) => have_link(children),
        Span::Link { name, handler, path } => true,
        Span::TextExtra(delimiter, children) => have_link(children),
        Span::Text(text) => false,
    }
}

/// Whether one of the spans is a link or holds one.
pub open spec fn have_link(spans: Seq<Span>) -> bool
    decreases spans,
{
    if spans.len() == 0 {
        false
    } else {
        has_link(spans[0]) || have_link(spans.drop_first())
    }
}

/// A span without links is printed as it is written in markup.
pub proof fn lemma_print_is_markup(config: ConfigModel, span: Span)
    requires
        !has_link(span),
    ensures
        print_op(op_of(config, span)) == markup_of(span),
    decreases span,
{
    lemma_op_of_children(config, span);
    match span {
        Span::Verbatim(children) => {
            lemma_print_all_is_markup(config, children);
        },
        Span::Underline(children) => {
            lemma_print_all_is_markup(config, children);
        },
        Span::Crossed(children) => {
            lemma_print_all_is_markup(config, children);
        },
        Span::Bold(children) => {
            lemma_print_all_is_markup(config, children);
        },
        Span::Italic(children) => {
            lemma_print_all_is_markup(config, children);
        },
        Span::TextExtra(delimiter, children) => {
            lemma_print_all_is_markup(config, children);
        },
        _ => {},
    }
}

/// Spans without links are printed as they are written in markup.
pub proof fn lemma_print_all_is_markup(config: ConfigModel, spans: Seq<Span>)
    requires
        !have_link(spans),
    ensures
        print_ops(ops_of(config, spans)) == markup_of_all(spans),
    decreases spans,
{
    if spans.len() > 0 {
        lemma_print_is_markup(config, spans[0]);
        lemma_print_all_is_markup(config, spans.drop_first());
        assert(ops_of(config, spans).drop_first() =~= ops_of(config, spans.drop_first()));
        assert(ops_of(config, spans)[0] == op_of(config, spans[0]));
    } else {
        assert(ops_of(config, spans) =~= Seq::<TextOpModel>::empty());
    }
}

/// Whether `s[from..to]` is a line of `s`, or the rest of one: it holds no
/// newline, and the line ends at `to`.
pub open spec fn is_line(s: Seq<char>, from: int, to: int) -> bool {
    &&& 0 <= from <= to <= s.len()
    &&& ends_line(s, to)
    &&& forall|k: int| from <= k < to ==> s[k] != '\n'
}

/// The rest of a line from `from` on ends at the next newline.
pub proof fn lemma_line_end(s: Seq<char>, from: int)
    requires
        0 <= from <= s.len(),
    ensures
        is_line(s, from, position_of(s, from, '\n')),
{
    lemma_position_of(s, from, '\n');
}

/// A run of plain text is found in a line as in the line alone.
pub proof fn lemma_plain_end_in_line(s: Seq<char>, from: int, to: int, at: int)
    requires
        is_line(s, from, to),
        from <= at <= to,
    ensures
        plain_end(s, at) == plain_end(s.subrange(from, to), at - from) + from,
    decreases to - at,
{
    let t = s.subrange(from, to);
    if at < to {
        assert(t[at - from] == s[at]);
        lemma_plain_end_in_line(s, from, to, at + 1);
    }
}

/// A character is found in a line as in the line alone.
pub proof fn lemma_position_in_line(s: Seq<char>, from: int, to: int, at: int, c: char)
    requires
        is_line(s, from, to),
        from <= at <= to,
    ensures
        position_on_line(s, at, c) == position_on_line(s.subrange(from, to), at - from, c) + from,
        position_on_line(s, at, c) <= to,
    decreases to - at,
{
    let t = s.subrange(from, to);
    if at < to {
        assert(t[at - from] == s[at]);
        lemma_position_in_line(s, from, to, at + 1, c);
    }
}

/// A link is found in a line as in the line alone.
pub proof fn lemma_link_in_line(s: Seq<char>, from: int, to: int, at: int)
    requires
        is_line(s, from, to),
        from <= at <= to,
    ensures
        match link_at(s.subrange(from, to), at - from) {
            Some((open, colon, close)) => link_at(s, at) == Some(
                (open + from, colon + from, close + from),
            ) && close + from + 2 <= to,
            None => link_at(s, at) is None,
        },
{
    let t = s.subrange(from, to);
    lemma_position_in_line(s, from, to, at, '[');
    lemma_position_on_line(s, at, '[');
    let open = position_on_line(s, at, '[');
    if open < to {
        assert(t[open - from] == s[open]);
        lemma_position_in_line(s, from, to, open + 1, ':');
        lemma_position_on_line(s, open + 1, ':');
        let colon = position_on_line(s, open + 1, ':');
        if colon < to {
            assert(t[colon - from] == s[colon]);
            lemma_position_in_line(s, from, to, colon + 1, ']');
            lemma_position_on_line(s, colon + 1, ']');
            let close = position_on_line(s, colon + 1, ']');
            if close < to {
                assert(t[close - from] == s[close]);
                if close + 1 < to {
                    assert(t[close + 1 - from] == s[close + 1]);
                }
            }
        }
    }
}

/// A span is lexed in a line as in the line alone.
pub proof fn lemma_span_in_line(s: Seq<char>, from: int, to: int, at: int)
    requires
        is_line(s, from, to),
        from <= at <= to,
    ensures
        span_at(s, at).0 == span_at(s.subrange(from, to), at - from).0,
        span_at(s, at).1 == span_at(s.subrange(from, to), at - from).1 + from,
        at <= span_at(s, at).1 <= to,
    decreases to - at, 0int,
{
    let t = s.subrange(from, to);
    lemma_span_at(t, at - from);
    if at < to {
        assert(t[at - from] == s[at]);
        if is_style(s[at]) {
            lemma_span_in_line(s, from, to, at + 1);
            let j = span_at(s, at + 1).1;
            lemma_children_in_line(s, from, to, j, s[at]);
        } else if s[at] == '|' {
            lemma_link_in_line(s, from, to, at + 1);
            match link_at(t, at + 1 - from) {
                Some((open, colon, close)) => {
                    lemma_position_on_line(t, at + 1 - from, '[');
                    lemma_position_on_line(t, open + 1, ':');
                    lemma_position_on_line(t, colon + 1, ']');
                    assert(s.subrange(at + 1, open + from) =~= t.subrange(at + 1 - from, open));
                    assert(s.subrange(open + from + 1, colon + from) =~= t.subrange(
                        open + 1,
                        colon,
                    ));
                    assert(s.subrange(colon + from + 1, close + from) =~= t.subrange(
                        colon + 1,
                        close,
                    ));
                },
                None => {
                    lemma_span_in_line(s, from, to, at + 1);
                },
            }
        } else {
            lemma_plain_end_in_line(s, from, to, at + 1);
            lemma_plain_end(t, at + 1 - from);
            let j = plain_end(s, at + 1);
            assert(s.subrange(at, j) =~= t.subrange(at - from, j - from));
        }
    }
}

/// The children of a styled span are lexed in a line as in the line alone.
pub proof fn lemma_children_in_line(s: Seq<char>, from: int, to: int, at: int, d: char)
    requires
        is_line(s, from, to),
        from <= at <= to,
    ensures
        children_at(s, at, d).0 == children_at(s.subrange(from, to), at - from, d).0,
        children_at(s, at, d).1 == children_at(s.subrange(from, to), at - from, d).1 + from,
        children_at(s, at, d).2 == children_at(s.subrange(from, to), at - from, d).2,
        at <= children_at(s, at, d).1 <= to,
    decreases to - at, 1int,
{
    let t = s.subrange(from, to);
    lemma_children_at(t, at - from, d);
    if at < to {
        assert(t[at - from] == s[at]);
        if s[at] != d {
            lemma_span_in_line(s, from, to, at);
            lemma_span_at(s, at);
            lemma_children_in_line(s, from, to, span_at(s, at).1, d);
        }
    }
}

/// Lexing is local to the line: the spans of a line are those of the line
/// alone, whatever stands around it.
pub proof fn lemma_spans_in_line(s: Seq<char>, from: int, to: int, at: int)
    requires
        is_line(s, from, to),
        from <= at <= to,
    ensures
        spans_at(s, at).0 == spans_at(s.subrange(from, to), at - from).0,
        spans_at(s, at).1 == to,
        spans_at(s.subrange(from, to), at - from).1 == to - from,
    decreases to - at,
{
    let t = s.subrange(from, to);
    if at < to {
        assert(t[at - from] == s[at]);
        lemma_span_in_line(s, from, to, at);
        lemma_span_at(s, at);
        lemma_spans_in_line(s, from, to, span_at(s, at).1);
    }
}

/// A line that was parsed and holds no link is parsed again from what is
/// printed for it, and what is printed for it is the line as it was written.
///
/// The line is the one of `s` that starts at `at`, or the rest of a line.
pub proof fn lemma_line_round_trip(config: ConfigModel, s: Seq<char>, at: int)
    requires
        0 <= at <= s.len(),
        !have_link(spans_at(s, at).0),
    ensures
        print_ops(ops_of(config, spans_at(s, at).0)) == s.subrange(at, spans_at(s, at).1),
        ops_of(config, spans_at(print_ops(ops_of(config, spans_at(s, at).0)), 0).0) == ops_of(
            config,
            spans_at(s, at).0,
        ),
{
    let to = position_of(s, at, '\n');
    lemma_line_end(s, at);
    lemma_spans_in_line(s, at, to, at);
    lemma_spans_markup(s, at);
    lemma_print_all_is_markup(config, spans_at(s, at).0);
}

/// Whether a line of text starts with `c`: `c` is no space and none of the
/// characters that start another kind of line.
pub open spec fn starts_text(c: char) -> bool {
    c != ' ' && c != '\n' && c != '#' && c != '[' && c != '-'
}

/// A document of one line of text has one text token.
pub proof fn lemma_tokens_of_text_line(s: Seq<char>)
    requires
        is_line(s, 0, s.len() as int),
        s.len() > 0,
        starts_text(s[0]),
    ensures
        tokens_of_text(s) == seq![LineToken::Text(spans_at(s, 0).0)],
{
    lemma_spans_in_line(s, 0, s.len() as int, 0);
    let rest = tokens_at(s, s.len() as int);
    assert(rest == Seq::<LineToken>::empty());
    assert(seq![LineToken::Text(spans_at(s, 0).0)] + rest =~= seq![
        LineToken::Text(spans_at(s, 0).0),
    ]);
}

/// The round trip of a paragraph: when a line of text that holds no link is
/// lexed and parsed, and what is printed for the result is lexed and parsed
/// again, the result is the same.
pub proof fn lemma_text_round_trip(config: ConfigModel, s: Seq<char>)
    requires
        is_line(s, 0, s.len() as int),
        s.len() > 0,
        starts_text(s[0]),
        !have_link(spans_at(s, 0).0),
    ensures
        parse_text(config, tokens_of_text(s)).0 matches Ok(text) && parse_text(
            config,
            tokens_of_text(print_ops(text)),
        ) == (Ok::<Seq<TextOpModel>, Failure>(text), Seq::<
            LineToken,
        >::empty()),
{
    lemma_tokens_of_text_line(s);
    lemma_line_round_trip(config, s, 0);
    lemma_spans_in_line(s, 0, s.len() as int, 0);
    let tokens = tokens_of_text(s);
    assert(tokens.drop_first() =~= Seq::<LineToken>::empty());
    let text = ops_of(config, spans_at(s, 0).0);
    assert(s.subrange(0, s.len() as int) =~= s);
    assert(print_ops(text) == s);
}

// ---------------------------------------------------------------------------
// The entries under a heading
// ---------------------------------------------------------------------------

/// Whether a line of markup comes back from what is printed for it: the
/// printed text stays on its line, does not start with a space (spaces
/// before a text are not part of it), and is lexed to the same markup.
pub open spec fn text_comes_back(config: ConfigModel, text: Seq<TextOpModel>) -> bool {
    let printed = print_ops(text);
    &&& forall|k: int| 0 <= k < printed.len() ==> printed[k] != '\n'
    &&& printed.len() > 0 ==> printed[0] != ' '
    &&& ops_of(config, spans_at(printed, 0).0) == text
}

/// What is written for a state inside the brackets.
pub open spec fn shown_state(config: ConfigModel, state: TodoStateModel) -> Seq<char> {
    if state.text().len() == 0 {
        config.default_state()
    } else {
        state.text()
    }
}

/// Whether a state comes back from what is printed for it: it is printed in
/// brackets, holds no closing bracket, and what is written for it, without
/// the spaces before it, stands for the same state.
pub open spec fn state_comes_back(config: ConfigModel, state: TodoStateModel) -> bool {
    let shown = shown_state(config, state);
    &&& config.brackets()
    &&& forall|k: int| 0 <= k < shown.len() ==> shown[k] != ']'
    &&& state_of(config, shown.skip(spaces_end(shown, 0))) == state
}

/// Whether an entry comes back from what is printed for it. A todo does if
/// its state and its description do; a bullet if it has its marker, the
/// bullet point is `-` and its text comes back. A paragraph is wrapped when
/// it is printed, and is not in this class.
pub open spec fn entry_comes_back(config: ConfigModel, entry: UnderHeadingModel) -> bool {
    match entry {
        UnderHeadingModel::Todo(todo) => state_comes_back(config, todo.state) && text_comes_back(
            config,
            todo.description,
        ),
        UnderHeadingModel::Bullet(bullet) => bullet.bullet && config.bullet() == seq!['-']
            && text_comes_back(config, bullet.text),
        UnderHeadingModel::Text(text) => false,
    }
}

/// A line that was parsed and holds no link comes back. The line is the one
/// of `s` that starts at `at`, which holds no space.
pub proof fn lemma_parsed_text_comes_back(config: ConfigModel, s: Seq<char>, at: int)
    requires
        0 <= at <= s.len(),
        at < s.len() ==> s[at] != ' ',
        !have_link(spans_at(s, at).0),
    ensures
        text_comes_back(config, ops_of(config, spans_at(s, at).0)),
{
    lemma_line_round_trip(config, s, at);
    let to = position_of(s, at, '\n');
    lemma_line_end(s, at);
    lemma_spans_in_line(s, at, to, at);
}

/// Whether `piece` stands in `s` at position `at`.
pub open spec fn stands_at(s: Seq<char>, at: int, piece: Seq<char>) -> bool {
    0 <= at && at + piece.len() <= s.len() && s.subrange(at, at + piece.len()) == piece
}

/// The tokens of a line that ends in a newline, from the start of its text
/// on: the text and the newline.
proof fn lemma_rest_of_line(s: Seq<char>, at: int, printed: Seq<char>)
    requires
        stands_at(s, at, printed + seq!['\n']),
        forall|k: int| 0 <= k < printed.len() ==> printed[k] != '\n',
    ensures
        spans_at(s, at) == (spans_at(printed, 0).0, at + printed.len()),
        tokens_at(s, at + printed.len()) == seq![LineToken::Newline] + tokens_at(
            s,
            at + printed.len() + 1,
        ),
{
    let piece = printed + seq!['\n'];
    let to = at + printed.len();
    assert forall|k: int| 0 <= k < piece.len() implies s[at + k] == piece[k] by {
        assert(s.subrange(at, at + piece.len())[k] == s[at + k]);
    }
    assert(s[to] == piece[printed.len() as int]);
    assert forall|k: int| at <= k < to implies s[k] != '\n' by {
        assert(s[k] == piece[k - at]);
    }
    assert(is_line(s, at, to));
    lemma_spans_in_line(s, at, to, at);
    assert(s.subrange(at, to) =~= printed) by {
        assert forall|k: int| 0 <= k < printed.len() implies s.subrange(at, to)[k] == printed[k] by {
            assert(s[at + k] == piece[k]);
        }
    }
}

/// The tokens of a printed bullet: the bullet with its text, and a newline.
proof fn lemma_bullet_tokens(config: ConfigModel, s: Seq<char>, at: int, bullet: BulletModel)
    requires
        entry_comes_back(config, UnderHeadingModel::Bullet(bullet)),
        stands_at(s, at, print_entry(config, UnderHeadingModel::Bullet(bullet), 0)),
    ensures
        tokens_at(s, at) == seq![
            LineToken::Bullet(spans_at(print_ops(bullet.text), 0).0),
            LineToken::Newline,
        ] + tokens_at(s, at + print_entry(config, UnderHeadingModel::Bullet(bullet), 0).len()),
{
    reveal_strlit("    ");
    let printed = print_ops(bullet.text);
    let piece = print_entry(config, UnderHeadingModel::Bullet(bullet), 0);
    assert(piece =~= "    "@ + seq!['-', ' '] + printed + seq!['\n']);
    assert(piece.len() == 7 + printed.len());
    assert forall|k: int| 0 <= k < piece.len() implies s[at + k] == piece[k] by {
        assert(s.subrange(at, at + piece.len())[k] == s[at + k]);
    }
    assert(s[at] == ' ' && s[at + 1] == ' ' && s[at + 2] == ' ' && s[at + 3] == ' ') by {
        assert(s[at] == piece[0]);
        assert(s[at + 1] == piece[1]);
        assert(s[at + 2] == piece[2]);
        assert(s[at + 3] == piece[3]);
    }
    assert(s[at + 4] == '-') by {
        assert(s[at + 4] == piece[4]);
    }
    assert(s[at + 5] == ' ') by {
        assert(s[at + 5] == piece[5]);
    }
    assert(s[at + 6] != ' ') by {
        assert(s[at + 6] == piece[6]);
        if printed.len() > 0 {
            assert(piece[6] == printed[0]);
        }
    }
    assert(stands_at(s, at + 6, printed + seq!['\n'])) by {
        assert(s.subrange(at + 6, at + 6 + printed.len() + 1) =~= printed + seq!['\n']) by {
            assert forall|k: int| 0 <= k < printed.len() + 1 implies s.subrange(
                at + 6,
                at + 6 + printed.len() + 1,
            )[k] == (printed + seq!['\n'])[k] by {
                assert(s[at + 6 + k] == piece[6 + k]);
            }
        }
    }
    lemma_rest_of_line(s, at + 6, printed);
    assert(tokens_at(s, at) == tokens_at(s, at + 4)) by {
        assert(tokens_at(s, at) == tokens_at(s, at + 1));
        assert(tokens_at(s, at + 1) == tokens_at(s, at + 2));
        assert(tokens_at(s, at + 2) == tokens_at(s, at + 3));
        assert(tokens_at(s, at + 3) == tokens_at(s, at + 4));
    }
    assert(spaces_end(s, at + 5) == at + 6) by {
        assert(spaces_end(s, at + 6) == at + 6);
    }
    let spans = spans_at(printed, 0).0;
    let rest = tokens_at(s, at + piece.len());
    assert(tokens_at(s, at + 4) == seq![LineToken::Bullet(spans)] + tokens_at(
        s,
        at + 6 + printed.len(),
    ));
    assert(seq![LineToken::Bullet(spans)] + (seq![LineToken::Newline] + rest) =~= seq![
        LineToken::Bullet(spans),
        LineToken::Newline,
    ] + rest);
}

/// Where the spaces at the start of what is written for a state end, in a
/// text that holds it before a closing bracket.
proof fn lemma_spaces_before_state(s: Seq<char>, at: int, shown: Seq<char>, k: int)
    requires
        stands_at(s, at, shown + seq![']']),
        0 <= k <= shown.len(),
    ensures
        spaces_end(s, at + k) == at + spaces_end(shown, k),
        at + k <= spaces_end(s, at + k) <= at + shown.len(),
    decreases shown.len() - k,
{
    let piece = shown + seq![']'];
    assert(s.subrange(at, at + piece.len())[k] == s[at + k]);
    assert(s[at + k] == piece[k]);
    if k < shown.len() {
        assert(piece[k] == shown[k]);
        if shown[k] == ' ' {
            lemma_spaces_before_state(s, at, shown, k + 1);
        }
    }
}

/// A character that stands behind a text without it is found where it
/// stands.
proof fn lemma_char_behind(s: Seq<char>, at: int, piece: Seq<char>, c: char, k: int)
    requires
        stands_at(s, at, piece + seq![c]),
        forall|j: int| 0 <= j < piece.len() ==> piece[j] != c,
        0 <= k <= piece.len(),
    ensures
        position_of(s, at + k, c) == at + piece.len(),
    decreases piece.len() - k,
{
    let all = piece + seq![c];
    assert(s.subrange(at, at + all.len())[k] == s[at + k]);
    assert(s[at + k] == all[k]);
    if k < piece.len() {
        assert(all[k] == piece[k]);
        lemma_char_behind(s, at, piece, c, k + 1);
    }
}

/// The tokens of a printed todo: the brackets around what is written for
/// the state, without the spaces before it, the description, and a newline.
proof fn lemma_todo_tokens(config: ConfigModel, s: Seq<char>, at: int, todo: TodoModel)
    requires
        entry_comes_back(config, UnderHeadingModel::Todo(todo)),
        stands_at(s, at, print_entry(config, UnderHeadingModel::Todo(todo), 0)),
    ensures
        tokens_at(s, at) == seq![
            LineToken::BracketOpen,
            LineToken::Inside(
                shown_state(config, todo.state).skip(
                    spaces_end(shown_state(config, todo.state), 0),
                ),
            ),
            LineToken::BracketClose,
            LineToken::Text(spans_at(print_ops(todo.description), 0).0),
            LineToken::Newline,
        ] + tokens_at(s, at + print_entry(config, UnderHeadingModel::Todo(todo), 0).len()),
{
    reveal_strlit("    ");
    let shown = shown_state(config, todo.state);
    let printed = print_ops(todo.description);
    let piece = print_entry(config, UnderHeadingModel::Todo(todo), 0);
    let n = shown.len() as int;
    assert(print_state(config, todo.state) == seq!['['] + shown + seq![']']);
    assert(piece =~= "    "@ + seq!['['] + shown + seq![']', ' '] + printed + seq!['\n']);
    assert(piece.len() == 8 + n + printed.len());
    assert forall|k: int| 0 <= k < piece.len() implies s[at + k] == piece[k] by {
        assert(s.subrange(at, at + piece.len())[k] == s[at + k]);
    }
    assert(s[at] == ' ' && s[at + 1] == ' ' && s[at + 2] == ' ' && s[at + 3] == ' ') by {
        assert(s[at] == piece[0]);
        assert(s[at + 1] == piece[1]);
        assert(s[at + 2] == piece[2]);
        assert(s[at + 3] == piece[3]);
    }
    assert(s[at + 4] == '[') by {
        assert(s[at + 4] == piece[4]);
    }
    assert(stands_at(s, at + 5, shown + seq![']'])) by {
        assert(s.subrange(at + 5, at + 5 + n + 1) =~= shown + seq![']']) by {
            assert forall|k: int| 0 <= k < n + 1 implies s.subrange(at + 5, at + 5 + n + 1)[k] == (
            shown + seq![']'])[k] by {
                assert(s[at + 5 + k] == piece[5 + k]);
            }
        }
    }
    lemma_spaces_end(shown, 0);
    lemma_spaces_before_state(s, at + 5, shown, 0);
    let from = spaces_end(s, at + 5);
    let lead = spaces_end(shown, 0);
    lemma_char_behind(s, at + 5, shown, ']', lead);
    let close = at + 5 + n;
    assert(position_of(s, from, ']') == close);
    assert(s[close] == ']') by {
        assert(s[close] == piece[5 + n]);
    }
    assert(s.subrange(from, close) =~= shown.skip(lead)) by {
        assert forall|k: int| 0 <= k < n - lead implies s.subrange(from, close)[k] == shown.skip(
            lead,
        )[k] by {
            assert(s[from + k] == piece[5 + lead + k]);
        }
    }
    assert(s[close + 1] == ' ') by {
        assert(s[close + 1] == piece[6 + n]);
    }
    assert(s[close + 2] != ' ') by {
        assert(s[close + 2] == piece[7 + n]);
        if printed.len() > 0 {
            assert(piece[7 + n] == printed[0]);
        }
    }
    assert(spaces_end(s, close + 1) == close + 2) by {
        assert(spaces_end(s, close + 2) == close + 2);
    }
    assert(stands_at(s, close + 2, printed + seq!['\n'])) by {
        assert(s.subrange(close + 2, close + 2 + printed.len() + 1) =~= printed + seq!['\n']) by {
            assert forall|k: int| 0 <= k < printed.len() + 1 implies s.subrange(
                close + 2,
                close + 2 + printed.len() + 1,
            )[k] == (printed + seq!['\n'])[k] by {
                assert(s[close + 2 + k] == piece[7 + n + k]);
            }
        }
    }
    lemma_rest_of_line(s, close + 2, printed);
    assert(tokens_at(s, at) == tokens_at(s, at + 4)) by {
        assert(tokens_at(s, at) == tokens_at(s, at + 1));
        assert(tokens_at(s, at + 1) == tokens_at(s, at + 2));
        assert(tokens_at(s, at + 2) == tokens_at(s, at + 3));
        assert(tokens_at(s, at + 3) == tokens_at(s, at + 4));
    }
    let spans = spans_at(printed, 0).0;
    let rest = tokens_at(s, at + piece.len());
    let first = seq![
        LineToken::BracketOpen,
        LineToken::Inside(shown.skip(lead)),
        LineToken::BracketClose,
        LineToken::Text(spans),
    ];
    assert(tokens_at(s, at + 4) == first + tokens_at(s, close + 2 + printed.len()));
    assert(first + (seq![LineToken::Newline] + rest) =~= seq![
        LineToken::BracketOpen,
        LineToken::Inside(shown.skip(lead)),
        LineToken::BracketClose,
        LineToken::Text(spans),
        LineToken::Newline,
    ] + rest);
}

/// The entries are printed one behind the other, the first one first.
pub proof fn lemma_print_body_first(
    config: ConfigModel,
    first: UnderHeadingModel,
    rest: Seq<UnderHeadingModel>,
    width: usize,
)
    ensures
        print_body(config, seq![first] + rest, width) == print_entry(config, first, width)
            + print_body(config, rest, width),
    decreases rest.len(),
{
    let all = seq![first] + rest;
    if rest.len() == 0 {
        assert(all.drop_last() =~= Seq::<UnderHeadingModel>::empty());
        assert(print_body(config, all.drop_last(), width) =~= Seq::<char>::empty());
        assert(Seq::<char>::empty() + print_entry(config, first, width) =~= print_entry(
            config,
            first,
            width,
        ) + Seq::<char>::empty());
    } else {
        assert(all.drop_last() =~= seq![first] + rest.drop_last());
        assert(all.last() == rest.last());
        lemma_print_body_first(config, first, rest.drop_last(), width);
        assert(print_entry(config, first, width) + print_body(config, rest.drop_last(), width)
            + print_entry(config, rest.last(), width) =~= print_entry(config, first, width) + (
        print_body(config, rest.drop_last(), width) + print_entry(config, rest.last(), width)));
    }
}

/// Entries that come back are parsed from what is printed for them, behind
/// the entries that were parsed already, and the parse goes on with what
/// stands behind them. The printed entries stand in `s` at `at`.
proof fn lemma_body_from(
    config: ConfigModel,
    body: Seq<UnderHeadingModel>,
    s: Seq<char>,
    at: int,
    entry: nat,
    acc: Seq<UnderHeadingModel>,
)
    requires
        forall|i: int| 0 <= i < body.len() ==> entry_comes_back(config, #[trigger] body[i]),
        stands_at(s, at, print_body(config, body, 0)),
    ensures
        parse_body(config, tokens_at(s, at), entry, acc) == parse_body(
            config,
            tokens_at(s, at + print_body(config, body, 0).len()),
            entry,
            acc + body,
        ),
    decreases body.len(),
{
    if body.len() == 0 {
        assert(acc + body =~= acc);
    } else {
        let first = body[0];
        let rest = body.drop_first();
        assert(body =~= seq![first] + rest);
        lemma_print_body_first(config, first, rest, 0);
        let piece = print_entry(config, first, 0);
        let next = at + piece.len();
        let tail = print_body(config, rest, 0);
        let all = piece + tail;
        assert(s.subrange(at, next) =~= piece) by {
            assert forall|k: int| 0 <= k < piece.len() implies s.subrange(at, next)[k] == piece[k] by {
                assert(s.subrange(at, at + all.len())[k] == all[k]);
            }
        }
        assert(s.subrange(next, next + tail.len()) =~= tail) by {
            assert forall|k: int| 0 <= k < tail.len() implies s.subrange(next, next + tail.len())[k]
                == tail[k] by {
                assert(s.subrange(at, at + all.len())[piece.len() + k] == all[piece.len() + k]);
            }
        }
        assert(stands_at(s, at, piece));
        assert(stands_at(s, next, tail));
        assert(entry_comes_back(config, first));
        assert forall|i: int| 0 <= i < rest.len() implies entry_comes_back(
            config,
            #[trigger] rest[i],
        ) by {
            assert(rest[i] == body[i + 1]);
        }
        let after = tokens_at(s, next);
        let tokens = tokens_at(s, at);
        match first {
            UnderHeadingModel::Bullet(bullet) => {
                lemma_bullet_tokens(config, s, at, bullet);
                assert(tokens[0] == LineToken::Bullet(spans_at(print_ops(bullet.text), 0).0));
                assert(tokens.drop_first()[0] == LineToken::Newline);
                assert(tokens.drop_first().drop_first() =~= after);
                lemma_body_from(config, rest, s, next, entry, acc.push(first));
                assert(acc.push(first) + rest =~= acc + body);
            },
            UnderHeadingModel::Todo(todo) => {
                lemma_todo_tokens(config, s, at, todo);
                let shown = shown_state(config, todo.state);
                let t1 = tokens.drop_first();
                let t2 = t1.drop_first();
                let t3 = t2.drop_first();
                let t4 = t3.drop_first();
                assert(tokens[0] == LineToken::BracketOpen);
                assert(t1[0] == LineToken::Inside(shown.skip(spaces_end(shown, 0))));
                assert(t2[0] == LineToken::BracketClose);
                assert(t3[0] == LineToken::Text(spans_at(print_ops(todo.description), 0).0));
                assert(t4[0] == LineToken::Newline);
                assert(t4.drop_first() =~= after);
                assert(parse_todo(config, tokens) == (Ok::<TodoModel, Failure>(todo), after));
                lemma_body_from(config, rest, s, next, entry, acc.push(first));
                assert(acc.push(first) + rest =~= acc + body);
            },
            UnderHeadingModel::Text(text) => {},
        }
    }
}

/// The round trip of the entries under a heading: entries that come back
/// are printed as a text that is lexed and parsed to the same entries,
/// whatever the width of the terminal.
pub proof fn lemma_body_round_trip(
    config: ConfigModel,
    body: Seq<UnderHeadingModel>,
    width: usize,
    entry: nat,
)
    requires
        forall|i: int| 0 <= i < body.len() ==> entry_comes_back(config, #[trigger] body[i]),
    ensures
        parse_body(
            config,
            tokens_of_text(print_body(config, body, width)),
            entry,
            Seq::empty(),
        ) == (Ok::<Seq<UnderHeadingModel>, Failure>(body), Seq::<LineToken>::empty()),
{
    lemma_print_needs_no_width(config, body, width);
    let s = print_body(config, body, 0);
    assert(s.subrange(0, s.len() as int) =~= s);
    lemma_body_from(config, body, s, 0, entry, Seq::empty());
    assert(Seq::<UnderHeadingModel>::empty() + body =~= body);
}

/// Todos and bullets are printed alike on every terminal.
pub proof fn lemma_print_needs_no_width(
    config: ConfigModel,
    body: Seq<UnderHeadingModel>,
    width: usize,
)
    requires
        forall|i: int| 0 <= i < body.len() ==> !(#[trigger] body[i] is Text),
    ensures
        print_body(config, body, width) == print_body(config, body, 0),
    decreases body.len(),
{
    if body.len() > 0 {
        assert forall|i: int| 0 <= i < body.drop_last().len() implies !(
        #[trigger] body.drop_last()[i] is Text) by {
            assert(body.drop_last()[i] == body[i]);
        }
        lemma_print_needs_no_width(config, body.drop_last(), width);
        assert(!(body[body.len() - 1] is Text));
    }
}

// ---------------------------------------------------------------------------
// Headings and documents
// ---------------------------------------------------------------------------

/// Whether the name of a heading comes back from what is printed for it: it
/// stays on its line, and neither starts nor ends with a space (the spaces
/// around a name are not part of it).
pub open spec fn name_comes_back(name: Seq<char>) -> bool {
    &&& forall|k: int| 0 <= k < name.len() ==> name[k] != '\n'
    &&& name.len() > 0 ==> name[0] != ' ' && name.last() != ' '
}

/// Whether a heading comes back from what is printed for it: its name does,
/// and each of its entries.
pub open spec fn heading_comes_back(config: ConfigModel, heading: HeadingModel) -> bool {
    &&& name_comes_back(heading.name)
    &&& forall|i: int|
        0 <= i < heading.body.len() ==> entry_comes_back(config, #[trigger] heading.body[i])
}

/// Whether a document comes back from what is printed for it: each of its
/// headings does.
pub open spec fn file_comes_back(config: ConfigModel, file: Seq<HeadingModel>) -> bool {
    forall|i: int| 0 <= i < file.len() ==> heading_comes_back(config, #[trigger] file[i])
}

/// The tokens of the line of a printed heading: the heading with its name,
/// and a newline.
proof fn lemma_heading_tokens(s: Seq<char>, at: int, name: Seq<char>)
    requires
        name_comes_back(name),
        stands_at(s, at, seq!['#', ' '] + name + seq!['\n']),
    ensures
        tokens_at(s, at) == seq![LineToken::Heading(name), LineToken::Newline] + tokens_at(
            s,
            at + name.len() + 3,
        ),
{
    let piece = seq!['#', ' '] + name + seq!['\n'];
    let n = name.len() as int;
    assert forall|k: int| 0 <= k < piece.len() implies s[at + k] == piece[k] by {
        assert(s.subrange(at, at + piece.len())[k] == s[at + k]);
    }
    assert(s[at] == '#') by {
        assert(s[at] == piece[0]);
    }
    assert(s[at + 1] == ' ') by {
        assert(s[at + 1] == piece[1]);
    }
    assert(s[at + 2] != ' ') by {
        assert(s[at + 2] == piece[2]);
        if n > 0 {
            assert(piece[2] == name[0]);
        }
    }
    assert(spaces_end(s, at + 1) == at + 2) by {
        assert(spaces_end(s, at + 2) == at + 2);
    }
    assert(stands_at(s, at + 2, name + seq!['\n'])) by {
        assert(s.subrange(at + 2, at + 2 + n + 1) =~= name + seq!['\n']) by {
            assert forall|k: int| 0 <= k < n + 1 implies s.subrange(at + 2, at + 2 + n + 1)[k] == (
            name + seq!['\n'])[k] by {
                assert(s[at + 2 + k] == piece[2 + k]);
            }
        }
    }
    lemma_char_behind(s, at + 2, name, '\n', 0);
    let end = at + 2 + n;
    assert(position_of(s, at + 2, '\n') == end);
    assert(trimmed_end(s, at + 2, end) == end) by {
        if n > 0 {
            assert(s[end - 1] == piece[1 + n]);
            assert(piece[1 + n] == name[n - 1]);
        }
    }
    assert(s.subrange(at + 2, end) =~= name) by {
        assert forall|k: int| 0 <= k < n implies s.subrange(at + 2, end)[k] == name[k] by {
            assert(s[at + 2 + k] == piece[2 + k]);
        }
    }
}

/// Parts are joined one behind the other, the first one first.
proof fn lemma_joined_first(first: Seq<char>, rest: Seq<Seq<char>>, separator: Seq<char>)
    ensures
        joined(seq![first] + rest, separator) == if rest.len() == 0 {
            first
        } else {
            first + separator + joined(rest, separator)
        },
    decreases rest.len(),
{
    let all = seq![first] + rest;
    if rest.len() == 0 {
        assert(all[0] == first);
    } else {
        assert(all.drop_last() =~= seq![first] + rest.drop_last());
        assert(all.last() == rest.last());
        lemma_joined_first(first, rest.drop_last(), separator);
        if rest.len() == 1 {
            assert(rest.last() == rest[0]);
        } else {
            let front = joined(rest.drop_last(), separator);
            assert(first + separator + front + separator + rest.last() =~= first + separator + (
            front + separator + rest.last()));
        }
    }
}

/// A heading with todos and bullets is printed alike on every terminal.
proof fn lemma_heading_needs_no_width(config: ConfigModel, heading: HeadingModel, width: usize)
    requires
        heading_comes_back(config, heading),
    ensures
        print_heading(config, heading, width) == print_heading(config, heading, 0),
{
    lemma_print_needs_no_width(config, heading.body, width);
}

/// Headings that come back are parsed from what is printed for them, behind
/// the headings that were parsed already. The printed headings are the rest
/// of `s` from `at` on.
proof fn lemma_file_from(
    config: ConfigModel,
    file: Seq<HeadingModel>,
    s: Seq<char>,
    at: int,
    entry: nat,
    acc: Seq<HeadingModel>,
)
    requires
        file.len() > 0,
        file_comes_back(config, file),
        0 <= at <= s.len(),
        s.subrange(at, s.len() as int) == print_file(config, file, 0),
    ensures
        parse_headings(config, tokens_at(s, at), entry, acc) == (
            Ok::<Seq<HeadingModel>, Failure>(acc + file),
            Seq::<LineToken>::empty(),
        ),
    decreases file.len(),
{
    reveal_strlit("\n");
    let heading = file[0];
    let rest = file.drop_first();
    assert(file =~= seq![heading] + rest);
    assert(heading_comes_back(config, heading));
    let printed = print_heading(config, heading, 0);
    let others = print_headings(config, rest, 0);
    assert(print_headings(config, file, 0) =~= seq![printed] + others);
    assert("\n"@ =~= seq!['\n']);
    lemma_joined_first(printed, others, "\n"@);
    let line = seq!['#', ' '] + heading.name + seq!['\n'];
    let entries = print_body(config, heading.body, 0);
    assert(printed == line + entries);
    let text = s.subrange(at, s.len() as int);
    let from = at + line.len();
    let to = from + entries.len();
    assert(text.len() >= printed.len());
    assert forall|k: int| 0 <= k < printed.len() implies s[at + k] == printed[k] by {
        assert(text[k] == s[at + k]);
        if others.len() > 0 {
            assert((printed + "\n"@ + joined(others, "\n"@))[k] == printed[k]);
        }
    }
    assert(s.subrange(at, from) =~= line) by {
        assert forall|k: int| 0 <= k < line.len() implies s.subrange(at, from)[k] == line[k] by {
            assert(s[at + k] == printed[k]);
        }
    }
    assert(s.subrange(from, to) =~= entries) by {
        assert forall|k: int| 0 <= k < entries.len() implies s.subrange(from, to)[k] == entries[k] by {
            assert(s[at + line.len() + k] == printed[line.len() + k]);
        }
    }
    assert(stands_at(s, at, line));
    assert(stands_at(s, from, entries));
    lemma_heading_tokens(s, at, heading.name);
    let tokens = tokens_at(s, at);
    assert(tokens[0] == LineToken::Heading(heading.name));
    assert(tokens.drop_first()[0] == LineToken::Newline);
    assert(tokens.drop_first().drop_first() =~= tokens_at(s, from));
    lemma_body_from(config, heading.body, s, from, tokens.len(), Seq::empty());
    assert(Seq::<UnderHeadingModel>::empty() + heading.body =~= heading.body);
    if rest.len() == 0 {
        assert(to == s.len());
        assert(parse_heading(config, tokens) == (
            Ok::<HeadingModel, Failure>(heading),
            Seq::<LineToken>::empty(),
        ));
        assert(acc.push(heading) =~= acc + file);
        assert(parse_headings(config, Seq::<LineToken>::empty(), entry, acc.push(heading)) == (
            Ok::<Seq<HeadingModel>, Failure>(acc.push(heading)),
            Seq::<LineToken>::empty(),
        ));
        assert(parse_headings(config, tokens, entry, acc) == parse_headings(
            config,
            Seq::<LineToken>::empty(),
            entry,
            acc.push(heading),
        ));
    } else {
        let tail = joined(others, "\n"@);
        assert(text == printed + seq!['\n'] + tail);
        assert(s[to] == '\n') by {
            assert(text[printed.len() as int] == s[to]);
        }
        let after = tokens_at(s, to + 1);
        assert(tokens_at(s, to) == seq![LineToken::Newline] + after);
        assert(tokens_at(s, to).drop_first() =~= after);
        assert(parse_heading(config, tokens) == (Ok::<HeadingModel, Failure>(heading), after));
        assert(s.subrange(to + 1, s.len() as int) =~= tail) by {
            assert forall|k: int| 0 <= k < tail.len() implies s.subrange(to + 1, s.len() as int)[k]
                == tail[k] by {
                assert(text[printed.len() + 1 + k] == s[to + 1 + k]);
            }
        }
        assert forall|i: int| 0 <= i < rest.len() implies heading_comes_back(
            config,
            #[trigger] rest[i],
        ) by {
            assert(rest[i] == file[i + 1]);
        }
        lemma_file_from(config, rest, s, to + 1, entry, acc.push(heading));
        assert(acc.push(heading) + rest =~= acc + file);
        assert(parse_headings(config, tokens, entry, acc) == parse_headings(
            config,
            after,
            entry,
            acc.push(heading),
        ));
    }
}

/// The round trip of a document: a document whose headings have trimmed
/// names on one line, and under them todos and bullets that come back, is
/// printed as a text that is lexed and parsed to the same document, with no
/// token left, whatever the width of the terminal.
pub proof fn lemma_file_round_trip(config: ConfigModel, file: Seq<HeadingModel>, width: usize)
    requires
        file_comes_back(config, file),
    ensures
        parse_file(config, tokens_of_text(print_file(config, file, width))) == (
            Ok::<Seq<HeadingModel>, Failure>(file),
            Seq::<LineToken>::empty(),
        ),
{
    assert(print_headings(config, file, width) =~= print_headings(config, file, 0)) by {
        assert forall|i: int| 0 <= i < file.len() implies print_headings(config, file, width)[i]
            == print_headings(config, file, 0)[i] by {
            assert(heading_comes_back(config, file[i]));
            lemma_heading_needs_no_width(config, file[i], width);
        }
    }
    let s = print_file(config, file, 0);
    if file.len() == 0 {
        assert(print_headings(config, file, 0) =~= Seq::<Seq<char>>::empty());
        assert(file =~= Seq::<HeadingModel>::empty());
    } else {
        assert(s.subrange(0, s.len() as int) =~= s);
        lemma_file_from(config, file, s, 0, tokens_of_text(s).len(), Seq::empty());
        assert(Seq::<HeadingModel>::empty() + file =~= file);
    }
}

// ---------------------------------------------------------------------------
// Lines without links
// ---------------------------------------------------------------------------

/// Whether a span before other spans, or one of these, is or holds a link.
proof fn lemma_have_link_first(first: Span, rest: Seq<Span>)
    ensures
        have_link(seq![first] + rest) == (has_link(first) || have_link(rest)),
{
    let all = seq![first] + rest;
    assert(all[0] == first);
    assert(all.drop_first() =~= rest);
}

/// A span of a line that holds no `|` is no link and holds none.
proof fn lemma_span_without_bar(s: Seq<char>, from: int, to: int, at: int)
    requires
        is_line(s, from, to),
        from <= at <= to,
        forall|k: int| from <= k < to ==> s[k] != '|',
    ensures
        !has_link(span_at(s, at).0),
    decreases to - at, 0int,
{
    if at < to {
        if is_style(s[at]) {
            lemma_span_without_bar(s, from, to, at + 1);
            lemma_span_in_line(s, from, to, at + 1);
            let (first, j) = span_at(s, at + 1);
            lemma_children_without_bar(s, from, to, j, s[at]);
            lemma_have_link_first(first, children_at(s, j, s[at]).0);
        }
    }
}

/// The children of a styled span of a line that holds no `|` hold no link.
proof fn lemma_children_without_bar(s: Seq<char>, from: int, to: int, at: int, d: char)
    requires
        is_line(s, from, to),
        from <= at <= to,
        forall|k: int| from <= k < to ==> s[k] != '|',
    ensures
        !have_link(children_at(s, at, d).0),
    decreases to - at, 1int,
{
    if at < to && s[at] != d {
        lemma_span_without_bar(s, from, to, at);
        lemma_span_in_line(s, from, to, at);
        lemma_span_at(s, at);
        let (child, j) = span_at(s, at);
        lemma_children_without_bar(s, from, to, j, d);
        lemma_have_link_first(child, children_at(s, j, d).0);
    }
}

/// The spans of a line that holds no `|` hold no link.
proof fn lemma_spans_without_bar(s: Seq<char>, from: int, to: int, at: int)
    requires
        is_line(s, from, to),
        from <= at <= to,
        forall|k: int| from <= k < to ==> s[k] != '|',
    ensures
        !have_link(spans_at(s, at).0),
    decreases to - at,
{
    if at < to {
        lemma_span_without_bar(s, from, to, at);
        lemma_span_in_line(s, from, to, at);
        lemma_span_at(s, at);
        let (span, j) = span_at(s, at);
        lemma_spans_without_bar(s, from, to, j);
        lemma_have_link_first(span, spans_at(s, j).0);
    }
}

/// A line that holds no `|` has no link: what the round trip of a line asks
/// of the lexer's result can be seen from the text. The line is the one of
/// `s` that starts at `at`, or the rest of a line.
pub proof fn lemma_line_without_bar_has_no_link(s: Seq<char>, at: int)
    requires
        0 <= at <= s.len(),
        forall|k: int| at <= k < position_of(s, at, '\n') ==> s[k] != '|',
    ensures
        !have_link(spans_at(s, at).0),
{
    lemma_line_end(s, at);
    lemma_spans_without_bar(s, at, position_of(s, at, '\n'), at);
}

} // verus!
