use std::collections::VecDeque;
use todo_markup::file_format::tokenizer::{Handler, TextToken, TextTokens, Token, Tokens};

fn lex_all(text: &str) -> Vec<Token> {
    Tokens::lex(text).to_vecdeque().into_iter().collect()
}

fn plain(text: &str) -> TextToken {
    TextToken::Text(text.to_string())
}

fn line(spans: Vec<TextToken>) -> TextTokens {
    TextTokens(VecDeque::from(spans))
}

fn inline(text: &str) -> Vec<TextToken> {
    match lex_all(text).into_iter().next() {
        Some(Token::Text(spans)) => spans.to_vecdeque().into_iter().collect(),
        other => panic!("no text token: {:?}", other),
    }
}

#[test]
fn empty_text_has_no_tokens() {
    assert_eq!(lex_all(""), vec![]);
}

#[test]
fn only_spaces_have_no_tokens() {
    assert_eq!(lex_all("    "), vec![]);
}

#[test]
fn newlines_are_tokens() {
    assert_eq!(lex_all("\n\n"), vec![Token::Newline, Token::Newline]);
}

#[test]
fn from_str_is_lex() {
    let tokens: Tokens = "# A\n".parse().unwrap();
    assert_eq!(
        tokens.to_vecdeque(),
        VecDeque::from(vec![Token::Heading("A".to_string()), Token::Newline])
    );
}

#[test]
fn heading_name_is_trimmed() {
    assert_eq!(
        lex_all("#   Shopping list  \nx"),
        vec![
            Token::Heading("Shopping list".to_string()),
            Token::Newline,
            Token::Text(line(vec![plain("x")])),
        ]
    );
}

#[test]
fn heading_at_end_of_text() {
    assert_eq!(
        lex_all("# Last"),
        vec![Token::Heading("Last".to_string()), Token::Newline]
    );
}

#[test]
fn heading_without_name() {
    assert_eq!(
        lex_all("#\n"),
        vec![Token::Heading(String::new()), Token::Newline]
    );
}

#[test]
fn todo_line() {
    assert_eq!(
        lex_all("[x] buy milk\n"),
        vec![
            Token::BracketOpen,
            Token::Inside("x".to_string()),
            Token::BracketClose,
            Token::Text(line(vec![plain("buy milk")])),
            Token::Newline,
        ]
    );
}

#[test]
fn todo_with_blank_state() {
    assert_eq!(
        lex_all("    [ ] a\n"),
        vec![
            Token::BracketOpen,
            Token::Inside(String::new()),
            Token::BracketClose,
            Token::Text(line(vec![plain("a")])),
            Token::Newline,
        ]
    );
}

#[test]
fn todo_without_description() {
    assert_eq!(
        lex_all("[x]\n"),
        vec![
            Token::BracketOpen,
            Token::Inside("x".to_string()),
            Token::BracketClose,
            Token::Text(line(vec![])),
            Token::Newline,
        ]
    );
}

#[test]
fn bracket_that_is_never_closed() {
    assert_eq!(
        lex_all("[abc\ndef"),
        vec![
            Token::BracketOpen,
            Token::Inside("abc\ndef".to_string()),
            Token::BracketClose,
            Token::Text(line(vec![])),
        ]
    );
}

#[test]
fn dash_behind_a_bracket_is_text() {
    assert_eq!(
        lex_all("[x] -a-\n"),
        vec![
            Token::BracketOpen,
            Token::Inside("x".to_string()),
            Token::BracketClose,
            Token::Text(line(vec![TextToken::Crossed(vec![plain("a")])])),
            Token::Newline,
        ]
    );
}

#[test]
fn bullet_line() {
    assert_eq!(
        lex_all("  -  eggs\n"),
        vec![Token::Bullet(line(vec![plain("eggs")])), Token::Newline]
    );
}

#[test]
fn hash_inside_a_line_is_text() {
    assert_eq!(
        lex_all("a # b"),
        vec![Token::Text(line(vec![plain("a # b")]))]
    );
}

#[test]
fn styled_spans() {
    assert_eq!(
        inline("`a`_b_-c-*d*/e/"),
        vec![
            TextToken::Verbatim(vec![plain("a")]),
            TextToken::Underline(vec![plain("b")]),
            TextToken::Crossed(vec![plain("c")]),
            TextToken::Bold(vec![plain("d")]),
            TextToken::Italic(vec![plain("e")]),
        ]
    );
}

#[test]
fn nested_spans() {
    assert_eq!(
        inline("x *a _b_ c* y"),
        vec![
            plain("x "),
            TextToken::Bold(vec![
                plain("a "),
                TextToken::Underline(vec![plain("b")]),
                plain(" c"),
            ]),
            plain(" y"),
        ]
    );
}

#[test]
fn verbatim_is_not_an_escape() {
    assert_eq!(
        inline("`a*b*c`"),
        vec![TextToken::Verbatim(vec![
            plain("a"),
            TextToken::Bold(vec![plain("b")]),
            plain("c"),
        ])]
    );
}

#[test]
fn same_delimiter_twice() {
    assert_eq!(
        inline("**a**"),
        vec![TextToken::Bold(vec![TextToken::Bold(vec![plain("a")])])]
    );
}

#[test]
fn unterminated_verbatim_before_newline() {
    assert_eq!(
        lex_all("`abc\n"),
        vec![
            Token::Text(line(vec![TextToken::TextExtra('`', vec![plain("abc")])])),
            Token::Newline,
        ]
    );
}

#[test]
fn unterminated_span_at_end_of_text() {
    assert_eq!(
        inline("*abc"),
        vec![TextToken::TextExtra('*', vec![plain("abc")])]
    );
}

#[test]
fn lone_delimiter_at_end_of_text() {
    assert_eq!(
        inline("x_"),
        vec![plain("x"), TextToken::TextExtra('_', vec![plain("")])]
    );
}

#[test]
fn only_delimiters() {
    assert_eq!(
        inline("*_"),
        vec![TextToken::TextExtra(
            '*',
            vec![TextToken::TextExtra('_', vec![plain("")])]
        )]
    );
}

#[test]
fn unterminated_inside_unterminated() {
    assert_eq!(
        inline("*a `b\n"),
        vec![TextToken::TextExtra(
            '*',
            vec![plain("a "), TextToken::TextExtra('`', vec![plain("b")])]
        )]
    );
}

#[test]
fn link_is_lexed() {
    assert_eq!(
        inline("|Site[open:https://x]|"),
        vec![TextToken::Link {
            name: "Site".to_string(),
            handler: Handler("open".to_string()),
            path: "https://x".to_string(),
        }]
    );
}

#[test]
fn link_between_text() {
    assert_eq!(
        inline("see |a[b:c]| now"),
        vec![
            plain("see "),
            TextToken::Link {
                name: "a".to_string(),
                handler: Handler("b".to_string()),
                path: "c".to_string(),
            },
            plain(" now"),
        ]
    );
}

#[test]
fn link_without_closer_is_text() {
    assert_eq!(
        lex_all("|Site[open:https://x\n"),
        vec![
            Token::Text(line(vec![
                TextToken::TextExtra('|', vec![plain("Site[open:https:")]),
                TextToken::TextExtra(
                    '/',
                    vec![TextToken::TextExtra('/', vec![plain("x")])]
                ),
            ])),
            Token::Newline,
        ]
    );
}

#[test]
fn link_whose_bracket_is_not_followed_by_a_bar() {
    assert_eq!(
        inline("|a[b:c]d]|"),
        vec![
            TextToken::TextExtra('|', vec![plain("a[b:c]d]")]),
            TextToken::TextExtra('|', vec![plain("")]),
        ]
    );
}

#[test]
fn link_on_the_next_line_does_not_count() {
    assert_eq!(
        lex_all("|a\n[b:c]|"),
        vec![
            Token::Text(line(vec![TextToken::TextExtra('|', vec![plain("a")])])),
            Token::Newline,
            Token::BracketOpen,
            Token::Inside("b:c".to_string()),
            Token::BracketClose,
            Token::Text(line(vec![TextToken::TextExtra('|', vec![plain("")])])),
        ]
    );
}

#[test]
fn markup_gives_the_text_back() {
    let texts = [
        "plain",
        "x *a _b_ c* y",
        "`abc",
        "|Site[open:https://x]| and |broken[",
        "**a**",
        "x-/_*`",
    ];
    for text in texts {
        match lex_all(text).into_iter().next() {
            Some(Token::Text(spans)) => assert_eq!(spans.markup(), text),
            other => panic!("no text token: {:?}", other),
        }
    }
}

#[test]
fn markup_of_one_span() {
    let span = TextToken::Italic(vec![plain("a"), TextToken::TextExtra('|', vec![plain("b")])]);
    assert_eq!(span.markup(), "/a|b/");
}
