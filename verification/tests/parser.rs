use std::collections::VecDeque;
use todo_markup::config::Config;
use todo_markup::file_format::parser::error::{Error, ParserError};
use todo_markup::file_format::parser::{
    Bullet, File, Handler, Heading, Parse, PrintText, Text, TextOp, Todo, TodoState, UnderHeading,
};
use todo_markup::file_format::tokenizer::{TextToken, TextTokens, Token, Tokens};

fn config() -> Config {
    let mut config = Config::new("notes".to_string());
    config.todo_state.insert("x".to_string(), "DONE".to_string());
    config.link_handlers.push("open".to_string());
    config
}

fn tokens_of(text: &str) -> VecDeque<Token> {
    Tokens::lex(text).to_vecdeque()
}

fn parse_document(text: &str) -> Result<File, ParserError> {
    File::parse(&config(), &mut tokens_of(text))
}

fn normal(text: &str) -> Text {
    Text(vec![TextOp::Normal(text.to_string())])
}

fn frames(error: &ParserError) -> Vec<(String, usize)> {
    error
        .frames()
        .iter()
        .map(|frame| (frame.name().to_string(), frame.remaining()))
        .collect()
}

#[test]
fn empty_document() {
    assert_eq!(parse_document(""), Ok(File(vec![])));
}

#[test]
fn alias_is_resolved() {
    let mut tokens = tokens_of("[x] buy milk\n");
    let todo = Todo::parse(&config(), &mut tokens).unwrap();
    assert_eq!(
        todo,
        Todo {
            state: TodoState::Defined("DONE".to_string()),
            description: normal("buy milk"),
        }
    );
    assert!(tokens.is_empty());
}

#[test]
fn unknown_state_is_kept() {
    let todo = Todo::parse(&config(), &mut tokens_of("[y] buy milk\n")).unwrap();
    assert_eq!(
        todo,
        Todo {
            state: TodoState::Other("y".to_string()),
            description: normal("buy milk"),
        }
    );
}

#[test]
fn empty_state_prints_as_default() {
    let todo = Todo::parse(&config(), &mut tokens_of("[] buy milk\n")).unwrap();
    assert_eq!(todo.state, TodoState::Other(String::new()));
    assert!(todo.state.empty());
    assert_eq!(todo.print(&config()), "[ ] buy milk");
    let mut custom = config();
    custom.todo_state_ops = Some(todo_markup::config::TodoStateOps::new(
        "TODO".to_string(),
        None,
    ));
    assert_eq!(todo.print(&custom), "[TODO] buy milk");
}

#[test]
fn document_with_every_kind_of_entry() {
    let file = parse_document("# Home\n[x] a\n- b\nc *d*\n\n# Work\n").unwrap();
    assert_eq!(
        file,
        File(vec![
            Heading {
                name: "Home".to_string(),
                body: vec![
                    UnderHeading::Todo(Todo {
                        state: TodoState::Defined("DONE".to_string()),
                        description: normal("a"),
                    }),
                    UnderHeading::Bullet(Bullet {
                        bullet: true,
                        text: normal("b"),
                    }),
                    UnderHeading::Text(PrintText(Text(vec![
                        TextOp::Normal("c ".to_string()),
                        TextOp::Bold(vec![TextOp::Normal("d".to_string())]),
                    ]))),
                ],
            },
            Heading {
                name: "Work".to_string(),
                body: vec![],
            },
        ])
    );
    assert_eq!(file.headings().len(), 2);
}

#[test]
fn handlers_are_classified() {
    let file = parse_document("# H\n|a[open:p]| |b[shut:q]|\n").unwrap();
    let heading = &file.headings()[0];
    let links = heading.links();
    assert_eq!(links.len(), 2);
    assert_eq!(links[0].0, "a");
    assert_eq!(links[0].1, &Handler::Custom("open".to_string()));
    assert_eq!(links[0].2, "p");
    assert_eq!(links[1].1, &Handler::Unknown("shut".to_string()));
    assert!(links[0].1.is_known());
    assert!(!links[1].1.is_known());
    assert_eq!(links[1].1.to_string(), "shut");
}

#[test]
fn links_inside_other_nodes_are_not_listed() {
    let file = parse_document("# H\n[x] |a[open:p]|\n- *|b[open:q]|*\n|c[open:r]|\n").unwrap();
    let links = file.headings()[0].links();
    let names: Vec<&str> = links.iter().map(|link| link.0.as_str()).collect();
    assert_eq!(names, vec!["a", "c"]);
}

#[test]
fn todos_of_a_heading() {
    let file = parse_document("# H\n[x] a\n- b\n[y] c\n").unwrap();
    let todos = file.headings()[0].todos();
    assert_eq!(todos.len(), 2);
    assert_eq!(todos[0].description, normal("a"));
    assert_eq!(todos[1].state, TodoState::Other("y".to_string()));
}

#[test]
fn text_of_a_paragraph() {
    let paragraph = PrintText(normal("a"));
    assert_eq!(paragraph.text(), &normal("a"));
}

#[test]
fn from_token_keeps_the_tree() {
    let token = TextToken::Underline(vec![
        TextToken::Text("a".to_string()),
        TextToken::TextExtra('*', vec![TextToken::Text("b".to_string())]),
    ]);
    assert_eq!(
        TextOp::from_token(&token, &config()),
        TextOp::Underline(vec![
            TextOp::Normal("a".to_string()),
            TextOp::TextExtra('*', vec![TextOp::Normal("b".to_string())]),
        ])
    );
}

#[test]
fn nested_heading_is_rejected() {
    let error = parse_document("# A\n# B\n").unwrap_err();
    assert_eq!(
        error.cause(),
        &Error::StructuralViolation("heading cannot nest".to_string())
    );
    assert_eq!(
        frames(&error),
        vec![("Heading".to_string(), 4), ("File".to_string(), 4)]
    );
}

#[test]
fn nested_heading_after_entries_is_rejected() {
    let error = parse_document("# A\n- b\n# C\n").unwrap_err();
    assert!(matches!(error.cause(), Error::StructuralViolation(_)));
}

#[test]
fn heading_after_an_empty_line_is_accepted() {
    let file = parse_document("# A\n\n# B\n").unwrap();
    assert_eq!(file.headings().len(), 2);
}

#[test]
fn document_must_start_with_a_heading() {
    let error = parse_document("hello\n").unwrap_err();
    assert_eq!(
        error.cause(),
        &Error::UnexpectedToken {
            expected: vec!["Token::Heading(_)"],
            got: Token::Text(TextTokens(VecDeque::from(vec![TextToken::Text(
                "hello".to_string()
            )]))),
        }
    );
    assert_eq!(
        frames(&error),
        vec![("Heading".to_string(), 2), ("File".to_string(), 2)]
    );
}

#[test]
fn end_of_input_inside_a_todo() {
    let error = parse_document("# A\n[x] a").unwrap_err();
    assert_eq!(error.cause(), &Error::EndOfInput);
    assert_eq!(
        frames(&error),
        vec![
            ("Todo".to_string(), 4),
            ("Heading".to_string(), 6),
            ("File".to_string(), 6),
        ]
    );
}

#[test]
fn frames_run_from_the_innermost_rule_outwards() {
    let mut tokens = VecDeque::from(vec![
        Token::Heading("A".to_string()),
        Token::Newline,
        Token::BracketOpen,
        Token::Newline,
    ]);
    let error = File::parse(&config(), &mut tokens).unwrap_err();
    assert_eq!(
        error.cause(),
        &Error::UnexpectedToken {
            expected: vec!["Token::Inside(_)"],
            got: Token::Newline,
        }
    );
    assert_eq!(
        frames(&error),
        vec![
            ("TodoState".to_string(), 1),
            ("Todo".to_string(), 2),
            ("Heading".to_string(), 4),
            ("File".to_string(), 4),
        ]
    );
    assert_eq!(
        error.to_string(),
        "expected one of {Token::Inside(_)}, got Token::Newline:\n\
         TodoState(1 tokens left)\nTodo(2 tokens left)\nHeading(4 tokens left)\nFile(4 tokens left)"
    );
    assert!(tokens.is_empty());
}

#[test]
fn token_that_starts_no_entry() {
    let mut tokens = VecDeque::from(vec![
        Token::Heading("A".to_string()),
        Token::Newline,
        Token::Inside("x".to_string()),
        Token::Newline,
    ]);
    let error = Heading::parse(&config(), &mut tokens).unwrap_err();
    assert_eq!(
        error.cause(),
        &Error::UnexpectedToken {
            expected: vec![
                "Token::BracketOpen",
                "Token::Bullet(_)",
                "Token::Text(_)",
                "Token::Newline",
            ],
            got: Token::Inside("x".to_string()),
        }
    );
    assert_eq!(frames(&error), vec![("Heading".to_string(), 4)]);
    assert_eq!(tokens.len(), 1);
    assert_eq!(
        error.to_string(),
        "expected one of {Token::BracketOpen, Token::Bullet(_), Token::Text(_), Token::Newline}, \
         got Token::Inside(x):\nHeading(4 tokens left)"
    );
}

#[test]
fn bullet_must_end_with_a_newline() {
    let mut tokens = VecDeque::from(vec![
        Token::Heading("A".to_string()),
        Token::Newline,
        Token::Bullet(TextTokens(VecDeque::new())),
        Token::BracketOpen,
    ]);
    let error = Heading::parse(&config(), &mut tokens).unwrap_err();
    assert_eq!(
        error.cause(),
        &Error::UnexpectedToken {
            expected: vec!["Token::Newline"],
            got: Token::BracketOpen,
        }
    );
}

#[test]
fn todo_takes_no_bullet_as_its_text() {
    let mut tokens = VecDeque::from(vec![
        Token::BracketOpen,
        Token::Inside("x".to_string()),
        Token::BracketClose,
        Token::Bullet(TextTokens(VecDeque::new())),
        Token::Newline,
    ]);
    let error = Todo::parse(&config(), &mut tokens).unwrap_err();
    assert_eq!(
        frames(&error),
        vec![("Text".to_string(), 2), ("Todo".to_string(), 5)]
    );
}

#[test]
fn messages_of_causes() {
    assert_eq!(Error::EndOfInput.to_string(), "no tokens left");
    assert_eq!(
        Error::StructuralViolation("heading cannot nest".to_string()).to_string(),
        "heading cannot nest"
    );
    let got = Token::Text(TextTokens(VecDeque::from(vec![TextToken::Bold(vec![
        TextToken::Text("a".to_string()),
    ])])));
    assert_eq!(got.describe(), "Token::Text(*a*)");
    assert_eq!(Token::Heading("H".to_string()).describe(), "Token::Heading(H)");
    assert_eq!(Token::BracketOpen.describe(), "Token::BracketOpen");
}

#[test]
fn frame_with_a_long_count() {
    let frame = todo_markup::file_format::parser::error::ParserErrorStack::new("File", 1203);
    assert_eq!(frame.to_string(), "File(1203 tokens left)");
    let none = todo_markup::file_format::parser::error::ParserErrorStack::new("File", 0);
    assert_eq!(none.to_string(), "File(0 tokens left)");
}

#[test]
fn checks_look_at_the_next_tokens() {
    let todo = tokens_of("[x] a\n");
    assert!(Todo::check(&todo));
    assert!(!Bullet::check(&todo));
    assert!(!Text::check(&todo));
    assert!(!Heading::check(&todo));
    assert!(!TodoState::check(&todo));
    let mut inside = tokens_of("[x] a\n");
    inside.pop_front();
    assert!(TodoState::check(&inside));
    assert!(Bullet::check(&tokens_of("- a")));
    assert!(Text::check(&tokens_of("a")));
    assert!(PrintText::check(&tokens_of("a")));
    assert!(!Text::check(&tokens_of("- a")));
    assert!(Heading::check(&tokens_of("# a")));
    assert!(File::check(&tokens_of("# a")));
    let nothing = VecDeque::new();
    assert!(!File::check(&nothing));
    assert!(!TodoState::check(&nothing));
}
