use std::collections::VecDeque;
use todo_markup::config::{Config, TodoStateOps};
use todo_markup::file_format::parser::{
    wrap_column, Bullet, File, Handler, Heading, Parse, PrintText, Text, TextOp, Todo, TodoState,
    UnderHeading,
};
use todo_markup::file_format::tokenizer::Tokens;

fn plain_config() -> Config {
    Config::new("notes".to_string())
}

fn text(content: &str) -> Text {
    Text(vec![TextOp::Normal(content.to_string())])
}

#[test]
fn bullet_with_default_point() {
    let bullet = Bullet { bullet: true, text: text("a") };
    assert_eq!(bullet.print(&plain_config()), "- a");
}

#[test]
fn bullet_with_configured_point() {
    let mut config = plain_config();
    config.bullet_point = Some("*".to_string());
    let bullet = Bullet { bullet: true, text: text("a") };
    assert_eq!(bullet.print(&config), "* a");
}

#[test]
fn state_in_brackets_by_default() {
    let config = plain_config();
    assert_eq!(TodoState::Defined("DONE".to_string()).print(&config), "[DONE]");
    assert_eq!(TodoState::Other("y".to_string()).print(&config), "[y]");
    assert_eq!(TodoState::Other(String::new()).print(&config), "[ ]");
}

#[test]
fn state_without_brackets() {
    let mut config = plain_config();
    config.todo_state_ops = Some(TodoStateOps::new("open".to_string(), Some(false)));
    assert_eq!(TodoState::Defined("DONE".to_string()).print(&config), "DONE");
    assert_eq!(TodoState::Defined(String::new()).print(&config), "open");
    let todo = Todo { state: TodoState::Other("y".to_string()), description: text("a") };
    assert_eq!(todo.print(&config), "y a");
}

#[test]
fn state_ops_default_to_brackets() {
    assert!(TodoStateOps::new("d".to_string(), None).brackets);
    assert!(TodoStateOps::new("d".to_string(), Some(true)).brackets);
    assert!(!TodoStateOps::new("d".to_string(), Some(false)).brackets);
}

#[test]
fn todo_is_state_space_description() {
    let todo = Todo { state: TodoState::Defined("DONE".to_string()), description: text("buy") };
    assert_eq!(todo.print(&plain_config()), "[DONE] buy");
}

#[test]
fn nodes_are_written_between_their_delimiters() {
    assert_eq!(TextOp::Verbatim(vec![TextOp::Normal("a".into())]).to_string(), "`a`");
    assert_eq!(TextOp::Underline(vec![TextOp::Normal("a".into())]).to_string(), "_a_");
    assert_eq!(TextOp::Crossed(vec![TextOp::Normal("a".into())]).to_string(), "-a-");
    assert_eq!(TextOp::Bold(vec![TextOp::Normal("a".into())]).to_string(), "*a*");
    assert_eq!(TextOp::Italic(vec![TextOp::Normal("a".into())]).to_string(), "/a/");
    assert_eq!(TextOp::TextExtra('*', vec![TextOp::Normal("a".into())]).to_string(), "*a");
    assert_eq!(TextOp::Normal("a".into()).to_string(), "a");
}

#[test]
fn link_is_written_as_its_name() {
    let link = TextOp::Link {
        name: "Site".to_string(),
        handler: Handler::Custom("open".to_string()),
        path: "https://x".to_string(),
    };
    assert_eq!(link.to_string(), "|Site|");
}

#[test]
fn nested_nodes_are_written_in_order() {
    let line = Text(vec![
        TextOp::Normal("x ".to_string()),
        TextOp::Bold(vec![
            TextOp::Normal("a ".to_string()),
            TextOp::Underline(vec![TextOp::Normal("b".to_string())]),
        ]),
        TextOp::TextExtra('`', vec![TextOp::Normal("c".to_string())]),
    ]);
    assert_eq!(line.print(&plain_config()), "x *a _b_*`c");
}

#[test]
fn wrap_column_leaves_room_for_the_indentation() {
    assert_eq!(wrap_column(80), 76);
    assert_eq!(wrap_column(4), 0);
    assert_eq!(wrap_column(3), 0);
    assert_eq!(wrap_column(0), 0);
}

#[test]
fn paragraph_is_wrapped_and_indented() {
    let paragraph = PrintText(text("one two three four five six seven"));
    assert_eq!(
        paragraph.print_at_width(&plain_config(), 14),
        "    one two\n    three four\n    five six\n    seven\n"
    );
}

#[test]
fn paragraph_agrees_with_textwrap() {
    let content = "Memory safety without garbage collection.";
    let paragraph = PrintText(text(content));
    let expected = textwrap::indent(&textwrap::fill(content, 15), "    ") + "\n";
    assert_eq!(paragraph.print_at_width(&plain_config(), 19), expected);
    assert_eq!(expected, "    Memory safety\n    without garbage\n    collection.\n");
}

#[test]
fn paragraph_on_a_narrow_terminal() {
    let paragraph = PrintText(text("a b"));
    assert_eq!(paragraph.print_at_width(&plain_config(), 2), "    a\n    b\n");
}

#[test]
fn paragraph_on_the_terminal() {
    let paragraph = PrintText(text("short"));
    assert_eq!(paragraph.print(&plain_config()), "    short\n");
}

#[test]
fn heading_with_entries() {
    let heading = Heading {
        name: "Home".to_string(),
        body: vec![
            UnderHeading::Todo(Todo {
                state: TodoState::Other(String::new()),
                description: text("a"),
            }),
            UnderHeading::Bullet(Bullet { bullet: true, text: text("b") }),
            UnderHeading::Text(PrintText(text("c d"))),
        ],
    };
    assert_eq!(
        heading.print_at_width(&plain_config(), 80),
        "# Home\n    [ ] a\n    - b\n    c d\n"
    );
    assert_eq!(heading.print(&plain_config()), "# Home\n    [ ] a\n    - b\n    c d\n");
}

#[test]
fn headings_are_joined_by_newlines() {
    let file = File(vec![
        Heading { name: "A".to_string(), body: vec![] },
        Heading {
            name: "B".to_string(),
            body: vec![UnderHeading::Bullet(Bullet { bullet: true, text: text("b") })],
        },
        Heading { name: "C".to_string(), body: vec![] },
    ]);
    assert_eq!(file.print_at_width(&plain_config(), 80), "# A\n\n# B\n    - b\n\n# C\n");
    assert_eq!(File(vec![]).print_at_width(&plain_config(), 80), "");
    assert_eq!(File(vec![]).print(&plain_config()), "");
}

#[test]
fn empty_document_survives_printing_and_parsing() {
    let config = plain_config();
    let printed = File(vec![]).print_at_width(&config, 80);
    let mut tokens = Tokens::lex(&printed).to_vecdeque();
    assert_eq!(File::parse(&config, &mut tokens), Ok(File(vec![])));
}

#[test]
fn printed_heading_is_a_heading_again() {
    let config = plain_config();
    let file = File(vec![Heading { name: "A".to_string(), body: vec![] }]);
    let printed = file.print_at_width(&config, 80);
    assert_eq!(printed, "# A\n");
    let mut tokens = Tokens::lex(&printed).to_vecdeque();
    assert_eq!(File::parse(&config, &mut tokens), Ok(file));
    assert!(tokens.is_empty());
}

#[test]
fn heading_without_a_name_comes_back() {
    let config = plain_config();
    let file = File(vec![
        Heading { name: String::new(), body: vec![] },
        Heading { name: "B".to_string(), body: vec![] },
    ]);
    let printed = file.print_at_width(&config, 80);
    assert_eq!(printed, "# \n\n# B\n");
    let mut tokens = Tokens::lex(&printed).to_vecdeque();
    assert_eq!(File::parse(&config, &mut tokens), Ok(file));
}

#[test]
fn parsed_document_is_parsed_again_from_its_print() {
    let mut config = plain_config();
    config.todo_state.insert("DONE".to_string(), "DONE".to_string());
    let source = "#  Home  \n[DONE] buy *milk*\n  [ ]   call `the bank\n- eggs /and/ flour\n\n\
                  # Work\n\n#Later\n[y] -done- _x_\n";
    let mut tokens = Tokens::lex(source).to_vecdeque();
    let first = File::parse(&config, &mut tokens).unwrap();
    assert_eq!(first.headings().len(), 3);
    let printed = first.print_at_width(&config, 80);
    assert_eq!(
        printed,
        "# Home\n    [DONE] buy *milk*\n    [ ] call `the bank\n    - eggs /and/ flour\n\n\
         # Work\n\n# Later\n    [y] -done- _x_\n"
    );
    let mut again = Tokens::lex(&printed).to_vecdeque();
    assert_eq!(File::parse(&config, &mut again), Ok(first));
    assert!(again.is_empty());
}

#[test]
fn short_paragraph_comes_back_too() {
    let config = plain_config();
    let mut tokens = Tokens::lex("# H\nsome *short* text\n").to_vecdeque();
    let first = File::parse(&config, &mut tokens).unwrap();
    let printed = first.print_at_width(&config, 80);
    assert_eq!(printed, "# H\n    some *short* text\n");
    let mut again = Tokens::lex(&printed).to_vecdeque();
    assert_eq!(File::parse(&config, &mut again), Ok(first));
}

#[test]
fn printed_line_is_parsed_to_the_same_line() {
    let config = plain_config();
    let sources = ["x *a _b_ c* y", "`abc", "**a**", "a |b c", "x-/_*`"];
    for source in sources {
        let mut tokens = Tokens::lex(source).to_vecdeque();
        let first = Text::parse(&config, &mut tokens).unwrap();
        let printed = first.print(&config);
        assert_eq!(printed, source);
        let mut again: VecDeque<_> = Tokens::lex(&printed).to_vecdeque();
        assert_eq!(Text::parse(&config, &mut again).unwrap(), first);
    }
}

#[test]
fn printed_todo_is_parsed_to_the_same_todo() {
    let config = plain_config();
    let todo = Todo { state: TodoState::Other(String::new()), description: text("a *b") };
    let mut printed = todo.print(&config);
    printed.push('\n');
    let mut tokens = Tokens::lex(&printed).to_vecdeque();
    let parsed = Todo::parse(&config, &mut tokens).unwrap();
    assert_eq!(parsed.state, todo.state);
    assert_eq!(
        parsed.description,
        Text(vec![
            TextOp::Normal("a ".to_string()),
            TextOp::TextExtra('*', vec![TextOp::Normal("b".to_string())]),
        ])
    );
}

#[test]
fn printed_entries_are_parsed_to_the_same_entries() {
    let config = plain_config();
    let heading = Heading {
        name: "H".to_string(),
        body: vec![
            UnderHeading::Todo(Todo {
                state: TodoState::Other("y".to_string()),
                description: Text(vec![
                    TextOp::Normal("a ".to_string()),
                    TextOp::Bold(vec![TextOp::Normal("b".to_string())]),
                ]),
            }),
            UnderHeading::Todo(Todo {
                state: TodoState::Other(String::new()),
                description: Text(vec![]),
            }),
            UnderHeading::Bullet(Bullet { bullet: true, text: text("c") }),
        ],
    };
    let printed = heading.print_at_width(&config, 80);
    assert_eq!(printed, "# H\n    [y] a *b*\n    [ ] \n    - c\n");
    let mut tokens = Tokens::lex(&printed).to_vecdeque();
    assert_eq!(Heading::parse(&config, &mut tokens), Ok(heading));
    assert!(tokens.is_empty());
}

#[test]
fn bullet_with_another_point_does_not_come_back() {
    let mut config = plain_config();
    config.bullet_point = Some("*".to_string());
    let bullet = UnderHeading::Bullet(Bullet { bullet: true, text: text("c") });
    let document = format!("# H\n{}", bullet.print_at_width(&config, 80));
    let mut tokens = Tokens::lex(&document).to_vecdeque();
    let heading = Heading::parse(&config, &mut tokens).unwrap();
    assert!(matches!(heading.body[0], UnderHeading::Text(_)));
}

#[test]
fn link_does_not_come_back() {
    let config = plain_config();
    let mut tokens = Tokens::lex("|a[b:c]|").to_vecdeque();
    let first = Text::parse(&config, &mut tokens).unwrap();
    let printed = first.print(&config);
    assert_eq!(printed, "|a|");
    let mut again = Tokens::lex(&printed).to_vecdeque();
    assert_ne!(Text::parse(&config, &mut again).unwrap(), first);
}
