use todo_markup::config::Config;
use todo_markup::file_format::eww::{op_to_string, EwwTodo};
use todo_markup::file_format::parser::{Handler, Text, TextOp, Todo, TodoState};

fn normal(text: &str) -> TextOp {
    TextOp::Normal(text.to_string())
}

#[test]
fn label_for_plain_text() {
    assert_eq!(op_to_string(&normal("a")), "(label :halign \"start\" :text \"a\")");
}

#[test]
fn boxes_for_styled_nodes() {
    let label = "(label :halign \"start\" :text \"a\")";
    let cases = [
        (TextOp::Verbatim(vec![normal("a")]), "color: #c3e88d;"),
        (TextOp::Underline(vec![normal("a")]), "text-decoration: underline;"),
        (TextOp::Crossed(vec![normal("a")]), "text-decoration: line-through;"),
        (TextOp::Bold(vec![normal("a")]), "font-weight: bold;"),
        (TextOp::Italic(vec![normal("a")]), "font-style: italic;"),
    ];
    for (op, style) in cases {
        assert_eq!(
            op_to_string(&op),
            format!("(box :style \"{}\" :halign \"start\" {})", style, label)
        );
    }
}

#[test]
fn box_with_two_children() {
    assert_eq!(
        op_to_string(&TextOp::Bold(vec![normal("a"), normal("b")])),
        "(box :style \"font-weight: bold;\" :halign \"start\" \
         (label :halign \"start\" :text \"a\")(label :halign \"start\" :text \"b\"))"
    );
}

#[test]
fn button_for_a_link() {
    let link = TextOp::Link {
        name: "Site".to_string(),
        handler: Handler::Custom("open".to_string()),
        path: "https://x".to_string(),
    };
    assert_eq!(
        op_to_string(&link),
        "(button :style \"all: unset\" :onclick \"todo t open-link-raw \\\"open\\\" \\\"https://x\\\" &\" \
         :halign \"start\" (label :style \"text-decoration: underline; text-decoration-color: #ff5370;\" \
         :halign \"start\" :text \"Site\"))"
    );
}

#[test]
fn box_for_an_unclosed_delimiter() {
    assert_eq!(
        op_to_string(&TextOp::TextExtra('*', vec![normal("a")])),
        "(box :space-evenly false :halign \"start\" (label :halign \"start\" :text \"*\") \
         (label :halign \"start\" :text \"a\"))"
    );
}

#[test]
fn todos_as_widgets() {
    let config = Config::new("notes".to_string());
    let first = Todo {
        state: TodoState::Defined("DONE".to_string()),
        description: Text(vec![normal("a"), TextOp::Bold(vec![normal("b")])]),
    };
    let second = Todo { state: TodoState::Other(String::new()), description: Text(vec![]) };
    let widgets = EwwTodo::from_todos(vec![&first, &second], &config);
    assert_eq!(
        widgets,
        vec![
            EwwTodo {
                state: "[DONE]".to_string(),
                description: vec![
                    "(label :halign \"start\" :text \"a\")".to_string(),
                    "(box :style \"font-weight: bold;\" :halign \"start\" \
                     (label :halign \"start\" :text \"b\"))"
                        .to_string(),
                ],
            },
            EwwTodo { state: "[ ]".to_string(), description: vec![] },
        ]
    );
    assert_eq!(EwwTodo::from_todo(&second, &config), widgets[1]);
}
