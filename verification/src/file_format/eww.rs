//! Todos as widgets: each todo with its state and, for each node of its
//! description, the markup of a widget that shows it.
use crate::config::{Config, ConfigModel};
use crate::file_format::parser::{
    lemma_op_children, op_models, print_state, Parse, TextOp, TextOpModel, Todo, TodoModel,
};
use vstd::prelude::*;
use vstd::string::StringExecFns;

verus! {

/// A todo as a widget.
#[derive(Debug, PartialEq, Eq)]
pub struct EwwTodo {
    pub state: String,
    pub description: Vec<String>,
}

/// The model of [`EwwTodo`].
pub struct EwwTodoModel {
    pub state: Seq<char>,
    pub description: Seq<Seq<char>>,
}

impl View for EwwTodo {
    type V = EwwTodoModel;

    open spec fn view(&self) -> EwwTodoModel {
        EwwTodoModel {
            state: self.state@,
            description: Seq::new(self.description@.len(), |i: int| self.description@[i]@),
        }
    }
}

/// The widget for a styled node: a box with `style` around the widgets of
/// the children.
pub open spec fn styled_box(style: Seq<char>, children: Seq<TextOpModel>) -> Seq<char>
    decreases children, 1int,
{
    "(box :style \""@ + style + "\" :halign \"start\" "@ + widgets_of(children) + ")"@
}

/// The widget for a node: a box with the node's style around the widgets of
/// its children, a button that opens a link, a label for plain text, and for
/// an unclosed delimiter a label beside what follows it.
pub open spec fn widget_of(op: TextOpModel) -> Seq<char>
    decreases op, 0int,
{
    match op {
        TextOpModel::Verbatim(children) => styled_box("color: #c3e88d;"@, children),
        TextOpModel::Underline(children) => styled_box("text-decoration: underline;"@, children),
        TextOpModel::Crossed(children) => styled_box("text-decoration: line-through;"@, children),
        TextOpModel::Bold(children) => styled_box("font-weight: bold;"@, children),
        TextOpModel::Italic(children) => styled_box("font-style: italic;"@, children),
        TextOpModel::Link { name, handler, path } =>
            "(button :style \"all: unset\" :onclick \"todo t open-link-raw \\\""@ + handler.name()
            + "\\\" \\\""@ + path
            + "\\\" &\" :halign \"start\" (label :style \"text-decoration: underline; text-decoration-color: #ff5370;\" :halign \"start\" :text \""@
            + name + "\"))"@,
        TextOpModel::TextExtra(delimiter, children) =>
            "(box :space-evenly false :halign \"start\" (label :halign \"start\" :text \""@
            + seq![delimiter] + "\") "@ + widgets_of(children) + ")"@,
        TextOpModel::Normal(text) => "(label :halign \"start\" :text \""@ + text + "\")"@,
    }
}

/// The widgets of a sequence of nodes: one behind the other.
pub open spec fn widgets_of(ops: Seq<TextOpModel>) -> Seq<char>
    decreases ops, 0int,
{
    if ops.len() == 0 {
        Seq::empty()
    } else {
        widget_of(ops[0]) + widgets_of(ops.drop_first())
    }
}

/// The widget of each node, in order.
pub open spec fn widget_list(ops: Seq<TextOpModel>) -> Seq<Seq<char>> {
    Seq::new(ops.len(), |i: int| widget_of(ops[i]))
}

/// A todo as a widget: its state as it is written, and the widget of each
/// node of its description.
pub open spec fn eww_todo(config: ConfigModel, todo: TodoModel) -> EwwTodoModel {
    EwwTodoModel {
        state: print_state(config, todo.state),
        description: widget_list(todo.description),
    }
}

/// Appends the widgets of `ops`, one behind the other, to `out`.
fn write_widgets(ops: &Vec<TextOp>, out: &mut String)
    ensures
        final(out)@ == old(out)@ + widgets_of(op_models(ops@)),
    decreases ops, 0int,
{
    let ghost all = op_models(ops@);
    let ghost start = out@;
    let mut at: usize = 0;
    assert(all.skip(0) =~= all);
    while at < ops.len()
        invariant
            at <= ops.len(),
            all == op_models(ops@),
            out@ + widgets_of(all.skip(at as int)) == start + widgets_of(all),
        decreases ops.len() - at,
    {
        let ghost before = out@;
        let widget = op_to_string(&ops[at]);
        out.append(widget.as_str());
        proof {
            let rest = all.skip(at as int);
            assert(rest[0] == ops@[at as int]@);
            assert(rest.drop_first() =~= all.skip(at + 1));
            assert(before + (widget_of(rest[0]) + widgets_of(rest.drop_first())) =~= out@
                + widgets_of(all.skip(at + 1)));
        }
        at += 1;
    }
    assert(out@ + Seq::<char>::empty() =~= out@);
}

/// The box with `style` around the widgets of `children`.
fn box_of(style: &str, children: &Vec<TextOp>) -> (widget: String)
    ensures
        widget@ == styled_box(style@, op_models(children@)),
    decreases children, 1int,
{
    let mut widget = "(box :style \"".to_owned();
    widget.append(style);
    widget.append("\" :halign \"start\" ");
    write_widgets(children, &mut widget);
    widget.append(")");
    widget
}

/// The widget for a node.
pub fn op_to_string(op: &TextOp) -> (widget: String)
    ensures
        widget@ == widget_of(op@),
    decreases op, 0int,
{
    proof {
        lemma_op_children(*op);
    }
    match op {
        TextOp::Verbatim(children) => box_of("color: #c3e88d;", children),
        TextOp::Underline(children) => box_of("text-decoration: underline;", children),
        TextOp::Crossed(children) => box_of("text-decoration: line-through;", children),
        TextOp::Bold(children) => box_of("font-weight: bold;", children),
        TextOp::Italic(children) => box_of("font-style: italic;", children),
        TextOp::Link { name, handler, path } => {
            let mut widget =
                "(button :style \"all: unset\" :onclick \"todo t open-link-raw \\\"".to_owned();
            widget.append(handler.to_string().as_str());
            widget.append("\\\" \\\"");
            widget.append(path.as_str());
            widget.append(
                "\\\" &\" :halign \"start\" (label :style \"text-decoration: underline; text-decoration-color: #ff5370;\" :halign \"start\" :text \"",
            );
            widget.append(name.as_str());
            widget.append("\"))");
            widget
        },
        TextOp::TextExtra(delimiter, children) => {
            let mut widget =
                "(box :space-evenly false :halign \"start\" (label :halign \"start\" :text \"".to_owned();
            widget.push(*delimiter);
            widget.append("\") ");
            write_widgets(children, &mut widget);
            widget.append(")");
            widget
        },
        TextOp::Normal(text) => {
            let mut widget = "(label :halign \"start\" :text \"".to_owned();
            widget.append(text.as_str());
            widget.append("\")");
            widget
        },
    }
}

/// The models of a sequence of widget todos, in order.
pub open spec fn eww_models(todos: Seq<EwwTodo>) -> Seq<EwwTodoModel> {
    Seq::new(todos.len(), |i: int| todos[i]@)
}

impl EwwTodo {
    /// The todo as a widget.
    pub fn from_todo(todo: &Todo, config: &Config) -> (widget: EwwTodo)
        ensures
            widget@ == eww_todo(config@, todo@),
    {
        let ops = &todo.description.0;
        let mut description: Vec<String> = Vec::new();
        let mut at: usize = 0;
        while at < ops.len()
            invariant
                at <= ops.len(),
                description.len() == at,
                forall|i: int| 0 <= i < at ==> (#[trigger] description@[i])@ == widget_of(ops@[i]@),
            decreases ops.len() - at,
        {
            description.push(op_to_string(&ops[at]));
            at += 1;
        }
        let widget = EwwTodo { state: todo.state.print(config), description };
        assert(widget@.description =~= widget_list(todo@.description));
        widget
    }

    /// The todos as widgets, in order.
    pub fn from_todos(todos: Vec<&Todo>, config: &Config) -> (widgets: Vec<EwwTodo>)
        ensures
            widgets@.len() == todos@.len(),
            forall|i: int|
                0 <= i < todos@.len() ==> (#[trigger] widgets@[i])@ == eww_todo(config@, todos@[i]@),
    {
        let mut widgets: Vec<EwwTodo> = Vec::new();
        let mut at: usize = 0;
        while at < todos.len()
            invariant
                at <= todos.len(),
                widgets.len() == at,
                forall|i: int|
                    0 <= i < at ==> (#[trigger] widgets@[i])@ == eww_todo(config@, todos@[i]@),
            decreases todos.len() - at,
        {
            widgets.push(EwwTodo::from_todo(todos[at], config));
            at += 1;
        }
        widgets
    }
}

} // verus!
