//! The document tree: how it is parsed from line tokens, and how it is
//! written.
use crate::config::{Config, ConfigModel};
use crate::file_format::tokenizer::{
    line_tokens_of, lemma_view_children, spans_of, LineToken, Span, TextToken, TextTokens, Token,
};
use crate::text::{join, joined, texts_of};
use crate::wrap::{fill, filled, indent, indented, terminal_width};
use error::{Cause, Error, Failure, Frame, ParserError, ParserErrorStack};
use std::collections::VecDeque;
use vstd::pervasive::unreached;
use vstd::prelude::*;
use vstd::string::StringExecFns;

pub mod error;

verus! {

// ---------------------------------------------------------------------------
// The tree and its model
// ---------------------------------------------------------------------------

/// The handler of a link: one that the configuration knows, or not.
#[derive(Debug, PartialEq, Eq)]
pub enum Handler {
    Custom(String),
    Unknown(String),
}

/// The model of [`Handler`].
pub enum HandlerModel {
    Custom(Seq<char>),
    Unknown(Seq<char>),
}

impl HandlerModel {
    /// The handler's name.
    pub open spec fn name(self) -> Seq<char> {
        match self {
            HandlerModel::Custom(name) => name,
            HandlerModel::Unknown(name) => name,
        }
    }
}

impl View for Handler {
    type V = HandlerModel;

    open spec fn view(&self) -> HandlerModel {
        match self {
            Handler::Custom(name) => HandlerModel::Custom(name@),
            Handler::Unknown(name) => HandlerModel::Unknown(name@),
        }
    }
}

/// One node of inline markup in the tree.
#[derive(Debug, PartialEq, Eq)]
pub enum TextOp {
    Verbatim(Vec<TextOp>),
    Underline(Vec<TextOp>),
    Crossed(Vec<TextOp>),
    Bold(Vec<TextOp>),
    Italic(Vec<TextOp>),
    Link { name: String, handler: Handler, path: String },
    TextExtra(char, Vec<TextOp>),
    Normal(String),
}

/// The model of [`TextOp`].
pub enum TextOpModel {
    Verbatim(Seq<TextOpModel>),
    Underline(Seq<TextOpModel>),
    Crossed(Seq<TextOpModel>),
    Bold(Seq<TextOpModel>),
    Italic(Seq<TextOpModel>),
    Link { name: Seq<char>, handler: HandlerModel, path: Seq<char> },
    TextExtra(char, Seq<TextOpModel>),
    Normal(Seq<char>),
}

/// The model of a node.
pub open spec fn op_model(op: TextOp) -> TextOpModel
    decreases op,
{
    match op {
        TextOp::Verbatim(children) => TextOpModel::Verbatim(
            Seq::new(
                children@.len(),
                |i: int|
                    if 0 <= i < children@.len() {
                        op_model(children@[i])
                    } else {
                        TextOpModel::Normal(Seq::empty())
                    },
            ),
        ),
        TextOp::Underline(children) => TextOpModel::Underline(
            Seq::new(
                children@.len(),
                |i: int|
                    if 0 <= i < children@.len() {
                        op_model(children@[i])
                    } else {
                        TextOpModel::Normal(Seq::empty())
                    },
            ),
        ),
        TextOp::Crossed(children) => TextOpModel::Crossed(
            Seq::new(
                children@.len(),
                |i: int|
                    if 0 <= i < children@.len() {
                        op_model(children@[i])
                    } else {
                        TextOpModel::Normal(Seq::empty())
                    },
            ),
        ),
        TextOp::Bold(children) => TextOpModel::Bold(
            Seq::new(
                children@.len(),
                |i: int|
                    if 0 <= i < children@.len() {
                        op_model(children@[i])
                    } else {
                        TextOpModel::Normal(Seq::empty())
                    },
            ),
        ),
        TextOp::Italic(children) => TextOpModel::Italic(
            Seq::new(
                children@.len(),
                |i: int|
                    if 0 <= i < children@.len() {
                        op_model(children@[i])
                    } else {
                        TextOpModel::Normal(Seq::empty())
                    },
            ),
        ),
        TextOp::Link { name, handler, path } => TextOpModel::Link {
            name: name@,
            handler: handler@,
            path: path@,
        },
        TextOp::TextExtra(delimiter, children) => TextOpModel::TextExtra(
            delimiter,
            Seq::new(
                children@.len(),
                |i: int|
                    if 0 <= i < children@.len() {
                        op_model(children@[i])
                    } else {
                        TextOpModel::Normal(Seq::empty())
                    },
            ),
        ),
        TextOp::Normal(text) => TextOpModel::Normal(text@),
    }
}

impl View for TextOp {
    type V = TextOpModel;

    open spec fn view(&self) -> TextOpModel {
        op_model(*self)
    }
}

/// The models of a sequence of nodes, in order.
pub open spec fn op_models(ops: Seq<TextOp>) -> Seq<TextOpModel> {
    Seq::new(ops.len(), |i: int| ops[i]@)
}

/// A node with children is modelled by the models of its children.
pub proof fn lemma_op_children(op: TextOp)
    ensures
        op matches TextOp::Verbatim(c) ==> op@ == TextOpModel::Verbatim(op_models(c@)),
        op matches TextOp::Underline(c) ==> op@ == TextOpModel::Underline(op_models(c@)),
        op matches TextOp::Crossed(c) ==> op@ == TextOpModel::Crossed(op_models(c@)),
        op matches TextOp::Bold(c) ==> op@ == TextOpModel::Bold(op_models(c@)),
        op matches TextOp::Italic(c) ==> op@ == TextOpModel::Italic(op_models(c@)),
        op matches TextOp::TextExtra(d, c) ==> op@ == TextOpModel::TextExtra(d, op_models(c@)),
{
    reveal_with_fuel(op_model, 2);
    match op {
        TextOp::Verbatim(c) => {
            assert(op@->Verbatim_0 =~= op_models(c@));
        },
        TextOp::Underline(c) => {
            assert(op@->Underline_0 =~= op_models(c@));
        },
        TextOp::Crossed(c) => {
            assert(op@->Crossed_0 =~= op_models(c@));
        },
        TextOp::Bold(c) => {
            assert(op@->Bold_0 =~= op_models(c@));
        },
        TextOp::Italic(c) => {
            assert(op@->Italic_0 =~= op_models(c@));
        },
        TextOp::TextExtra(d, c) => {
            assert(op@->TextExtra_1 =~= op_models(c@));
        },
        _ => {},
    }
}

/// The inline markup of one line or paragraph.
#[derive(Debug, PartialEq, Eq)]
pub struct Text(pub Vec<TextOp>);

impl View for Text {
    type V = Seq<TextOpModel>;

    open spec fn view(&self) -> Seq<TextOpModel> {
        op_models(self.0@)
    }
}

/// The state of a todo: the state that the configuration names by what
/// stood in the brackets, or else what stood there. The empty text means
/// that the todo has no state.
#[derive(Debug, PartialEq, Eq)]
pub enum TodoState {
    Defined(String),
    Other(String),
}

/// The model of [`TodoState`].
pub enum TodoStateModel {
    Defined(Seq<char>),
    Other(Seq<char>),
}

impl TodoStateModel {
    /// The state's text.
    pub open spec fn text(self) -> Seq<char> {
        match self {
            TodoStateModel::Defined(text) => text,
            TodoStateModel::Other(text) => text,
        }
    }
}

impl View for TodoState {
    type V = TodoStateModel;

    open spec fn view(&self) -> TodoStateModel {
        match self {
            TodoState::Defined(text) => TodoStateModel::Defined(text@),
            TodoState::Other(text) => TodoStateModel::Other(text@),
        }
    }
}

/// A todo: its state and what is to do.
#[derive(Debug, PartialEq, Eq)]
pub struct Todo {
    pub state: TodoState,
    pub description: Text,
}

/// The model of [`Todo`].
pub struct TodoModel {
    pub state: TodoStateModel,
    pub description: Seq<TextOpModel>,
}

impl View for Todo {
    type V = TodoModel;

    open spec fn view(&self) -> TodoModel {
        TodoModel { state: self.state@, description: self.description@ }
    }
}

/// A bullet point with its text.
#[derive(Debug, PartialEq, Eq)]
pub struct Bullet {
    /// Whether the bullet has its marker.
    pub bullet: bool,
    pub text: Text,
}

/// The model of [`Bullet`].
pub struct BulletModel {
    pub bullet: bool,
    pub text: Seq<TextOpModel>,
}

impl View for Bullet {
    type V = BulletModel;

    open spec fn view(&self) -> BulletModel {
        BulletModel { bullet: self.bullet, text: self.text@ }
    }
}

/// A paragraph: text that is wrapped to the terminal when it is written.
#[derive(Debug, PartialEq, Eq)]
pub struct PrintText(pub Text);

impl View for PrintText {
    type V = Seq<TextOpModel>;

    open spec fn view(&self) -> Seq<TextOpModel> {
        self.0@
    }
}

/// One entry under a heading.
#[derive(Debug, PartialEq, Eq)]
pub enum UnderHeading {
    Todo(Todo),
    Bullet(Bullet),
    Text(PrintText),
}

/// The model of [`UnderHeading`].
pub enum UnderHeadingModel {
    Todo(TodoModel),
    Bullet(BulletModel),
    Text(Seq<TextOpModel>),
}

impl View for UnderHeading {
    type V = UnderHeadingModel;

    open spec fn view(&self) -> UnderHeadingModel {
        match self {
            UnderHeading::Todo(todo) => UnderHeadingModel::Todo(todo@),
            UnderHeading::Bullet(bullet) => UnderHeadingModel::Bullet(bullet@),
            UnderHeading::Text(text) => UnderHeadingModel::Text(text@),
        }
    }
}

/// The models of a sequence of entries, in order.
pub open spec fn entry_models(entries: Seq<UnderHeading>) -> Seq<UnderHeadingModel> {
    Seq::new(entries.len(), |i: int| entries[i]@)
}

/// A heading with the entries under it.
#[derive(Debug, PartialEq, Eq)]
pub struct Heading {
    pub name: String,
    pub body: Vec<UnderHeading>,
}

/// The model of [`Heading`].
pub struct HeadingModel {
    pub name: Seq<char>,
    pub body: Seq<UnderHeadingModel>,
}

impl View for Heading {
    type V = HeadingModel;

    open spec fn view(&self) -> HeadingModel {
        HeadingModel { name: self.name@, body: entry_models(self.body@) }
    }
}

/// The models of a sequence of headings, in order.
pub open spec fn heading_models(headings: Seq<Heading>) -> Seq<HeadingModel> {
    Seq::new(headings.len(), |i: int| headings[i]@)
}

/// A document: its headings, in order.
#[derive(Debug, PartialEq, Eq)]
pub struct File(pub Vec<Heading>);

impl View for File {
    type V = Seq<HeadingModel>;

    open spec fn view(&self) -> Seq<HeadingModel> {
        heading_models(self.0@)
    }
}

// ---------------------------------------------------------------------------
// From markup tokens to the tree's markup
// ---------------------------------------------------------------------------

/// The handler of the name `name`: one of the configuration's, or unknown.
pub open spec fn handler_of(config: ConfigModel, name: Seq<char>) -> HandlerModel {
    if config.knows_handler(name) {
        HandlerModel::Custom(name)
    } else {
        HandlerModel::Unknown(name)
    }
}

/// The tree's node for a span: the same node, with the handler of a link
/// looked up in the configuration.
pub open spec fn op_of(config: ConfigModel, span: Span) -> TextOpModel
    decreases span,
{
    match span {
        Span::Verbatim(children) => TextOpModel::Verbatim(
            Seq::new(
                children.len(),
                |i: int|
                    if 0 <= i < children.len() {
                        op_of(config, children[i])
                    } else {
                        TextOpModel::Normal(Seq::empty())
                    },
            ),
        ),
        Span::Underline(children) => TextOpModel::Underline(
            Seq::new(
                children.len(),
                |i: int|
                    if 0 <= i < children.len() {
                        op_of(config, children[i])
                    } else {
                        TextOpModel::Normal(Seq::empty())
                    },
            ),
        ),
        Span::Crossed(children) => TextOpModel::Crossed(
            Seq::new(
                children.len(),
                |i: int|
                    if 0 <= i < children.len() {
                        op_of(config, children[i])
                    } else {
                        TextOpModel::Normal(Seq::empty())
                    },
            ),
        ),
        Span::Bold(children) => TextOpModel::Bold(
            Seq::new(
                children.len(),
                |i: int|
                    if 0 <= i < children.len() {
                        op_of(config, children[i])
                    } else {
                        TextOpModel::Normal(Seq::empty())
                    },
            ),
        ),
        Span::Italic(children) => TextOpModel::Italic(
            Seq::new(
                children.len(),
                |i: int|
                    if 0 <= i < children.len() {
                        op_of(config, children[i])
                    } else {
                        TextOpModel::Normal(Seq::empty())
                    },
            ),
        ),
        Span::Link { name, handler, path } => TextOpModel::Link {
            name,
            handler: handler_of(config, handler),
            path,
        },
        Span::TextExtra(delimiter, children) => TextOpModel::TextExtra(
            delimiter,
            Seq::new(
                children.len(),
                |i: int|
                    if 0 <= i < children.len() {
                        op_of(config, children[i])
                    } else {
                        TextOpModel::Normal(Seq::empty())
                    },
            ),
        ),
        Span::Text(text) => TextOpModel::Normal(text),
    }
}

/// The tree's nodes for a sequence of spans, in order.
pub open spec fn ops_of(config: ConfigModel, spans: Seq<Span>) -> Seq<TextOpModel> {
    Seq::new(spans.len(), |i: int| op_of(config, spans[i]))
}

/// The node of a span with children has the nodes of the children.
pub proof fn lemma_op_of_children(config: ConfigModel, span: Span)
    ensures
        span matches Span::Verbatim(c) ==> op_of(config, span) == TextOpModel::Verbatim(
            ops_of(config, c),
        ),
        span matches Span::Underline(c) ==> op_of(config, span) == TextOpModel::Underline(
            ops_of(config, c),
        ),
        span matches Span::Crossed(c) ==> op_of(config, span) == TextOpModel::Crossed(
            ops_of(config, c),
        ),
        span matches Span::Bold(c) ==> op_of(config, span) == TextOpModel::Bold(ops_of(config, c)),
        span matches Span::Italic(c) ==> op_of(config, span) == TextOpModel::Italic(
            ops_of(config, c),
        ),
        span matches Span::TextExtra(d, c) ==> op_of(config, span) == TextOpModel::TextExtra(
            d,
            ops_of(config, c),
        ),
{
    reveal_with_fuel(op_of, 2);
    match span {
        Span::Verbatim(c) => {
            assert(op_of(config, span)->Verbatim_0 =~= ops_of(config, c));
        },
        Span::Underline(c) => {
            assert(op_of(config, span)->Underline_0 =~= ops_of(config, c));
        },
        Span::Crossed(c) => {
            assert(op_of(config, span)->Crossed_0 =~= ops_of(config, c));
        },
        Span::Bold(c) => {
            assert(op_of(config, span)->Bold_0 =~= ops_of(config, c));
        },
        Span::Italic(c) => {
            assert(op_of(config, span)->Italic_0 =~= ops_of(config, c));
        },
        Span::TextExtra(d, c) => {
            assert(op_of(config, span)->TextExtra_1 =~= ops_of(config, c));
        },
        _ => {},
    }
}

impl Handler {
    /// The handler of the name in `handler`: one of the configuration's, or
    /// unknown.
    pub fn from_token(handler: &crate::file_format::tokenizer::Handler, config: &Config) -> (h:
        Handler)
        ensures
            h@ == handler_of(config@, handler.0@),
    {
        if config.knows_handler(&handler.0) {
            Handler::Custom(handler.0.clone())
        } else {
            Handler::Unknown(handler.0.clone())
        }
    }

    /// The handler's name.
    pub fn to_string(&self) -> (name: &String)
        ensures
            name@ == self@.name(),
    {
        match self {
            Handler::Custom(name) => name,
            Handler::Unknown(name) => name,
        }
    }

    /// Whether the configuration knows this handler, so that a link with it
    /// can be opened.
    pub fn is_known(&self) -> (known: bool)
        ensures
            known == (self@ is Custom),
    {
        match self {
            Handler::Custom(_) => true,
            Handler::Unknown(_) => false,
        }
    }
}

/// The tree's nodes for `tokens`, in order.
fn convert_all(tokens: &Vec<TextToken>, config: &Config) -> (ops: Vec<TextOp>)
    ensures
        op_models(ops@) == ops_of(config@, spans_of(tokens@)),
    decreases tokens,
{
    let mut ops: Vec<TextOp> = Vec::new();
    let mut at: usize = 0;
    while at < tokens.len()
        invariant
            at <= tokens.len(),
            ops.len() == at,
            forall|i: int| 0 <= i < at ==> (#[trigger] ops@[i])@ == op_of(config@, tokens@[i]@),
        decreases tokens.len() - at,
    {
        ops.push(TextOp::from_token(&tokens[at], config));
        at += 1;
    }
    assert(op_models(ops@) =~= ops_of(config@, spans_of(tokens@)));
    ops
}

impl TextOp {
    /// The tree's node for `token`.
    pub fn from_token(token: &TextToken, config: &Config) -> (op: TextOp)
        ensures
            op@ == op_of(config@, token@),
        decreases token,
    {
        proof {
            lemma_view_children(*token);
            lemma_op_of_children(config@, token@);
        }
        let op = match token {
            TextToken::Verbatim(children) => TextOp::Verbatim(convert_all(children, config)),
            TextToken::Underline(children) => TextOp::Underline(convert_all(children, config)),
            TextToken::Crossed(children) => TextOp::Crossed(convert_all(children, config)),
            TextToken::Bold(children) => TextOp::Bold(convert_all(children, config)),
            TextToken::Italic(children) => TextOp::Italic(convert_all(children, config)),
            TextToken::Link { name, handler, path } => TextOp::Link {
                name: name.clone(),
                handler: Handler::from_token(handler, config),
                path: path.clone(),
            },
            TextToken::TextExtra(delimiter, children) => TextOp::TextExtra(
                *delimiter,
                convert_all(children, config),
            ),
            TextToken::Text(text) => TextOp::Normal(text.clone()),
        };
        proof {
            lemma_op_children(op);
        }
        op
    }
}

impl Text {
    /// The tree's markup for the markup of a line.
    pub fn from_tokens(tokens: &TextTokens, config: &Config) -> (text: Text)
        ensures
            text@ == ops_of(config@, tokens@),
    {
        let mut ops: Vec<TextOp> = Vec::new();
        let mut at: usize = 0;
        while at < tokens.0.len()
            invariant
                at <= tokens.0.len(),
                ops.len() == at,
                forall|i: int|
                    0 <= i < at ==> (#[trigger] ops@[i])@ == op_of(config@, tokens.0@[i]@),
            decreases tokens.0.len() - at,
        {
            ops.push(TextOp::from_token(&tokens.0[at], config));
            at += 1;
        }
        assert(op_models(ops@) =~= ops_of(config@, tokens@));
        Text(ops)
    }
}

// ---------------------------------------------------------------------------
// How the tree is written
// ---------------------------------------------------------------------------

/// The text of a node: a styled node between its delimiters, an unclosed
/// delimiter before what follows it, and of a link its name between bars.
pub open spec fn print_op(op: TextOpModel) -> Seq<char>
    decreases op,
{
    match op {
        TextOpModel::Verbatim(children) => seq!['`'] + print_ops(children) + seq!['`'],
        TextOpModel::Underline(children) => seq!['_'] + print_ops(children) + seq!['_'],
        TextOpModel::Crossed(children) => seq!['-'] + print_ops(children) + seq!['-'],
        TextOpModel::Bold(children) => seq!['*'] + print_ops(children) + seq!['*'],
        TextOpModel::Italic(children) => seq!['/'] + print_ops(children) + seq!['/'],
        TextOpModel::Link { name, handler, path } => seq!['|'] + name + seq!['|'],
        TextOpModel::TextExtra(delimiter, children) => seq![delimiter] + print_ops(children),
        TextOpModel::Normal(text) => text,
    }
}

/// The text of a sequence of nodes: one behind the other.
pub open spec fn print_ops(ops: Seq<TextOpModel>) -> Seq<char>
    decreases ops,
{
    if ops.len() == 0 {
        Seq::empty()
    } else {
        print_op(ops[0]) + print_ops(ops.drop_first())
    }
}

/// The text of a state: the state, or the configured default for the
/// empty state, in brackets unless the configuration leaves them out.
pub open spec fn print_state(config: ConfigModel, state: TodoStateModel) -> Seq<char> {
    let shown = if state.text().len() == 0 {
        config.default_state()
    } else {
        state.text()
    };
    if config.brackets() {
        seq!['['] + shown + seq![']']
    } else {
        shown
    }
}

/// The text of a todo: its state, a space, its description.
pub open spec fn print_todo(config: ConfigModel, todo: TodoModel) -> Seq<char> {
    print_state(config, todo.state) + seq![' '] + print_ops(todo.description)
}

/// The text of a bullet: the bullet point, a space, its text.
pub open spec fn print_bullet(config: ConfigModel, bullet: BulletModel) -> Seq<char> {
    config.bullet() + seq![' '] + print_ops(bullet.text)
}

/// The column at which a paragraph is wrapped on a terminal of `width`
/// columns: four less, for the indentation, and 0 where there are not four.
pub open spec fn column_for(width: usize) -> usize {
    if width >= 4 {
        (width - 4) as usize
    } else {
        0
    }
}

/// The text of a paragraph on a terminal of `width` columns: wrapped, then
/// indented by four spaces, then a newline.
pub open spec fn print_paragraph(text: Seq<TextOpModel>, width: usize) -> Seq<char> {
    indented(filled(print_ops(text), column_for(width)), "    "@) + seq!['\n']
}

/// The text of an entry under a heading: a todo or a bullet on a line of
/// its own behind four spaces, a paragraph wrapped and indented.
pub open spec fn print_entry(config: ConfigModel, entry: UnderHeadingModel, width: usize) -> Seq<
    char,
> {
    match entry {
        UnderHeadingModel::Todo(todo) => "    "@ + print_todo(config, todo) + seq!['\n'],
        UnderHeadingModel::Bullet(bullet) => "    "@ + print_bullet(config, bullet) + seq!['\n'],
        UnderHeadingModel::Text(text) => print_paragraph(text, width),
    }
}

/// The text of the entries under a heading: one behind the other.
pub open spec fn print_body(config: ConfigModel, body: Seq<UnderHeadingModel>, width: usize) -> Seq<
    char,
>
    decreases body.len(),
{
    if body.len() == 0 {
        Seq::empty()
    } else {
        print_body(config, body.drop_last(), width) + print_entry(config, body.last(), width)
    }
}

/// The text of a heading: `#`, a space and its name on a line, then its
/// entries.
pub open spec fn print_heading(config: ConfigModel, heading: HeadingModel, width: usize) -> Seq<
    char,
> {
    seq!['#', ' '] + heading.name + seq!['\n'] + print_body(config, heading.body, width)
}

/// The texts of the headings of a document, in order.
pub open spec fn print_headings(config: ConfigModel, file: Seq<HeadingModel>, width: usize) -> Seq<
    Seq<char>,
> {
    Seq::new(file.len(), |i: int| print_heading(config, file[i], width))
}

/// The text of a document: its headings, with a newline between each two.
pub open spec fn print_file(config: ConfigModel, file: Seq<HeadingModel>, width: usize) -> Seq<
    char,
> {
    joined(print_headings(config, file, width), "\n"@)
}

/// The column at which a paragraph is wrapped on a terminal of `width`
/// columns.
pub fn wrap_column(width: usize) -> (column: usize)
    ensures
        column == column_for(width),
{
    if width >= 4 {
        width - 4
    } else {
        0
    }
}

/// Appends the text of `ops`, one behind the other, to `out`.
fn write_ops(ops: &Vec<TextOp>, out: &mut String)
    ensures
        final(out)@ == old(out)@ + print_ops(op_models(ops@)),
    decreases ops,
{
    let ghost all = op_models(ops@);
    let ghost start = out@;
    let mut at: usize = 0;
    assert(all.skip(0) =~= all);
    while at < ops.len()
        invariant
            at <= ops.len(),
            all == op_models(ops@),
            out@ + print_ops(all.skip(at as int)) == start + print_ops(all),
        decreases ops.len() - at,
    {
        let ghost before = out@;
        ops[at].write(out);
        proof {
            let rest = all.skip(at as int);
            assert(rest[0] == ops@[at as int]@);
            assert(rest.drop_first() =~= all.skip(at + 1));
            assert(before + (print_op(rest[0]) + print_ops(rest.drop_first())) =~= out@ + print_ops(
                all.skip(at + 1),
            ));
        }
        at += 1;
    }
    assert(out@ + Seq::<char>::empty() =~= out@);
}

impl TextOp {
    /// Appends the text of this node to `out`.
    pub fn write(&self, out: &mut String)
        ensures
            final(out)@ == old(out)@ + print_op(self@),
        decreases self,
    {
        let ghost start = out@;
        proof {
            lemma_op_children(*self);
        }
        match self {
            TextOp::Verbatim(children) => {
                out.push('`');
                write_ops(children, out);
                out.push('`');
                assert(out@ =~= start + (seq!['`'] + print_ops(op_models(children@)) + seq!['`']));
            },
            TextOp::Underline(children) => {
                out.push('_');
                write_ops(children, out);
                out.push('_');
                assert(out@ =~= start + (seq!['_'] + print_ops(op_models(children@)) + seq!['_']));
            },
            TextOp::Crossed(children) => {
                out.push('-');
                write_ops(children, out);
                out.push('-');
                assert(out@ =~= start + (seq!['-'] + print_ops(op_models(children@)) + seq!['-']));
            },
            TextOp::Bold(children) => {
                out.push('*');
                write_ops(children, out);
                out.push('*');
                assert(out@ =~= start + (seq!['*'] + print_ops(op_models(children@)) + seq!['*']));
            },
            TextOp::Italic(children) => {
                out.push('/');
                write_ops(children, out);
                out.push('/');
                assert(out@ =~= start + (seq!['/'] + print_ops(op_models(children@)) + seq!['/']));
            },
            TextOp::Link { name, handler, path } => {
                out.push('|');
                out.append(name.as_str());
                out.push('|');
                assert(out@ =~= start + (seq!['|'] + name@ + seq!['|']));
            },
            TextOp::TextExtra(delimiter, children) => {
                out.push(*delimiter);
                write_ops(children, out);
                assert(out@ =~= start + (seq![*delimiter] + print_ops(op_models(children@))));
            },
            TextOp::Normal(text) => {
                out.append(text.as_str());
            },
        }
    }

    /// The text of this node.
    pub fn to_string(&self) -> (text: String)
        ensures
            text@ == print_op(self@),
    {
        let mut text = String::new();
        self.write(&mut text);
        assert(Seq::<char>::empty() + print_op(self@) =~= print_op(self@));
        text
    }
}

// ---------------------------------------------------------------------------
// What the parser makes of line tokens
// ---------------------------------------------------------------------------

/// The kinds of line tokens.
#[derive(Clone, Copy, Debug, PartialEq, Eq, Structural)]
pub enum TokenKind {
    BracketOpen,
    Inside,
    BracketClose,
    Heading,
    Bullet,
    Text,
    Newline,
}

/// The kind of a token.
pub open spec fn kind_of(token: LineToken) -> TokenKind {
    match token {
        LineToken::BracketOpen => TokenKind::BracketOpen,
        LineToken::Inside(_) => TokenKind::Inside,
        LineToken::BracketClose => TokenKind::BracketClose,
        LineToken::Heading(_) => TokenKind::Heading,
        LineToken::Bullet(_) => TokenKind::Bullet,
        LineToken::Text(_) => TokenKind::Text,
        LineToken::Newline => TokenKind::Newline,
    }
}

/// How a kind of token is named where it was expected.
pub open spec fn kind_text(kind: TokenKind) -> Seq<char> {
    match kind {
        TokenKind::BracketOpen => "Token::BracketOpen"@,
        TokenKind::Inside => "Token::Inside(_)"@,
        TokenKind::BracketClose => "Token::BracketClose"@,
        TokenKind::Heading => "Token::Heading(_)"@,
        TokenKind::Bullet => "Token::Bullet(_)"@,
        TokenKind::Text => "Token::Text(_)"@,
        TokenKind::Newline => "Token::Newline"@,
    }
}

/// The one frame of a failure that starts in `rule`, which began with
/// `entry` tokens unread.
pub open spec fn frame_of(rule: Seq<char>, entry: nat) -> Seq<Frame> {
    seq![Frame { name: rule, remaining: entry }]
}

/// The failure with one more frame: that of `rule`, which began with `entry`
/// tokens unread. Frames are added as a failure passes from a rule to the
/// rule that called it, so the innermost rule comes first.
pub open spec fn framed(failure: Failure, rule: Seq<char>, entry: nat) -> Failure {
    Failure {
        cause: failure.cause,
        frames: failure.frames.push(Frame { name: rule, remaining: entry }),
    }
}

/// What becomes of `tokens` when `rule` needs a token of kind `kind` next:
/// the token is taken, and it is the result if it is of that kind. With no
/// token left the failure is [`Cause::EndOfInput`], with a token of another
/// kind [`Cause::UnexpectedToken`]; that token is taken too.
pub open spec fn expected(rule: Seq<char>, entry: nat, tokens: Seq<LineToken>, kind: TokenKind) -> (
    Result<LineToken, Failure>,
    Seq<LineToken>,
) {
    if tokens.len() == 0 {
        (Err(Failure { cause: Cause::EndOfInput, frames: frame_of(rule, entry) }), tokens)
    } else if kind_of(tokens[0]) == kind {
        (Ok(tokens[0]), tokens.drop_first())
    } else {
        (
            Err(
                Failure {
                    cause: Cause::UnexpectedToken {
                        expected: seq![kind_text(kind)],
                        got: tokens[0],
                    },
                    frames: frame_of(rule, entry),
                },
            ),
            tokens.drop_first(),
        )
    }
}

/// The state that `raw` stands for: the state that the configuration names
/// by it, or else `raw` itself.
pub open spec fn state_of(config: ConfigModel, raw: Seq<char>) -> TodoStateModel {
    match config.alias(raw) {
        Some(state) => TodoStateModel::Defined(state),
        None => TodoStateModel::Other(raw),
    }
}

/// The rule `TodoState`: what stands inside the brackets, as a state.
pub open spec fn parse_state(config: ConfigModel, tokens: Seq<LineToken>) -> (
    Result<TodoStateModel, Failure>,
    Seq<LineToken>,
) {
    let (token, rest) = expected("TodoState"@, tokens.len(), tokens, TokenKind::Inside);
    match token {
        Ok(token) => (Ok(state_of(config, token->Inside_0)), rest),
        Err(failure) => (Err(failure), rest),
    }
}

/// The rule `Text`: one text token.
pub open spec fn parse_text(config: ConfigModel, tokens: Seq<LineToken>) -> (
    Result<Seq<TextOpModel>, Failure>,
    Seq<LineToken>,
) {
    let (token, rest) = expected("Text"@, tokens.len(), tokens, TokenKind::Text);
    match token {
        Ok(token) => (Ok(ops_of(config, token->Text_0)), rest),
        Err(failure) => (Err(failure), rest),
    }
}

/// The rule `Bullet`: one bullet token.
pub open spec fn parse_bullet(config: ConfigModel, tokens: Seq<LineToken>) -> (
    Result<BulletModel, Failure>,
    Seq<LineToken>,
) {
    let (token, rest) = expected("Bullet"@, tokens.len(), tokens, TokenKind::Bullet);
    match token {
        Ok(token) => (
            Ok(BulletModel { bullet: true, text: ops_of(config, token->Bullet_0) }),
            rest,
        ),
        Err(failure) => (Err(failure), rest),
    }
}

/// The rule `Todo`: an opening bracket, a state, a closing bracket, a text
/// and a newline.
pub open spec fn parse_todo(config: ConfigModel, tokens: Seq<LineToken>) -> (
    Result<TodoModel, Failure>,
    Seq<LineToken>,
) {
    let entry = tokens.len();
    let (open, rest1) = expected("Todo"@, entry, tokens, TokenKind::BracketOpen);
    let (state, rest2) = parse_state(config, rest1);
    let (close, rest3) = expected("Todo"@, entry, rest2, TokenKind::BracketClose);
    let (text, rest4) = parse_text(config, rest3);
    let (newline, rest5) = expected("Todo"@, entry, rest4, TokenKind::Newline);
    if open is Err {
        (Err(open->Err_0), rest1)
    } else if state is Err {
        (Err(framed(state->Err_0, "Todo"@, entry)), rest2)
    } else if close is Err {
        (Err(close->Err_0), rest3)
    } else if text is Err {
        (Err(framed(text->Err_0, "Todo"@, entry)), rest4)
    } else if newline is Err {
        (Err(newline->Err_0), rest5)
    } else {
        (Ok(TodoModel { state: state->Ok_0, description: text->Ok_0 }), rest5)
    }
}

/// The message of the failure for a heading under a heading.
pub open spec fn nested_heading() -> Seq<char> {
    "heading cannot nest"@
}

/// The kinds of token that the body of a heading can go on with.
pub open spec fn body_starts() -> Seq<Seq<char>> {
    seq![
        kind_text(TokenKind::BracketOpen),
        kind_text(TokenKind::Bullet),
        kind_text(TokenKind::Text),
        kind_text(TokenKind::Newline),
    ]
}

/// The entries under a heading, behind the entries `acc` that were parsed
/// already: todos, bullets and paragraphs up to an empty line, which is
/// taken, or up to the end of the tokens. A bullet and a paragraph end with
/// a newline. A heading token here is a [`Cause::StructuralViolation`], and
/// is not taken; any other token is a [`Cause::UnexpectedToken`].
///
/// `entry` is the number of tokens that were unread when the heading began.
pub open spec fn parse_body(
    config: ConfigModel,
    tokens: Seq<LineToken>,
    entry: nat,
    acc: Seq<UnderHeadingModel>,
) -> (Result<Seq<UnderHeadingModel>, Failure>, Seq<LineToken>)
    decreases tokens.len(),
{
    if tokens.len() == 0 {
        (Ok(acc), tokens)
    } else {
        match tokens[0] {
            LineToken::Newline => (Ok(acc), tokens.drop_first()),
            LineToken::BracketOpen => {
                let (todo, rest) = parse_todo(config, tokens);
                match todo {
                    Ok(todo) => parse_body(
                        config,
                        rest,
                        entry,
                        acc.push(UnderHeadingModel::Todo(todo)),
                    ),
                    Err(failure) => (Err(framed(failure, "Heading"@, entry)), rest),
                }
            },
            LineToken::Bullet(spans) => {
                let bullet = BulletModel { bullet: true, text: ops_of(config, spans) };
                let (newline, rest) = expected(
                    "Heading"@,
                    entry,
                    tokens.drop_first(),
                    TokenKind::Newline,
                );
                match newline {
                    Ok(_) => parse_body(
                        config,
                        rest,
                        entry,
                        acc.push(UnderHeadingModel::Bullet(bullet)),
                    ),
                    Err(failure) => (Err(failure), rest),
                }
            },
            LineToken::Text(spans) => {
                let (newline, rest) = expected(
                    "Heading"@,
                    entry,
                    tokens.drop_first(),
                    TokenKind::Newline,
                );
                match newline {
                    Ok(_) => parse_body(
                        config,
                        rest,
                        entry,
                        acc.push(UnderHeadingModel::Text(ops_of(config, spans))),
                    ),
                    Err(failure) => (Err(failure), rest),
                }
            },
            LineToken::Heading(_) => (
                Err(
                    Failure {
                        cause: Cause::StructuralViolation(nested_heading()),
                        frames: frame_of("Heading"@, entry),
                    },
                ),
                tokens,
            ),
            _ => (
                Err(
                    Failure {
                        cause: Cause::UnexpectedToken { expected: body_starts(), got: tokens[0] },
                        frames: frame_of("Heading"@, entry),
                    },
                ),
                tokens.drop_first(),
            ),
        }
    }
}

/// No heading stands under a heading: wherever the entries under a heading
/// go on with a heading token, whatever was parsed before it, the parse
/// fails with [`Cause::StructuralViolation`], and the token is not taken.
pub proof fn lemma_nested_heading_is_refused(
    config: ConfigModel,
    tokens: Seq<LineToken>,
    entry: nat,
    acc: Seq<UnderHeadingModel>,
)
    requires
        tokens.len() > 0,
        tokens[0] is Heading,
    ensures
        parse_body(config, tokens, entry, acc) == (
            Err::<Seq<UnderHeadingModel>, Failure>(
                Failure {
                    cause: Cause::StructuralViolation(nested_heading()),
                    frames: frame_of("Heading"@, entry),
                },
            ),
            tokens,
        ),
{
}

/// The rule `Heading`: a heading token, a newline, and the entries under
/// the heading.
pub open spec fn parse_heading(config: ConfigModel, tokens: Seq<LineToken>) -> (
    Result<HeadingModel, Failure>,
    Seq<LineToken>,
) {
    let entry = tokens.len();
    let (heading, rest1) = expected("Heading"@, entry, tokens, TokenKind::Heading);
    let (newline, rest2) = expected("Heading"@, entry, rest1, TokenKind::Newline);
    let (body, rest3) = parse_body(config, rest2, entry, Seq::empty());
    if heading is Err {
        (Err(heading->Err_0), rest1)
    } else if newline is Err {
        (Err(newline->Err_0), rest2)
    } else if body is Err {
        (Err(body->Err_0), rest3)
    } else {
        (Ok(HeadingModel { name: heading->Ok_0->Heading_0, body: body->Ok_0 }), rest3)
    }
}

/// A heading that is followed by a heading at once, with no empty line
/// between them, is not parsed: the second heading would stand under the
/// first.
pub proof fn lemma_heading_behind_heading_is_refused(config: ConfigModel, tokens: Seq<LineToken>)
    requires
        tokens.len() >= 3,
        tokens[0] is Heading,
        tokens[1] is Newline,
        tokens[2] is Heading,
    ensures
        parse_heading(config, tokens).0 matches Err(failure) && failure.cause
            == Cause::StructuralViolation(nested_heading()),
        parse_file(config, tokens).0 matches Err(failure) && failure.cause
            == Cause::StructuralViolation(nested_heading()),
{
    let rest = tokens.drop_first().drop_first();
    assert(rest[0] == tokens[2]);
    lemma_nested_heading_is_refused(config, rest, tokens.len(), Seq::empty());
}

/// A heading that was parsed has taken at least one token.
pub proof fn lemma_heading_takes_tokens(config: ConfigModel, tokens: Seq<LineToken>)
    requires
        tokens.len() > 0,
    ensures
        parse_heading(config, tokens).1.len() < tokens.len() || parse_heading(
            config,
            tokens,
        ).0 is Err,
{
    lemma_body_takes_no_more(config, tokens.drop_first().drop_first(), tokens.len(), Seq::empty());
}

/// The entries under a heading leave no more tokens than there were.
pub proof fn lemma_body_takes_no_more(
    config: ConfigModel,
    tokens: Seq<LineToken>,
    entry: nat,
    acc: Seq<UnderHeadingModel>,
)
    ensures
        parse_body(config, tokens, entry, acc).1.len() <= tokens.len(),
    decreases tokens.len(),
{
    if tokens.len() > 0 {
        match tokens[0] {
            LineToken::BracketOpen => {
                let (todo, rest) = parse_todo(config, tokens);
                if let Ok(todo) = todo {
                    lemma_body_takes_no_more(
                        config,
                        rest,
                        entry,
                        acc.push(UnderHeadingModel::Todo(todo)),
                    );
                }
            },
            LineToken::Bullet(spans) => {
                let bullet = BulletModel { bullet: true, text: ops_of(config, spans) };
                let (newline, rest) = expected(
                    "Heading"@,
                    entry,
                    tokens.drop_first(),
                    TokenKind::Newline,
                );
                if newline is Ok {
                    lemma_body_takes_no_more(
                        config,
                        rest,
                        entry,
                        acc.push(UnderHeadingModel::Bullet(bullet)),
                    );
                }
            },
            LineToken::Text(spans) => {
                let (newline, rest) = expected(
                    "Heading"@,
                    entry,
                    tokens.drop_first(),
                    TokenKind::Newline,
                );
                if newline is Ok {
                    lemma_body_takes_no_more(
                        config,
                        rest,
                        entry,
                        acc.push(UnderHeadingModel::Text(ops_of(config, spans))),
                    );
                }
            },
            _ => {},
        }
    }
}

/// The headings of a document, behind the headings `acc` that were parsed
/// already: headings up to the end of the tokens. `entry` is the number of
/// tokens that the document has.
pub open spec fn parse_headings(
    config: ConfigModel,
    tokens: Seq<LineToken>,
    entry: nat,
    acc: Seq<HeadingModel>,
) -> (Result<Seq<HeadingModel>, Failure>, Seq<LineToken>)
    decreases tokens.len(),
{
    if tokens.len() == 0 {
        (Ok(acc), tokens)
    } else {
        let (heading, rest) = parse_heading(config, tokens);
        match heading {
            Ok(heading) => {
                proof {
                    lemma_heading_takes_tokens(config, tokens);
                }
                parse_headings(config, rest, entry, acc.push(heading))
            },
            Err(failure) => (Err(framed(failure, "File"@, entry)), rest),
        }
    }
}

/// The rule `File`: headings up to the end of the tokens.
pub open spec fn parse_file(config: ConfigModel, tokens: Seq<LineToken>) -> (
    Result<Seq<HeadingModel>, Failure>,
    Seq<LineToken>,
) {
    parse_headings(config, tokens, tokens.len(), Seq::empty())
}

// ---------------------------------------------------------------------------
// The parser and the printer
// ---------------------------------------------------------------------------

/// What a call of `parse` has made of the tokens: the model of what it
/// returned, and the models of the tokens that it left.
pub open spec fn outcome<T: View>(result: Result<T, ParserError>, rest: Seq<Token>) -> (
    Result<T::V, Failure>,
    Seq<LineToken>,
) {
    (
        match result {
            Ok(value) => Ok(value@),
            Err(error) => Err(error@),
        },
        line_tokens_of(rest),
    )
}

/// A rule of the grammar: how a part of the tree is parsed from the front
/// of the tokens, how one sees that the tokens go on with it, and how it is
/// written. Each rule says in its three specification functions what its
/// three methods compute.
pub trait Parse: Sized + View {
    /// What `parse` makes of `tokens`: what it returns, and the tokens that
    /// it leaves.
    spec fn parsed(config: ConfigModel, tokens: Seq<LineToken>) -> (
        Result<Self::V, Failure>,
        Seq<LineToken>,
    );

    /// Whether `tokens` go on with this rule.
    spec fn checked(tokens: Seq<LineToken>) -> bool;

    /// The text of `value` on a terminal of `width` columns.
    spec fn printed(value: Self::V, config: ConfigModel, width: usize) -> Seq<char>;

    /// Parses one `Self` from the front of `tokens`, and takes the tokens
    /// that it has read off `tokens`.
    fn parse(config: &Config, tokens: &mut VecDeque<Token>) -> (r: Result<Self, ParserError>)
        ensures
            outcome(r, final(tokens)@) == Self::parsed(config@, line_tokens_of(old(tokens)@)),
    ;

    /// Whether the next tokens are those that a `Self` starts with.
    fn check(tokens: &VecDeque<Token>) -> (b: bool)
        ensures
            b == Self::checked(line_tokens_of(tokens@)),
    ;

    /// The text that `self` is written as, on the terminal where the text
    /// depends on its width.
    fn print(&self, config: &Config) -> (text: String)
        ensures
            exists|width: usize| text@ == Self::printed(self@, config@, width),
    ;
}

fn kind_name(kind: TokenKind) -> (name: &'static str)
    ensures
        name@ == kind_text(kind),
{
    match kind {
        TokenKind::BracketOpen => "Token::BracketOpen",
        TokenKind::Inside => "Token::Inside(_)",
        TokenKind::BracketClose => "Token::BracketClose",
        TokenKind::Heading => "Token::Heading(_)",
        TokenKind::Bullet => "Token::Bullet(_)",
        TokenKind::Text => "Token::Text(_)",
        TokenKind::Newline => "Token::Newline",
    }
}

impl Token {
    /// The kind of this token.
    pub fn kind(&self) -> (kind: TokenKind)
        ensures
            kind == kind_of(self@),
    {
        match self {
            Token::BracketOpen => TokenKind::BracketOpen,
            Token::Inside(_) => TokenKind::Inside,
            Token::BracketClose => TokenKind::BracketClose,
            Token::Heading(_) => TokenKind::Heading,
            Token::Bullet(_) => TokenKind::Bullet,
            Token::Text(_) => TokenKind::Text,
            Token::Newline => TokenKind::Newline,
        }
    }
}

/// Whether the token at place `at` of `tokens` is there and of kind `kind`.
pub open spec fn is_kind_at(tokens: Seq<LineToken>, at: int, kind: TokenKind) -> bool {
    0 <= at < tokens.len() && kind_of(tokens[at]) == kind
}

fn kind_at(tokens: &VecDeque<Token>, at: usize, kind: TokenKind) -> (b: bool)
    ensures
        b == is_kind_at(line_tokens_of(tokens@), at as int, kind),
{
    at < tokens.len() && tokens[at].kind() == kind
}

/// One frame, as the stack of a new failure.
fn first_frame(rule: &'static str, entry: usize) -> (stack: Vec<ParserErrorStack>)
    ensures
        error::frames_of(stack@) == frame_of(rule@, entry as nat),
{
    let mut stack: Vec<ParserErrorStack> = Vec::new();
    stack.push(ParserErrorStack::new(rule, entry));
    assert(error::frames_of(stack@) =~= frame_of(rule@, entry as nat));
    stack
}

/// Takes the next token for `rule`, which needs one of kind `kind`.
fn expect(rule: &'static str, entry: usize, tokens: &mut VecDeque<Token>, kind: TokenKind) -> (r:
    Result<Token, ParserError>)
    ensures
        outcome(r, final(tokens)@) == expected(
            rule@,
            entry as nat,
            line_tokens_of(old(tokens)@),
            kind,
        ),
{
    let ghost before = line_tokens_of(tokens@);
    match tokens.pop_front() {
        None => Err(ParserError::new(first_frame(rule, entry), Error::EndOfInput)),
        Some(token) => {
            assert(line_tokens_of(tokens@) =~= before.drop_first());
            assert(token@ == before[0]);
            if token.kind() == kind {
                Ok(token)
            } else {
                let mut names: Vec<&'static str> = Vec::new();
                names.push(kind_name(kind));
                assert(error::names_of(names@) =~= seq![kind_text(kind)]);
                Err(
                    ParserError::new(
                        first_frame(rule, entry),
                        Error::UnexpectedToken { expected: names, got: token },
                    ),
                )
            }
        },
    }
}

/// The failure `error` with the frame of `rule` added.
fn with_frame(error: ParserError, rule: &'static str, entry: usize) -> (framed_error: ParserError)
    ensures
        framed_error@ == framed(error@, rule@, entry as nat),
{
    let mut error = error;
    error.push(ParserErrorStack::new(rule, entry));
    error
}

impl TodoState {
    /// Whether this is the empty state: that of a todo without a state.
    pub fn empty(&self) -> (b: bool)
        ensures
            b == (self@.text().len() == 0),
    {
        match self {
            TodoState::Defined(text) => text.as_str().is_empty(),
            TodoState::Other(text) => text.as_str().is_empty(),
        }
    }
}

impl Parse for TodoState {
    open spec fn parsed(config: ConfigModel, tokens: Seq<LineToken>) -> (
        Result<Self::V, Failure>,
        Seq<LineToken>,
    ) {
        parse_state(config, tokens)
    }

    open spec fn checked(tokens: Seq<LineToken>) -> bool {
        is_kind_at(tokens, 0, TokenKind::Inside) && is_kind_at(tokens, 1, TokenKind::BracketClose)
    }

    open spec fn printed(value: Self::V, config: ConfigModel, width: usize) -> Seq<char> {
        print_state(config, value)
    }

    fn parse(config: &Config, tokens: &mut VecDeque<Token>) -> (r: Result<TodoState, ParserError>)
        ensures
            outcome(r, final(tokens)@) == parse_state(config@, line_tokens_of(old(tokens)@)),
    {
        let entry = tokens.len();
        match expect("TodoState", entry, tokens, TokenKind::Inside) {
            Ok(Token::Inside(raw)) => {
                match config.todo_state.get(&raw) {
                    Some(state) => Ok(TodoState::Defined(state.clone())),
                    None => Ok(TodoState::Other(raw)),
                }
            },
            Ok(_) => unreached(),
            Err(error) => Err(error),
        }
    }

    fn check(tokens: &VecDeque<Token>) -> (b: bool)
        ensures
            b == (is_kind_at(line_tokens_of(tokens@), 0, TokenKind::Inside) && is_kind_at(
                line_tokens_of(tokens@),
                1,
                TokenKind::BracketClose,
            )),
    {
        kind_at(tokens, 0, TokenKind::Inside) && kind_at(tokens, 1, TokenKind::BracketClose)
    }

    fn print(&self, config: &Config) -> (text: String)
        ensures
            text@ == print_state(config@, self@),
    {
        let raw: &String = match self {
            TodoState::Defined(raw) => raw,
            TodoState::Other(raw) => raw,
        };
        let brackets = config.brackets();
        let mut text = String::new();
        if brackets {
            text.push('[');
        }
        if raw.as_str().is_empty() {
            match &config.todo_state_ops {
                Some(ops) => text.append(ops.default.as_str()),
                None => text.push(' '),
            }
        } else {
            text.append(raw.as_str());
        }
        if brackets {
            text.push(']');
        }
        assert(text@ =~= print_state(config@, self@));
        assert(text@ == Self::printed(self@, config@, 0));
        text
    }
}

impl Parse for Text {
    open spec fn parsed(config: ConfigModel, tokens: Seq<LineToken>) -> (
        Result<Self::V, Failure>,
        Seq<LineToken>,
    ) {
        parse_text(config, tokens)
    }

    open spec fn checked(tokens: Seq<LineToken>) -> bool {
        is_kind_at(tokens, 0, TokenKind::Text)
    }

    open spec fn printed(value: Self::V, config: ConfigModel, width: usize) -> Seq<char> {
        print_ops(value)
    }

    fn parse(config: &Config, tokens: &mut VecDeque<Token>) -> (r: Result<Text, ParserError>)
        ensures
            outcome(r, final(tokens)@) == parse_text(config@, line_tokens_of(old(tokens)@)),
    {
        let entry = tokens.len();
        match expect("Text", entry, tokens, TokenKind::Text) {
            Ok(Token::Text(spans)) => Ok(Text::from_tokens(&spans, config)),
            Ok(_) => unreached(),
            Err(error) => Err(error),
        }
    }

    fn check(tokens: &VecDeque<Token>) -> (b: bool)
        ensures
            b == is_kind_at(line_tokens_of(tokens@), 0, TokenKind::Text),
    {
        kind_at(tokens, 0, TokenKind::Text)
    }

    fn print(&self, config: &Config) -> (text: String)
        ensures
            text@ == print_ops(self@),
    {
        let mut text = String::new();
        write_ops(&self.0, &mut text);
        assert(Seq::<char>::empty() + print_ops(self@) =~= print_ops(self@));
        assert(text@ == Self::printed(self@, config@, 0));
        text
    }
}

impl Parse for Todo {
    open spec fn parsed(config: ConfigModel, tokens: Seq<LineToken>) -> (
        Result<Self::V, Failure>,
        Seq<LineToken>,
    ) {
        parse_todo(config, tokens)
    }

    open spec fn checked(tokens: Seq<LineToken>) -> bool {
        is_kind_at(tokens, 0, TokenKind::BracketOpen)
    }

    open spec fn printed(value: Self::V, config: ConfigModel, width: usize) -> Seq<char> {
        print_todo(config, value)
    }

    fn parse(config: &Config, tokens: &mut VecDeque<Token>) -> (r: Result<Todo, ParserError>)
        ensures
            outcome(r, final(tokens)@) == parse_todo(config@, line_tokens_of(old(tokens)@)),
    {
        let entry = tokens.len();
        match expect("Todo", entry, tokens, TokenKind::BracketOpen) {
            Ok(_) => {},
            Err(error) => {
                return Err(error);
            },
        }
        let state = match TodoState::parse(config, tokens) {
            Ok(state) => state,
            Err(error) => {
                return Err(with_frame(error, "Todo", entry));
            },
        };
        match expect("Todo", entry, tokens, TokenKind::BracketClose) {
            Ok(_) => {},
            Err(error) => {
                return Err(error);
            },
        }
        let description = match Text::parse(config, tokens) {
            Ok(description) => description,
            Err(error) => {
                return Err(with_frame(error, "Todo", entry));
            },
        };
        match expect("Todo", entry, tokens, TokenKind::Newline) {
            Ok(_) => {},
            Err(error) => {
                return Err(error);
            },
        }
        Ok(Todo { state, description })
    }

    fn check(tokens: &VecDeque<Token>) -> (b: bool)
        ensures
            b == is_kind_at(line_tokens_of(tokens@), 0, TokenKind::BracketOpen),
    {
        kind_at(tokens, 0, TokenKind::BracketOpen)
    }

    fn print(&self, config: &Config) -> (text: String)
        ensures
            text@ == print_todo(config@, self@),
    {
        let mut text = self.state.print(config);
        text.push(' ');
        write_ops(&self.description.0, &mut text);
        assert(text@ =~= print_todo(config@, self@));
        assert(text@ == Self::printed(self@, config@, 0));
        text
    }
}

impl Parse for Bullet {
    open spec fn parsed(config: ConfigModel, tokens: Seq<LineToken>) -> (
        Result<Self::V, Failure>,
        Seq<LineToken>,
    ) {
        parse_bullet(config, tokens)
    }

    open spec fn checked(tokens: Seq<LineToken>) -> bool {
        is_kind_at(tokens, 0, TokenKind::Bullet)
    }

    open spec fn printed(value: Self::V, config: ConfigModel, width: usize) -> Seq<char> {
        print_bullet(config, value)
    }

    fn parse(config: &Config, tokens: &mut VecDeque<Token>) -> (r: Result<Bullet, ParserError>)
        ensures
            outcome(r, final(tokens)@) == parse_bullet(config@, line_tokens_of(old(tokens)@)),
    {
        let entry = tokens.len();
        match expect("Bullet", entry, tokens, TokenKind::Bullet) {
            Ok(Token::Bullet(spans)) => Ok(
                Bullet { bullet: true, text: Text::from_tokens(&spans, config) },
            ),
            Ok(_) => unreached(),
            Err(error) => Err(error),
        }
    }

    fn check(tokens: &VecDeque<Token>) -> (b: bool)
        ensures
            b == is_kind_at(line_tokens_of(tokens@), 0, TokenKind::Bullet),
    {
        kind_at(tokens, 0, TokenKind::Bullet)
    }

    fn print(&self, config: &Config) -> (text: String)
        ensures
            text@ == print_bullet(config@, self@),
    {
        let mut text = String::new();
        match &config.bullet_point {
            Some(point) => text.append(point.as_str()),
            None => text.push('-'),
        }
        text.push(' ');
        write_ops(&self.text.0, &mut text);
        assert(text@ =~= print_bullet(config@, self@));
        assert(text@ == Self::printed(self@, config@, 0));
        text
    }
}

impl PrintText {
    pub fn text(&self) -> (text: &Text)
        ensures
            text == self.0,
    {
        &self.0
    }

    /// The text of this paragraph on a terminal of `width` columns.
    pub fn print_at_width(&self, config: &Config, width: usize) -> (text: String)
        ensures
            text@ == print_paragraph(self@, width),
    {
        let plain = self.0.print(config);
        let wrapped = fill(plain.as_str(), wrap_column(width));
        let mut text = indent(wrapped.as_str(), "    ");
        text.push('\n');
        text
    }
}

impl Parse for PrintText {
    open spec fn parsed(config: ConfigModel, tokens: Seq<LineToken>) -> (
        Result<Self::V, Failure>,
        Seq<LineToken>,
    ) {
        parse_text(config, tokens)
    }

    open spec fn checked(tokens: Seq<LineToken>) -> bool {
        is_kind_at(tokens, 0, TokenKind::Text)
    }

    open spec fn printed(value: Self::V, config: ConfigModel, width: usize) -> Seq<char> {
        print_paragraph(value, width)
    }

    fn parse(config: &Config, tokens: &mut VecDeque<Token>) -> (r: Result<PrintText, ParserError>)
        ensures
            outcome(r, final(tokens)@) == parse_text(config@, line_tokens_of(old(tokens)@)),
    {
        match Text::parse(config, tokens) {
            Ok(text) => Ok(PrintText(text)),
            Err(error) => Err(error),
        }
    }

    fn check(tokens: &VecDeque<Token>) -> (b: bool)
        ensures
            b == is_kind_at(line_tokens_of(tokens@), 0, TokenKind::Text),
    {
        Text::check(tokens)
    }

    /// The text of this paragraph on the terminal, whatever its width.
    fn print(&self, config: &Config) -> (text: String)
        ensures
            exists|width: usize| text@ == print_paragraph(self@, width),
    {
        let width = terminal_width();
        let text = self.print_at_width(config, width);
        assert(text@ == Self::printed(self@, config@, width));
        text
    }
}

impl UnderHeading {
    /// The text of this entry on a terminal of `width` columns.
    pub fn print_at_width(&self, config: &Config, width: usize) -> (text: String)
        ensures
            text@ == print_entry(config@, self@, width),
    {
        match self {
            UnderHeading::Todo(todo) => {
                let mut text = "    ".to_owned();
                text.append(todo.print(config).as_str());
                text.push('\n');
                text
            },
            UnderHeading::Bullet(bullet) => {
                let mut text = "    ".to_owned();
                text.append(bullet.print(config).as_str());
                text.push('\n');
                text
            },
            UnderHeading::Text(text) => text.print_at_width(config, width),
        }
    }
}

impl Heading {
    /// The text of this heading and its entries on a terminal of `width`
    /// columns.
    pub fn print_at_width(&self, config: &Config, width: usize) -> (text: String)
        ensures
            text@ == print_heading(config@, self@, width),
    {
        let ghost body = entry_models(self.body@);
        let mut text = String::new();
        text.push('#');
        text.push(' ');
        text.append(self.name.as_str());
        text.push('\n');
        let ghost start = text@;
        assert(start =~= seq!['#', ' '] + self.name@ + seq!['\n']);
        let mut at: usize = 0;
        assert(body.take(0) =~= Seq::<UnderHeadingModel>::empty());
        assert(start + Seq::<char>::empty() =~= start);
        while at < self.body.len()
            invariant
                at <= self.body.len(),
                body == entry_models(self.body@),
                text@ == start + print_body(config@, body.take(at as int), width),
            decreases self.body.len() - at,
        {
            let ghost before = text@;
            let entry = self.body[at].print_at_width(config, width);
            text.append(entry.as_str());
            proof {
                let next = body.take(at + 1);
                assert(next.drop_last() =~= body.take(at as int));
                assert(next.last() == self.body@[at as int]@);
                assert(text@ =~= start + (print_body(config@, body.take(at as int), width)
                    + print_entry(config@, next.last(), width)));
            }
            at += 1;
        }
        assert(body.take(at as int) =~= body);
        text
    }
}

impl Parse for Heading {
    open spec fn parsed(config: ConfigModel, tokens: Seq<LineToken>) -> (
        Result<Self::V, Failure>,
        Seq<LineToken>,
    ) {
        parse_heading(config, tokens)
    }

    open spec fn checked(tokens: Seq<LineToken>) -> bool {
        is_kind_at(tokens, 0, TokenKind::Heading)
    }

    open spec fn printed(value: Self::V, config: ConfigModel, width: usize) -> Seq<char> {
        print_heading(config, value, width)
    }

    #[verifier::loop_isolation(false)]
    fn parse(config: &Config, tokens: &mut VecDeque<Token>) -> (r: Result<Heading, ParserError>)
        ensures
            outcome(r, final(tokens)@) == parse_heading(config@, line_tokens_of(old(tokens)@)),
    {
        let entry = tokens.len();
        let name = match expect("Heading", entry, tokens, TokenKind::Heading) {
            Ok(Token::Heading(name)) => name,
            Ok(_) => unreached(),
            Err(error) => {
                return Err(error);
            },
        };
        match expect("Heading", entry, tokens, TokenKind::Newline) {
            Ok(_) => {},
            Err(error) => {
                return Err(error);
            },
        }
        let ghost body_start = line_tokens_of(tokens@);
        let mut body: Vec<UnderHeading> = Vec::new();
        assert(entry_models(body@) =~= Seq::<UnderHeadingModel>::empty());
        loop
            invariant
                parse_body(config@, line_tokens_of(tokens@), entry as nat, entry_models(body@))
                    == parse_body(config@, body_start, entry as nat, Seq::empty()),
            decreases tokens.len(),
        {
            let ghost here = line_tokens_of(tokens@);
            let ghost acc = entry_models(body@);
            if tokens.len() == 0 {
                return Ok(Heading { name, body });
            }
            assert(here[0] == tokens@[0]@);
            if kind_at(tokens, 0, TokenKind::Newline) {
                tokens.pop_front();
                assert(line_tokens_of(tokens@) =~= here.drop_first());
                return Ok(Heading { name, body });
            }
            if Todo::check(tokens) {
                match Todo::parse(config, tokens) {
                    Ok(todo) => {
                        let ghost model = UnderHeadingModel::Todo(todo@);
                        body.push(UnderHeading::Todo(todo));
                        assert(entry_models(body@) =~= acc.push(model));
                    },
                    Err(error) => {
                        return Err(with_frame(error, "Heading", entry));
                    },
                }
            } else if Bullet::check(tokens) {
                let bullet = match Bullet::parse(config, tokens) {
                    Ok(bullet) => bullet,
                    Err(error) => {
                        return Err(with_frame(error, "Heading", entry));
                    },
                };
                assert(line_tokens_of(tokens@) =~= here.drop_first());
                match expect("Heading", entry, tokens, TokenKind::Newline) {
                    Ok(_) => {},
                    Err(error) => {
                        return Err(error);
                    },
                }
                let ghost model = UnderHeadingModel::Bullet(bullet@);
                body.push(UnderHeading::Bullet(bullet));
                assert(entry_models(body@) =~= acc.push(model));
            } else if PrintText::check(tokens) {
                let text = match PrintText::parse(config, tokens) {
                    Ok(text) => text,
                    Err(error) => {
                        return Err(with_frame(error, "Heading", entry));
                    },
                };
                assert(line_tokens_of(tokens@) =~= here.drop_first());
                match expect("Heading", entry, tokens, TokenKind::Newline) {
                    Ok(_) => {},
                    Err(error) => {
                        return Err(error);
                    },
                }
                let ghost model = UnderHeadingModel::Text(text@);
                body.push(UnderHeading::Text(text));
                assert(entry_models(body@) =~= acc.push(model));
            } else if Heading::check(tokens) {
                return Err(
                    ParserError::new(
                        first_frame("Heading", entry),
                        Error::StructuralViolation("heading cannot nest".to_owned()),
                    ),
                );
            } else {
                let mut names: Vec<&'static str> = Vec::new();
                names.push(kind_name(TokenKind::BracketOpen));
                names.push(kind_name(TokenKind::Bullet));
                names.push(kind_name(TokenKind::Text));
                names.push(kind_name(TokenKind::Newline));
                assert(error::names_of(names@) =~= body_starts());
                match tokens.pop_front() {
                    Some(token) => {
                        assert(line_tokens_of(tokens@) =~= here.drop_first());
                        return Err(
                            ParserError::new(
                                first_frame("Heading", entry),
                                Error::UnexpectedToken { expected: names, got: token },
                            ),
                        );
                    },
                    None => unreached(),
                }
            }
        }
    }

    fn check(tokens: &VecDeque<Token>) -> (b: bool)
        ensures
            b == is_kind_at(line_tokens_of(tokens@), 0, TokenKind::Heading),
    {
        kind_at(tokens, 0, TokenKind::Heading)
    }

    /// The text of this heading and its entries on the terminal, whatever
    /// its width.
    fn print(&self, config: &Config) -> (text: String)
        ensures
            exists|width: usize| text@ == print_heading(config@, self@, width),
    {
        let width = terminal_width();
        let text = self.print_at_width(config, width);
        assert(text@ == Self::printed(self@, config@, width));
        text
    }
}

impl File {
    pub fn headings(&self) -> (headings: &Vec<Heading>)
        ensures
            headings == self.0,
    {
        &self.0
    }

    /// The text of this document on a terminal of `width` columns.
    pub fn print_at_width(&self, config: &Config, width: usize) -> (text: String)
        ensures
            text@ == print_file(config@, self@, width),
    {
        let ghost all = print_headings(config@, self@, width);
        let mut parts: Vec<String> = Vec::new();
        let mut at: usize = 0;
        while at < self.0.len()
            invariant
                at <= self.0.len(),
                parts.len() == at,
                all == print_headings(config@, self@, width),
                forall|i: int| 0 <= i < at ==> (#[trigger] parts@[i])@ == all[i],
            decreases self.0.len() - at,
        {
            parts.push(self.0[at].print_at_width(config, width));
            at += 1;
        }
        assert(texts_of(parts@) =~= all);
        join(&parts, "\n")
    }
}

impl Parse for File {
    open spec fn parsed(config: ConfigModel, tokens: Seq<LineToken>) -> (
        Result<Self::V, Failure>,
        Seq<LineToken>,
    ) {
        parse_file(config, tokens)
    }

    open spec fn checked(tokens: Seq<LineToken>) -> bool {
        is_kind_at(tokens, 0, TokenKind::Heading)
    }

    open spec fn printed(value: Self::V, config: ConfigModel, width: usize) -> Seq<char> {
        print_file(config, value, width)
    }

    #[verifier::loop_isolation(false)]
    fn parse(config: &Config, tokens: &mut VecDeque<Token>) -> (r: Result<File, ParserError>)
        ensures
            outcome(r, final(tokens)@) == parse_file(config@, line_tokens_of(old(tokens)@)),
    {
        let entry = tokens.len();
        let ghost start = line_tokens_of(tokens@);
        let mut headings: Vec<Heading> = Vec::new();
        assert(heading_models(headings@) =~= Seq::<HeadingModel>::empty());
        while tokens.len() > 0
            invariant
                parse_headings(
                    config@,
                    line_tokens_of(tokens@),
                    entry as nat,
                    heading_models(headings@),
                ) == parse_headings(config@, start, entry as nat, Seq::empty()),
            decreases tokens.len(),
        {
            let ghost here = line_tokens_of(tokens@);
            let ghost acc = heading_models(headings@);
            match Heading::parse(config, tokens) {
                Ok(heading) => {
                    proof {
                        lemma_heading_takes_tokens(config@, here);
                    }
                    let ghost model = heading@;
                    headings.push(heading);
                    assert(heading_models(headings@) =~= acc.push(model));
                },
                Err(error) => {
                    return Err(with_frame(error, "File", entry));
                },
            }
        }
        Ok(File(headings))
    }

    fn check(tokens: &VecDeque<Token>) -> (b: bool)
        ensures
            b == is_kind_at(line_tokens_of(tokens@), 0, TokenKind::Heading),
    {
        kind_at(tokens, 0, TokenKind::Heading)
    }

    /// The text of this document on the terminal, whatever its width.
    fn print(&self, config: &Config) -> (text: String)
        ensures
            exists|width: usize| text@ == print_file(config@, self@, width),
    {
        let width = terminal_width();
        let text = self.print_at_width(config, width);
        assert(text@ == Self::printed(self@, config@, width));
        text
    }
}

// ---------------------------------------------------------------------------
// What a heading holds
// ---------------------------------------------------------------------------

/// The todos among the entries, in order.
pub open spec fn todos_of(body: Seq<UnderHeadingModel>) -> Seq<TodoModel>
    decreases body.len(),
{
    if body.len() == 0 {
        Seq::empty()
    } else {
        match body.last() {
            UnderHeadingModel::Todo(todo) => todos_of(body.drop_last()).push(todo),
            _ => todos_of(body.drop_last()),
        }
    }
}

/// A link: its name, its handler and its path.
pub type LinkModel = (Seq<char>, HandlerModel, Seq<char>);

/// The links among the nodes, in order. Links inside other nodes are not
/// among them.
pub open spec fn top_links(ops: Seq<TextOpModel>) -> Seq<LinkModel>
    decreases ops.len(),
{
    if ops.len() == 0 {
        Seq::empty()
    } else {
        match ops.last() {
            TextOpModel::Link { name, handler, path } => top_links(ops.drop_last()).push(
                (name, handler, path),
            ),
            _ => top_links(ops.drop_last()),
        }
    }
}

/// The markup of an entry: the description of a todo, the text of a bullet
/// or of a paragraph.
pub open spec fn entry_text(entry: UnderHeadingModel) -> Seq<TextOpModel> {
    match entry {
        UnderHeadingModel::Todo(todo) => todo.description,
        UnderHeadingModel::Bullet(bullet) => bullet.text,
        UnderHeadingModel::Text(text) => text,
    }
}

/// The links of the entries, in order.
pub open spec fn links_of(body: Seq<UnderHeadingModel>) -> Seq<LinkModel>
    decreases body.len(),
{
    if body.len() == 0 {
        Seq::empty()
    } else {
        links_of(body.drop_last()) + top_links(entry_text(body.last()))
    }
}

/// The models of todos that are held by reference.
pub open spec fn todo_models(todos: Seq<&Todo>) -> Seq<TodoModel> {
    Seq::new(todos.len(), |i: int| todos[i]@)
}

/// The models of links that are held by reference.
pub open spec fn link_models(links: Seq<(&String, &Handler, &String)>) -> Seq<LinkModel> {
    Seq::new(links.len(), |i: int| (links[i].0@, links[i].1@, links[i].2@))
}

impl UnderHeading {
    /// The markup of this entry.
    pub fn text(&self) -> (text: &Text)
        ensures
            text@ == entry_text(self@),
    {
        match self {
            UnderHeading::Todo(todo) => &todo.description,
            UnderHeading::Bullet(bullet) => &bullet.text,
            UnderHeading::Text(text) => &text.0,
        }
    }
}

impl Heading {
    /// The todos under this heading, in order.
    pub fn todos(&self) -> (todos: Vec<&Todo>)
        ensures
            todo_models(todos@) == todos_of(self@.body),
    {
        let ghost body = self@.body;
        let mut todos: Vec<&Todo> = Vec::new();
        let mut at: usize = 0;
        assert(body.take(0) =~= Seq::<UnderHeadingModel>::empty());
        assert(todo_models(todos@) =~= Seq::<TodoModel>::empty());
        while at < self.body.len()
            invariant
                at <= self.body.len(),
                body == self@.body,
                todo_models(todos@) == todos_of(body.take(at as int)),
            decreases self.body.len() - at,
        {
            let ghost before = todo_models(todos@);
            proof {
                let next = body.take(at + 1);
                assert(next.drop_last() =~= body.take(at as int));
                assert(next.last() == self.body@[at as int]@);
            }
            match &self.body[at] {
                UnderHeading::Todo(todo) => {
                    todos.push(todo);
                    assert(todo_models(todos@) =~= before.push(todo@));
                },
                _ => {},
            }
            at += 1;
        }
        assert(body.take(at as int) =~= body);
        todos
    }

    /// The links under this heading, in order: those that stand in the
    /// markup of an entry, not inside another node.
    pub fn links(&self) -> (links: Vec<(&String, &Handler, &String)>)
        ensures
            link_models(links@) == links_of(self@.body),
    {
        let ghost body = self@.body;
        let mut links: Vec<(&String, &Handler, &String)> = Vec::new();
        let mut at: usize = 0;
        assert(body.take(0) =~= Seq::<UnderHeadingModel>::empty());
        assert(link_models(links@) =~= Seq::<LinkModel>::empty());
        while at < self.body.len()
            invariant
                at <= self.body.len(),
                body == self@.body,
                link_models(links@) == links_of(body.take(at as int)),
            decreases self.body.len() - at,
        {
            let ops = &self.body[at].text().0;
            let ghost models = op_models(ops@);
            let ghost done = links_of(body.take(at as int));
            let mut inner: usize = 0;
            assert(models.take(0) =~= Seq::<TextOpModel>::empty());
            assert(done + Seq::<LinkModel>::empty() =~= done);
            while inner < ops.len()
                invariant
                    inner <= ops.len(),
                    models == op_models(ops@),
                    link_models(links@) == done + top_links(models.take(inner as int)),
                decreases ops.len() - inner,
            {
                let ghost before = link_models(links@);
                proof {
                    let next = models.take(inner + 1);
                    assert(next.drop_last() =~= models.take(inner as int));
                    assert(next.last() == ops@[inner as int]@);
                }
                match &ops[inner] {
                    TextOp::Link { name, handler, path } => {
                        links.push((name, handler, path));
                        assert(link_models(links@) =~= before.push((name@, handler@, path@)));
                        assert(before.push((name@, handler@, path@)) =~= done + top_links(
                            models.take(inner as int),
                        ).push((name@, handler@, path@)));
                    },
                    _ => {},
                }
                inner += 1;
            }
            proof {
                assert(models.take(inner as int) =~= models);
                let next = body.take(at + 1);
                assert(next.drop_last() =~= body.take(at as int));
                assert(next.last() == self.body@[at as int]@);
            }
            at += 1;
        }
        assert(body.take(at as int) =~= body);
        links
    }
}

} // verus!
