//! What a failed parse reports: the cause, and the rules that were being
//! parsed when it happened.
use crate::file_format::tokenizer::{markup_of_all, LineToken, Token};
use crate::text::{decimal, join, joined, texts_of, write_decimal};
use vstd::prelude::*;
use vstd::string::StringExecFns;

verus! {

/// Why a parse failed.
#[derive(Debug, PartialEq, Eq)]
pub enum Error {
    /// A rule needed a token and none was left.
    EndOfInput,
    /// The tokens break a rule of the document's structure.
    StructuralViolation(String),
    /// A rule met a token that it has no use for.
    UnexpectedToken { expected: Vec<&'static str>, got: Token },
}

/// The model of [`Error`].
pub enum Cause {
    EndOfInput,
    StructuralViolation(Seq<char>),
    UnexpectedToken { expected: Seq<Seq<char>>, got: LineToken },
}

/// The descriptions of the tokens that were expected, in order.
pub open spec fn names_of(names: Seq<&'static str>) -> Seq<Seq<char>> {
    Seq::new(names.len(), |i: int| names[i]@)
}

impl View for Error {
    type V = Cause;

    open spec fn view(&self) -> Cause {
        match self {
            Error::EndOfInput => Cause::EndOfInput,
            Error::StructuralViolation(message) => Cause::StructuralViolation(message@),
            Error::UnexpectedToken { expected, got } => Cause::UnexpectedToken {
                expected: names_of(expected@),
                got: got@,
            },
        }
    }
}

/// One rule that was being parsed when the parse failed.
#[derive(Debug, PartialEq, Eq)]
pub struct ParserErrorStack {
    name: &'static str,
    remaining: usize,
}

/// The model of [`ParserErrorStack`].
pub struct Frame {
    /// The rule.
    pub name: Seq<char>,
    /// How many tokens were still unread when the rule began.
    pub remaining: nat,
}

impl View for ParserErrorStack {
    type V = Frame;

    closed spec fn view(&self) -> Frame {
        Frame { name: self.name@, remaining: self.remaining as nat }
    }
}

/// A failed parse: its cause, and the rules that were being parsed, the
/// innermost first.
#[derive(Debug, PartialEq, Eq)]
pub struct ParserError {
    stack: Vec<ParserErrorStack>,
    err: Error,
}

/// The model of [`ParserError`].
pub struct Failure {
    pub cause: Cause,
    /// The rules that were being parsed, the innermost first.
    pub frames: Seq<Frame>,
}

/// The models of a sequence of frames, in order.
pub open spec fn frames_of(stack: Seq<ParserErrorStack>) -> Seq<Frame> {
    Seq::new(stack.len(), |i: int| stack[i]@)
}

impl View for ParserError {
    type V = Failure;

    closed spec fn view(&self) -> Failure {
        Failure { cause: self.err@, frames: frames_of(self.stack@) }
    }
}

/// How a token is named in a message.
pub open spec fn token_text(token: LineToken) -> Seq<char> {
    match token {
        LineToken::BracketOpen => "Token::BracketOpen"@,
        LineToken::Inside(text) => "Token::Inside("@ + text + ")"@,
        LineToken::BracketClose => "Token::BracketClose"@,
        LineToken::Heading(name) => "Token::Heading("@ + name + ")"@,
        LineToken::Bullet(spans) => "Token::Bullet("@ + markup_of_all(spans) + ")"@,
        LineToken::Text(spans) => "Token::Text("@ + markup_of_all(spans) + ")"@,
        LineToken::Newline => "Token::Newline"@,
    }
}

/// The message for a cause.
pub open spec fn cause_text(cause: Cause) -> Seq<char> {
    match cause {
        Cause::EndOfInput => "no tokens left"@,
        Cause::StructuralViolation(message) => message,
        Cause::UnexpectedToken { expected, got } => "expected one of {"@ + joined(expected, ", "@)
            + "}, got "@ + token_text(got),
    }
}

/// The line for a frame.
pub open spec fn frame_text(frame: Frame) -> Seq<char> {
    frame.name + "("@ + decimal(frame.remaining) + " tokens left)"@
}

/// The lines for the frames, in order.
pub open spec fn frame_texts(frames: Seq<Frame>) -> Seq<Seq<char>> {
    Seq::new(frames.len(), |i: int| frame_text(frames[i]))
}

/// The message for a failed parse: the cause, a colon, and one line for each
/// frame, the innermost first.
pub open spec fn failure_text(failure: Failure) -> Seq<char> {
    cause_text(failure.cause) + ":\n"@ + joined(frame_texts(failure.frames), "\n"@)
}

impl Token {
    /// How this token is named in a message.
    pub fn describe(&self) -> (text: String)
        ensures
            text@ == token_text(self@),
    {
        match self {
            Token::BracketOpen => "Token::BracketOpen".to_owned(),
            Token::Inside(inside) => {
                let mut text = "Token::Inside(".to_owned();
                text.append(inside.as_str());
                text.append(")");
                text
            },
            Token::BracketClose => "Token::BracketClose".to_owned(),
            Token::Heading(name) => {
                let mut text = "Token::Heading(".to_owned();
                text.append(name.as_str());
                text.append(")");
                text
            },
            Token::Bullet(spans) => {
                let mut text = "Token::Bullet(".to_owned();
                spans.write_markup(&mut text);
                text.append(")");
                text
            },
            Token::Text(spans) => {
                let mut text = "Token::Text(".to_owned();
                spans.write_markup(&mut text);
                text.append(")");
                text
            },
            Token::Newline => "Token::Newline".to_owned(),
        }
    }
}

impl Error {
    /// The message for this cause.
    pub fn to_string(&self) -> (text: String)
        ensures
            text@ == cause_text(self@),
    {
        match self {
            Error::EndOfInput => "no tokens left".to_owned(),
            Error::StructuralViolation(message) => message.clone(),
            Error::UnexpectedToken { expected, got } => {
                let mut names: Vec<String> = Vec::new();
                let mut at: usize = 0;
                while at < expected.len()
                    invariant
                        at <= expected.len(),
                        names.len() == at,
                        texts_of(names@) == names_of(expected@).take(at as int),
                    decreases expected.len() - at,
                {
                    let ghost before = names@;
                    let name: &'static str = expected[at];
                    names.push(name.to_owned());
                    assert forall|i: int| 0 <= i < at + 1 implies texts_of(names@)[i] == names_of(
                        expected@,
                    ).take(at + 1)[i] by {
                        if i < at {
                            assert(texts_of(before)[i] == names_of(expected@).take(at as int)[i]);
                        }
                    }
                    assert(texts_of(names@) =~= names_of(expected@).take(at + 1));
                    at += 1;
                }
                assert(names_of(expected@).take(at as int) =~= names_of(expected@));
                let mut text = "expected one of {".to_owned();
                text.append(join(&names, ", ").as_str());
                text.append("}, got ");
                text.append(got.describe().as_str());
                text
            },
        }
    }
}

impl ParserErrorStack {
    /// The frame of the rule `name`, which began with `remaining` tokens
    /// unread.
    pub fn new(name: &'static str, remaining: usize) -> (frame: ParserErrorStack)
        ensures
            frame@ == (Frame { name: name@, remaining: remaining as nat }),
    {
        ParserErrorStack { name, remaining }
    }

    /// The rule.
    pub fn name(&self) -> (name: &'static str)
        ensures
            name@ == self@.name,
    {
        self.name
    }

    /// How many tokens were still unread when the rule began.
    pub fn remaining(&self) -> (remaining: usize)
        ensures
            remaining == self@.remaining,
    {
        self.remaining
    }

    /// The line for this frame.
    pub fn to_string(&self) -> (text: String)
        ensures
            text@ == frame_text(self@),
    {
        let mut text = self.name.to_owned();
        text.append("(");
        write_decimal(self.remaining, &mut text);
        text.append(" tokens left)");
        text
    }
}

impl ParserError {
    /// A failure with the frames `stack`, the innermost first.
    pub fn new(stack: Vec<ParserErrorStack>, err: Error) -> (error: ParserError)
        ensures
            error@ == (Failure { cause: err@, frames: frames_of(stack@) }),
    {
        ParserError { stack, err }
    }

    /// Adds the frame of the rule that the failure has now reached.
    pub fn push(&mut self, frame: ParserErrorStack)
        ensures
            final(self)@ == (Failure {
                cause: old(self)@.cause,
                frames: old(self)@.frames.push(frame@),
            }),
    {
        self.stack.push(frame);
        assert(frames_of(self.stack@) =~= frames_of(old(self).stack@).push(frame@));
    }

    /// Why the parse failed.
    pub fn cause(&self) -> (cause: &Error)
        ensures
            cause@ == self@.cause,
    {
        &self.err
    }

    /// The rules that were being parsed, the innermost first.
    pub fn frames(&self) -> (frames: &Vec<ParserErrorStack>)
        ensures
            frames_of(frames@) == self@.frames,
    {
        &self.stack
    }

    /// The message for this failure.
    pub fn to_string(&self) -> (text: String)
        ensures
            text@ == failure_text(self@),
    {
        let mut lines: Vec<String> = Vec::new();
        let mut at: usize = 0;
        while at < self.stack.len()
            invariant
                at <= self.stack.len(),
                lines.len() == at,
                texts_of(lines@) == frame_texts(self@.frames).take(at as int),
            decreases self.stack.len() - at,
        {
            let ghost before = lines@;
            lines.push(self.stack[at].to_string());
            assert forall|i: int| 0 <= i < at + 1 implies texts_of(lines@)[i] == frame_texts(
                self@.frames,
            ).take(at + 1)[i] by {
                if i < at {
                    assert(texts_of(before)[i] == frame_texts(self@.frames).take(at as int)[i]);
                }
            }
            assert(texts_of(lines@) =~= frame_texts(self@.frames).take(at + 1));
            at += 1;
        }
        assert(frame_texts(self@.frames).take(at as int) =~= frame_texts(self@.frames));
        let mut text = self.err.to_string();
        text.append(":\n");
        text.append(join(&lines, "\n").as_str());
        text
    }
}

} // verus!
