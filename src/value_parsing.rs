//! The line-oriented sample format and its byte-at-a-time decoder.
//!
//! A line is `[name:]value(,[name:]value)*` followed by `\n`. Spaces and tabs
//! are dropped wherever they occur. A value is a floating-point literal (see
//! [`crate::number`]); a token whose value is not one is skipped. A token
//! without a name, or with an empty one, is named by its position among the
//! records already decoded on its line.
use vstd::prelude::*;

use crate::number::{decimal, decimal_string, is_number_literal, is_number_text, string_from_chars};

verus! {

/// One decoded sample: the name it was given on the wire, and the text of
/// its floating-point literal, without whitespace.
#[derive(Debug, Clone, PartialEq)]
pub struct DataValue {
    pub name: String,
    pub value: String,
}

/// A decoded sample as (name, literal).
pub type Record = (Seq<char>, Seq<char>);

impl View for DataValue {
    type V = Record;

    open spec fn view(&self) -> Record {
        (self.name@, self.value@)
    }
}

pub open spec fn records_view(v: Seq<DataValue>) -> Seq<Record> {
    v.map_values(|d: DataValue| d@)
}

/// Instructions for the loop that owns a serial device.
pub enum Commands {
    /// End the session.
    Stop,
    /// Write this text to the device as its UTF-8 bytes, with nothing added.
    SendMessage(String),
}

/// Why a token or a session could not go on.
#[derive(Debug, Clone, Copy, PartialEq, Eq, Structural)]
pub enum ParseError {
    /// Nobody receives the decoded samples any more.
    ChannelClosed,
    /// A token's value is not a floating-point literal.
    InvalidFormat,
}

impl From<crossbeam::channel::SendError<DataValue>> for ParseError {
    fn from(_value: crossbeam::channel::SendError<DataValue>) -> (r: Self)
        ensures
            r == ParseError::ChannelClosed,
    {
        ParseError::ChannelClosed
    }
}

impl vstd::std_specs::convert::FromSpecImpl<crossbeam::channel::SendError<DataValue>> for ParseError {
    open spec fn obeys_from_spec() -> bool {
        true
    }

    open spec fn from_spec(_value: crossbeam::channel::SendError<DataValue>) -> ParseError {
        ParseError::ChannelClosed
    }
}

/// What the decoder reports after one byte.
#[derive(Debug, Clone, PartialEq)]
pub enum ParsingResult {
    /// A line ended; these are its samples, left to right.
    Line(Vec<DataValue>),
    /// Nothing to report yet.
    Pending,
    /// A token ended that could not be decoded; it was skipped.
    Error(ParseError),
}

/// The abstract outcome of one byte.
pub enum Outcome {
    Pending,
    Line(Seq<Record>),
    Invalid,
}

pub open spec fn outcome_of(r: ParsingResult) -> Outcome {
    match r {
        ParsingResult::Line(v) => Outcome::Line(records_view(v@)),
        ParsingResult::Pending => Outcome::Pending,
        ParsingResult::Error(_) => Outcome::Invalid,
    }
}

impl From<Result<Vec<DataValue>, ParseError>> for ParsingResult {
    fn from(other: Result<Vec<DataValue>, ParseError>) -> (r: Self)
        ensures
            r == (match other {
                Ok(values) => ParsingResult::Line(values),
                Err(err) => ParsingResult::Error(err),
            }),
    {
        match other {
            Ok(values) => ParsingResult::Line(values),
            Err(err) => ParsingResult::Error(err),
        }
    }
}

impl vstd::std_specs::convert::FromSpecImpl<Result<Vec<DataValue>, ParseError>> for ParsingResult {
    open spec fn obeys_from_spec() -> bool {
        true
    }

    open spec fn from_spec(other: Result<Vec<DataValue>, ParseError>) -> ParsingResult {
        match other {
            Ok(values) => ParsingResult::Line(values),
            Err(err) => ParsingResult::Error(err),
        }
    }
}

/// The decoder's state between two bytes.
pub struct ParserState {
    /// The name given to the token being read, if a `:` was seen.
    pub name: Option<Seq<char>>,
    /// The characters of the token being read since its start or its `:`.
    pub value: Seq<char>,
    /// The samples decoded so far on the current line.
    pub completed: Seq<Record>,
}

pub open spec fn fresh_state() -> ParserState {
    ParserState { name: None, value: Seq::empty(), completed: Seq::empty() }
}

/// The name of the pending token's sample: its own, or else its position on the line.
pub open spec fn record_name(p: ParserState) -> Seq<char> {
    if p.name is Some && p.name->0.len() > 0 {
        p.name->0
    } else {
        decimal(p.completed.len())
    }
}

/// Ends the pending token: a token whose value is a literal joins the line,
/// any other is dropped.
pub open spec fn close_token(p: ParserState) -> ParserState {
    ParserState {
        name: None,
        value: Seq::empty(),
        completed: if is_number_text(p.value) {
            p.completed.push((record_name(p), p.value))
        } else {
            p.completed
        },
    }
}

pub const NEWLINE: u8 = 10;

pub const COMMA: u8 = 44;

pub const COLON: u8 = 58;

pub const SPACE: u8 = 32;

pub const TAB: u8 = 9;

/// The character that the decoder takes a byte for.
pub open spec fn byte_char(b: u8) -> char {
    b as char
}

/// The decoder's transition on one byte.
pub open spec fn step(p: ParserState, b: u8) -> (ParserState, Outcome) {
    if b == NEWLINE {
        (fresh_state(), Outcome::Line(close_token(p).completed))
    } else if b == COMMA {
        (close_token(p), if is_number_text(p.value) { Outcome::Pending } else { Outcome::Invalid })
    } else if b == COLON {
        if p.name is None {
            (ParserState { name: Some(p.value), value: Seq::empty(), ..p }, Outcome::Pending)
        } else {
            (ParserState { value: p.value.push(':'), ..p }, Outcome::Pending)
        }
    } else if b == SPACE || b == TAB {
        (p, Outcome::Pending)
    } else {
        (ParserState { value: p.value.push(byte_char(b)), ..p }, Outcome::Pending)
    }
}

/// Turns bytes into samples, one byte at a time. A byte of no special meaning
/// is taken as the character of the same code point.
pub struct Parser {
    name: Option<Vec<char>>,
    value: Vec<char>,
    completed_values: Vec<DataValue>,
}

impl View for Parser {
    type V = ParserState;

    closed spec fn view(&self) -> ParserState {
        ParserState {
            name: match self.name {
                Some(n) => Some(n@),
                None => None,
            },
            value: self.value@,
            completed: records_view(self.completed_values@),
        }
    }
}

impl Parser {
    /// A decoder at the start of a line.
    pub fn new() -> (r: Self)
        ensures
            r@ == fresh_state(),
    {
        let r = Parser { name: None, value: Vec::new(), completed_values: Vec::new() };
        assert(r@.completed =~= Seq::<Record>::empty());
        r
    }

    /// Takes one byte. `\n` ends the line and hands out its samples; `,` ends a
    /// token and reports whether it was decoded; `:` ends a token's name.
    pub fn parse(&mut self, byte: u8) -> (r: ParsingResult)
        ensures
            final(self)@ == step(old(self)@, byte).0,
            outcome_of(r) == step(old(self)@, byte).1,
            r is Error ==> r->Error_0 == ParseError::InvalidFormat,
    {
        if byte == NEWLINE {
            ParsingResult::from(self.finish())
        } else if byte == COMMA {
            match self.complete_value() {
                Ok(()) => ParsingResult::Pending,
                Err(err) => ParsingResult::Error(err),
            }
        } else if byte == COLON {
            if self.name.is_none() {
                let mut name = Vec::new();
                std::mem::swap(&mut name, &mut self.value);
                self.name = Some(name);
            } else {
                self.value.push(':');
            }
            ParsingResult::Pending
        } else if byte == SPACE || byte == TAB {
            ParsingResult::Pending
        } else {
            self.value.push(byte as char);
            ParsingResult::Pending
        }
    }

    /// Ends the line as `\n` does, and hands out its samples. It does not fail:
    /// a last token that is not a literal is dropped.
    pub fn finish(&mut self) -> (r: Result<Vec<DataValue>, ParseError>)
        ensures
            final(self)@ == fresh_state(),
            r is Ok,
            records_view(r->Ok_0@) == close_token(old(self)@).completed,
    {
        let _ = self.complete_value();
        let mut result = Vec::new();
        std::mem::swap(&mut result, &mut self.completed_values);
        self.reset();
        Ok(result)
    }

    fn complete_value(&mut self) -> (r: Result<(), ParseError>)
        ensures
            final(self)@ == close_token(old(self)@),
            r is Ok <==> is_number_text(old(self)@.value),
            r is Err ==> r->Err_0 == ParseError::InvalidFormat,
    {
        let ghost p = self@;
        let ok = is_number_literal(&self.value);
        let name = self.name.take();
        let mut value = Vec::new();
        std::mem::swap(&mut value, &mut self.value);
        if ok {
            let name_text = match name {
                Some(n) => {
                    if n.len() > 0 {
                        string_from_chars(&n)
                    } else {
                        decimal_string(self.completed_values.len())
                    }
                },
                None => decimal_string(self.completed_values.len()),
            };
            let ghost before = self.completed_values@;
            self.completed_values.push(DataValue { name: name_text, value: string_from_chars(&value) });
            assert(records_view(self.completed_values@) =~= records_view(before).push(
                (record_name(p), p.value),
            ));
            Ok(())
        } else {
            Err(ParseError::InvalidFormat)
        }
    }

    fn reset(&mut self)
        ensures
            final(self)@ == fresh_state(),
    {
        self.name = None;
        self.value = Vec::new();
        self.completed_values.clear();
        assert(records_view(self.completed_values@) =~= Seq::<Record>::empty());
    }
}

}
