//! The decisions of the loop that owns a serial device for one session.
//!
//! The loop itself, which polls the command channel, reads the device and
//! forwards samples, runs outside the library; it hands each event to a
//! [`SerialSource`] and does what it is told.
use vstd::prelude::*;

use vstd::slice::slice_to_vec;
use vstd::utf8::encode_utf8;

use crate::stream::feed;
use crate::value_parsing::{records_view, Commands, DataValue, Parser, ParserState, fresh_state};

verus! {

/// The largest number of bytes read from the device in one iteration.
pub const MAX_READ: usize = 1024;

/// What one read of the device gave.
pub enum ReadOutcome {
    /// These bytes, possibly none.
    Data(Vec<u8>),
    /// The read was interrupted or would have blocked: nothing was lost.
    Transient,
    /// Any other failure of the device.
    Failed,
}

/// The samples decoded from one read, in order, and the number of tokens that
/// were skipped because they could not be decoded.
pub struct Decoded {
    pub records: Vec<DataValue>,
    pub invalid: usize,
}

pub struct SessionState {
    pub parser: ParserState,
    /// A `Stop` command was taken.
    pub stop_requested: bool,
    /// A failure ended the session.
    pub ended: bool,
}

/// The state of one session: its decoder, and whether it should go on.
pub struct SerialSource {
    parser: Parser,
    stop_requested: bool,
    ended: bool,
}

impl View for SerialSource {
    type V = SessionState;

    closed spec fn view(&self) -> SessionState {
        SessionState { parser: self.parser@, stop_requested: self.stop_requested, ended: self.ended }
    }
}

impl SerialSource {
    /// A session that has just started, at the start of a line.
    pub fn new() -> (r: Self)
        ensures
            r@ == (SessionState { parser: fresh_state(), stop_requested: false, ended: false }),
    {
        SerialSource { parser: Parser::new(), stop_requested: false, ended: false }
    }

    /// Whether the loop should run another iteration.
    pub fn is_running(&self) -> (r: bool)
        ensures
            r == (!self@.stop_requested && !self@.ended),
    {
        !self.stop_requested && !self.ended
    }

    /// How many bytes to read when the device reports `available` bytes
    /// waiting: at least one, so that the read waits for data, and at most
    /// [`MAX_READ`], so that each iteration stays short.
    pub fn read_size(available: u32) -> (r: usize)
        ensures
            r == if available < 1 {
                1
            } else if available > MAX_READ {
                MAX_READ as int
            } else {
                available as int
            },
    {
        if available < 1 {
            1
        } else if available as usize > MAX_READ {
            MAX_READ
        } else {
            available as usize
        }
    }

    /// Takes a command from the command channel. `Stop` ends the session once
    /// the current iteration is over; `SendMessage` gives the bytes to write to
    /// the device, which are the message's UTF-8 encoding with nothing added.
    pub fn on_command(&mut self, command: Commands) -> (r: Option<Vec<u8>>)
        ensures
            match command {
                Commands::Stop => {
                    &&& r is None
                    &&& final(self)@ == (SessionState { stop_requested: true, ..old(self)@ })
                },
                Commands::SendMessage(m) => {
                    &&& r is Some
                    &&& r->0@ == encode_utf8(m@)
                    &&& final(self)@ == old(self)@
                },
            },
    {
        match command {
            Commands::Stop => {
                self.stop_requested = true;
                None
            },
            Commands::SendMessage(message) => Some(slice_to_vec(message.as_str().as_bytes())),
        }
    }

    /// Writing a message to the device failed: the session ends.
    pub fn on_write_failed(&mut self)
        ensures
            final(self)@ == (SessionState { ended: true, ..old(self)@ }),
    {
        self.ended = true;
    }

    /// A decoded sample could not be forwarded, because nobody receives them
    /// any more: the session ends.
    pub fn on_send_failed(&mut self)
        ensures
            final(self)@ == (SessionState { ended: true, ..old(self)@ }),
    {
        self.ended = true;
    }

    /// Takes the outcome of a read. Bytes go through the decoder one by one,
    /// and the samples of every line that they complete come back in order; a
    /// transient failure changes nothing; any other failure ends the session.
    pub fn on_read(&mut self, outcome: ReadOutcome) -> (r: Decoded)
        ensures
            match outcome {
                ReadOutcome::Data(bytes) => {
                    &&& final(self)@ == (SessionState {
                        parser: feed(old(self)@.parser, bytes@).state,
                        ..old(self)@
                    })
                    &&& records_view(r.records@) == feed(old(self)@.parser, bytes@).records
                    &&& r.invalid == feed(old(self)@.parser, bytes@).invalid
                },
                ReadOutcome::Transient => {
                    &&& final(self)@ == old(self)@
                    &&& r.records@.len() == 0
                    &&& r.invalid == 0
                },
                ReadOutcome::Failed => {
                    &&& final(self)@ == (SessionState { ended: true, ..old(self)@ })
                    &&& r.records@.len() == 0
                    &&& r.invalid == 0
                },
            },
    {
        match outcome {
            ReadOutcome::Data(bytes) => self.decode(&bytes),
            ReadOutcome::Transient => Decoded { records: Vec::new(), invalid: 0 },
            ReadOutcome::Failed => {
                self.ended = true;
                Decoded { records: Vec::new(), invalid: 0 }
            },
        }
    }

    fn decode(&mut self, bytes: &Vec<u8>) -> (r: Decoded)
        ensures
            final(self)@ == (SessionState {
                parser: feed(old(self)@.parser, bytes@).state,
                ..old(self)@
            }),
            records_view(r.records@) == feed(old(self)@.parser, bytes@).records,
            r.invalid == feed(old(self)@.parser, bytes@).invalid,
    {
        let ghost p0 = self.parser@;
        let mut records: Vec<DataValue> = Vec::new();
        let mut invalid: usize = 0;
        let mut i: usize = 0;
        while i < bytes.len()
            invariant
                i <= bytes@.len(),
                self.stop_requested == old(self).stop_requested,
                self.ended == old(self).ended,
                self.parser@ == feed(p0, bytes@.take(i as int)).state,
                records_view(records@) == feed(p0, bytes@.take(i as int)).records,
                invalid == feed(p0, bytes@.take(i as int)).invalid,
                invalid <= i,
            decreases bytes@.len() - i,
        {
            assert(bytes@.take(i + 1).drop_last() =~= bytes@.take(i as int));
            match self.parser.parse(bytes[i]) {
                crate::value_parsing::ParsingResult::Line(values) => {
                    let ghost before = records@;
                    let ghost added = values@;
                    let mut values = values;
                    records.append(&mut values);
                    assert(records_view(records@) =~= records_view(before) + records_view(added));
                },
                crate::value_parsing::ParsingResult::Pending => {
                    assert(records_view(records@) =~= records_view(records@) + Seq::empty());
                },
                crate::value_parsing::ParsingResult::Error(_) => {
                    assert(records_view(records@) =~= records_view(records@) + Seq::empty());
                    invalid = invalid + 1;
                },
            }
            i = i + 1;
        }
        assert(bytes@.take(bytes@.len() as int) =~= bytes@);
        Decoded { records, invalid }
    }
}

}
