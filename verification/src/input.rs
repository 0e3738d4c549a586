//! The input side: bytes in, events out.

use crate::error::Blocked;
use crate::error::Error;
use crate::lexer::event_outcome;
use crate::lexer::initial_machine;
use crate::lexer::next_event;
use crate::lexer::CallbackCommand;
use crate::lexer::Event;
use crate::lexer::Lexer;
use crate::lexer::ParserView;
use crate::ring::RingBuffer;
use crate::text::TokenText;
use crate::tokenizer::fill_step;
use crate::tokenizer::Fill;
use crate::tokenizer::FillError;
use crate::tokenizer::Tokenizer;
use crate::tokenizer::INPUT_BYTES;
use vstd::prelude::*;

verus! {

/// A command line parser: a tokenizer and a lexer that work together, with
/// command names, keys and values of at most `N` bytes each.
pub struct LightCliInput<const N: usize> {
    tokenizer: Tokenizer<N>,
    lexer: Lexer<N>,
}

impl<const N: usize> LightCliInput<N> {
    /// The state of the tokenizer and of the lexer.
    pub closed spec fn view(&self) -> ParserView {
        ParserView { tokenizer: self.tokenizer@, lexer: self.lexer@ }
    }

    /// The number of bytes of UTF-8 that a command name, a key or a value
    /// can have.
    pub open spec fn token_capacity() -> nat {
        TokenText::<N>::spec_capacity()
    }

    /// The number of bytes that can wait to be parsed.
    pub open spec fn input_capacity() -> nat {
        RingBuffer::<INPUT_BYTES>::spec_capacity()
    }

    /// A parser at the start of input, with nothing buffered.
    pub fn new() -> (r: Self)
        ensures
            r@.tokenizer.queue == Seq::<u8>::empty(),
            r@.tokenizer.text == Seq::<char>::empty(),
            r@.lexer.machine == initial_machine(),
            r@.lexer.due == Seq::<Event>::empty(),
    {
        LightCliInput { tokenizer: Tokenizer::new(), lexer: Lexer::new() }
    }

    /// Gives the next event, if the bytes buffered so far hold one.
    ///
    /// All commands have the form `COMMAND KEY=VALUE ...`. Every key and
    /// value pair gives an `Attribute` with the command's name, the key and
    /// the value; the end of the line gives a `Command` with the name.
    /// `Ok(None)` and `Err(Blocked::WouldBlock)` both say that more bytes
    /// are needed before there is another event.
    pub fn parse_data(&mut self) -> (r: Result<Option<CallbackCommand<N>>, Blocked<Error>>)
        ensures
            (final(self)@, event_outcome(r)) == next_event(old(self)@, Self::token_capacity()),
    {
        self.lexer.parse_data(&mut self.tokenizer)
    }

    /// Takes in the outcome of one non-blocking read of the byte source.
    ///
    /// The caller reads the source again as long as the answer is
    /// `Ok(Fill::ReadAgain)`.
    pub fn fill<E>(&mut self, read: Result<u8, Blocked<E>>) -> (r: Result<Fill, FillError<E>>)
        ensures
            final(self)@.lexer == old(self)@.lexer,
            final(self)@.tokenizer.text == old(self)@.tokenizer.text,
            (final(self)@.tokenizer.queue, r) == fill_step(
                old(self)@.tokenizer.queue,
                Self::input_capacity(),
                read,
            ),
    {
        self.tokenizer.fill(read)
    }
}

} // verus!
