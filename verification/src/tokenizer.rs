//! From buffered bytes to lexical tokens.

use crate::error::Blocked;
use crate::error::Error;
use crate::ring::RingBuffer;
use crate::scalar::decode;
use crate::scalar::lead_width;
use crate::scalar::lemma_scalar_of_prefix;
use crate::scalar::scalar_of;
use crate::scalar::sequence_width;
use crate::text::scalar_width;
use crate::text::text_bytes;
use crate::text::TokenText;
use vstd::prelude::*;

verus! {

/// The number of bytes that a [`Tokenizer`] buffers before they have to be
/// turned into tokens.
pub const INPUT_BYTES: usize = 64;

/// A lexical token: one of the four delimiters, or a run of text between
/// delimiters.
#[derive(Debug)]
pub enum Token<const N: usize> {
    NewLine,
    CarriageReturn,
    Equals,
    Space,
    Value(TokenText<N>),
}

/// What a [`Token`] stands for.
pub enum Lexeme {
    NewLine,
    CarriageReturn,
    Equals,
    Space,
    Value(Seq<char>),
}

impl<const N: usize> Token<N> {
    /// What the token stands for.
    pub open spec fn view(&self) -> Lexeme {
        match *self {
            Token::NewLine => Lexeme::NewLine,
            Token::CarriageReturn => Lexeme::CarriageReturn,
            Token::Equals => Lexeme::Equals,
            Token::Space => Lexeme::Space,
            Token::Value(t) => Lexeme::Value(t@),
        }
    }
}

/// Whether `b` is one of the delimiters: space, `=`, carriage return, line
/// feed.
pub open spec fn is_delimiter(b: u8) -> bool {
    b == 0x20 || b == 0x3D || b == 0x0D || b == 0x0A
}

/// The token that the delimiter `b` gives.
pub open spec fn delimiter_lexeme(b: u8) -> Lexeme {
    if b == 0x20 {
        Lexeme::Space
    } else if b == 0x3D {
        Lexeme::Equals
    } else if b == 0x0D {
        Lexeme::CarriageReturn
    } else {
        Lexeme::NewLine
    }
}

/// What taking one scalar off the front of `queue` gives: the bytes that are
/// left, and the scalar or the reason why there is none.
///
/// An empty queue, and one that holds fewer bytes than its first byte
/// announces, would block and stay as they are. A first byte that starts no
/// sequence is dropped; so is every byte of a sequence that is complete but
/// ill-formed (see [`scalar_of`]).
pub open spec fn next_scalar(queue: Seq<u8>) -> (Seq<u8>, Result<char, Blocked<Error>>) {
    if queue.len() == 0 {
        (queue, Err(Blocked::WouldBlock))
    } else {
        let w = lead_width(queue[0]);
        if w == 0 {
            (queue.skip(1), Err(Blocked::Other(Error::InvalidEncoding)))
        } else if queue.len() < w {
            (queue, Err(Blocked::WouldBlock))
        } else {
            match scalar_of(queue) {
                Some(c) => (queue.skip(w as int), Ok(c)),
                None => (queue.skip(w as int), Err(Blocked::Other(Error::InvalidEncoding))),
            }
        }
    }
}

/// The state of a [`Tokenizer`]: the bytes buffered and not yet consumed,
/// and the text gathered since the last token.
pub struct TokenizerView {
    pub queue: Seq<u8>,
    pub text: Seq<char>,
}

/// What asking for the next token gives, for a text capacity of `cap`
/// bytes: the state afterwards, and the token or the reason why there is
/// none.
///
/// - No bytes buffered: `Ok(None)`; text gathered so far is kept.
/// - A delimiter at the front while text has been gathered: the text, as a
///   `Value`; the delimiter stays where it is.
/// - A delimiter at the front and no text gathered: the delimiter, which is
///   consumed.
/// - Otherwise one scalar is taken off the front (see [`next_scalar`]) and
///   appended to the text, and the question is asked again. If the scalar
///   does not fit, it is dropped, the text is kept and
///   `Error::CapacityExceeded` is the answer.
pub open spec fn next_token(s: TokenizerView, cap: nat) -> (
    TokenizerView,
    Result<Option<Lexeme>, Blocked<Error>>,
)
    decreases s.queue.len(),
{
    if s.queue.len() == 0 {
        (s, Ok(None))
    } else if is_delimiter(s.queue[0]) {
        if s.text.len() > 0 {
            (TokenizerView { queue: s.queue, text: Seq::empty() }, Ok(Some(Lexeme::Value(s.text))))
        } else {
            (
                TokenizerView { queue: s.queue.drop_first(), text: s.text },
                Ok(Some(delimiter_lexeme(s.queue[0]))),
            )
        }
    } else {
        let (rest, scalar) = next_scalar(s.queue);
        match scalar {
            Err(e) => (TokenizerView { queue: rest, text: s.text }, Err(e)),
            Ok(c) => if text_bytes(s.text) + scalar_width(c) > cap {
                (
                    TokenizerView { queue: rest, text: s.text },
                    Err(Blocked::Other(Error::CapacityExceeded)),
                )
            } else {
                next_token(TokenizerView { queue: rest, text: s.text.push(c) }, cap)
            },
        }
    }
}

/// What the outcome of [`Tokenizer::get_tokens`] stands for.
pub open spec fn token_outcome<const N: usize>(
    r: Result<Option<Token<N>>, Blocked<Error>>,
) -> Result<Option<Lexeme>, Blocked<Error>> {
    match r {
        Ok(Some(t)) => Ok(Some(t@)),
        Ok(None) => Ok(None),
        Err(e) => Err(e),
    }
}

/// Whether an outcome says that the parser has to wait for more bytes.
pub open spec fn waits<T>(r: Result<Option<T>, Blocked<Error>>) -> bool {
    r == Ok::<Option<T>, Blocked<Error>>(None) || r == Err::<Option<T>, Blocked<Error>>(
        Blocked::WouldBlock,
    )
}

/// The tokenizer state `s` after `bytes` more have been buffered.
pub open spec fn buffered(s: TokenizerView, bytes: Seq<u8>) -> TokenizerView {
    TokenizerView { queue: s.queue + bytes, text: s.text }
}

/// A token costs a byte of the buffer or the text gathered.
pub proof fn lemma_next_token_progress(s: TokenizerView, cap: nat)
    ensures
        ({
            let (s2, r) = next_token(s, cap);
            &&& s2.queue.len() <= s.queue.len()
            &&& (r matches Ok(Some(token)) ==> s2.text.len() == 0 && (s2.queue.len()
                < s.queue.len() || (s.text.len() > 0 && token is Value)))
        }),
    decreases s.queue.len(),
{
    if s.queue.len() > 0 && !is_delimiter(s.queue[0]) {
        let (rest, scalar) = next_scalar(s.queue);
        if let Ok(c) = scalar {
            if text_bytes(s.text) + scalar_width(c) <= cap {
                lemma_next_token_progress(TokenizerView { queue: rest, text: s.text.push(c) }, cap);
            }
        }
    }
}

/// Bytes that arrive later change nothing of a scalar that is complete.
pub proof fn lemma_next_scalar_local(queue: Seq<u8>, more: Seq<u8>)
    requires
        !(next_scalar(queue).1 == Err::<char, Blocked<Error>>(Blocked::WouldBlock)),
    ensures
        next_scalar(queue + more) == (next_scalar(queue).0 + more, next_scalar(queue).1),
{
}

/// Bytes that arrive later change nothing of a token that is complete, nor
/// of a fatal error; and a tokenizer that waits goes on, when they have
/// arrived, from where it came to rest.
pub proof fn lemma_next_token_local(s: TokenizerView, more: Seq<u8>, cap: nat)
    ensures
        ({
            let (s2, r) = next_token(s, cap);
            if waits(r) {
                next_token(buffered(s, more), cap) == next_token(buffered(s2, more), cap)
            } else {
                next_token(buffered(s, more), cap) == (buffered(s2, more), r)
            }
        }),
    decreases s.queue.len(),
{
    if s.queue.len() > 0 {
        if is_delimiter(s.queue[0]) {
            assert((s.queue + more).drop_first() =~= s.queue.drop_first() + more);
        } else {
            let (rest, scalar) = next_scalar(s.queue);
            if scalar != Err::<char, Blocked<Error>>(Blocked::WouldBlock) {
                lemma_next_scalar_local(s.queue, more);
            }
            if let Ok(c) = scalar {
                if text_bytes(s.text) + scalar_width(c) <= cap {
                    lemma_next_token_local(
                        TokenizerView { queue: rest, text: s.text.push(c) },
                        more,
                        cap,
                    );
                }
            }
        }
    }
}

/// What one non-blocking read of the byte source asks the caller to do next.
#[derive(Clone, Copy, Debug, PartialEq, Eq, Structural)]
pub enum Fill {
    /// The byte was stored: read again.
    ReadAgain,
    /// The source has nothing more right now: filling is done.
    Drained,
}

/// Why filling the input buffer failed.
#[derive(Debug, PartialEq, Eq)]
pub enum FillError<E> {
    /// The buffer is full; the byte that was read is lost.
    CapacityExceeded,
    /// The byte source failed.
    Source(E),
}

/// What handing the outcome `read` of one read to a buffer of `cap` bytes
/// that holds `queue` gives: the bytes held afterwards, and what to do next.
pub open spec fn fill_step<E>(queue: Seq<u8>, cap: nat, read: Result<u8, Blocked<E>>) -> (
    Seq<u8>,
    Result<Fill, FillError<E>>,
) {
    match read {
        Ok(b) => if queue.len() < cap {
            (queue.push(b), Ok(Fill::ReadAgain))
        } else {
            (queue, Err(FillError::CapacityExceeded))
        },
        Err(Blocked::WouldBlock) => (queue, Ok(Fill::Drained)),
        Err(Blocked::Other(e)) => (queue, Err(FillError::Source(e))),
    }
}

/// Turns buffered bytes into tokens, with text of at most `N` bytes.
pub struct Tokenizer<const N: usize> {
    rb: RingBuffer<INPUT_BYTES>,
    nextstr: TokenText<N>,
}

impl<const N: usize> Tokenizer<N> {
    /// The bytes buffered and the text gathered.
    pub closed spec fn view(&self) -> TokenizerView {
        TokenizerView { queue: self.rb@, text: self.nextstr@ }
    }

    /// A tokenizer with nothing buffered and no text gathered.
    pub fn new() -> (r: Self)
        ensures
            r@.queue == Seq::<u8>::empty(),
            r@.text == Seq::<char>::empty(),
    {
        Tokenizer { rb: RingBuffer::new(), nextstr: TokenText::new() }
    }

    /// Takes the `count` bytes of one UTF-8 sequence off the buffer and
    /// decodes them, or would block while fewer than `count` are buffered.
    fn get_amount(&mut self, count: usize) -> (r: Result<char, Blocked<Error>>)
        requires
            old(self)@.queue.len() > 0,
            1 <= count <= 4,
            count == lead_width(old(self)@.queue[0]),
        ensures
            final(self)@.text == old(self)@.text,
            (final(self)@.queue, r) == next_scalar(old(self)@.queue),
    {
        if self.rb.len() < count {
            return Err(Blocked::WouldBlock);
        }
        let ghost queue = self.rb@;
        let mut bytes: [u8; 4] = [0, 0, 0, 0];
        let mut i: usize = 0;
        while i < count
            invariant
                0 <= i <= count <= 4,
                count <= queue.len(),
                self.nextstr == old(self).nextstr,
                self.rb@ == queue.skip(i as int),
                forall|j: int| 0 <= j < i ==> bytes[j] == queue[j],
            decreases count - i,
        {
            match self.rb.dequeue() {
                Some(b) => {
                    bytes[i] = b;
                },
                None => {},
            }
            i = i + 1;
        }
        proof {
            let four = seq![bytes[0], bytes[1], bytes[2], bytes[3]];
            assert(four.take(count as int) =~= queue.take(count as int));
            lemma_scalar_of_prefix(four, count as int);
            lemma_scalar_of_prefix(queue, count as int);
        }
        match decode(bytes[0], bytes[1], bytes[2], bytes[3]) {
            Some(c) => Ok(c),
            None => Err(Blocked::Other(Error::InvalidEncoding)),
        }
    }

    /// Takes one scalar off the front of the buffer.
    fn get_char(&mut self) -> (r: Result<char, Blocked<Error>>)
        ensures
            final(self)@.text == old(self)@.text,
            (final(self)@.queue, r) == next_scalar(old(self)@.queue),
    {
        match self.rb.peek() {
            None => Err(Blocked::WouldBlock),
            Some(lead) => {
                let count = sequence_width(lead);
                if count == 0 {
                    let _ = self.rb.dequeue();
                    Err(Blocked::Other(Error::InvalidEncoding))
                } else {
                    self.get_amount(count)
                }
            },
        }
    }

    /// Gives the next token, if the bytes buffered so far hold one.
    ///
    /// `Ok(None)` says that every buffered byte has been consumed;
    /// `Err(Blocked::WouldBlock)` that the bytes left are the beginning of a
    /// scalar whose end has not arrived. Text gathered so far is kept in both
    /// cases, so that a value split over two deliveries comes out whole.
    /// After a fatal error the offending scalar is gone and the text
    /// gathered before it is kept.
    pub fn get_tokens(&mut self) -> (r: Result<Option<Token<N>>, Blocked<Error>>)
        ensures
            (final(self)@, token_outcome(r)) == next_token(
                old(self)@,
                TokenText::<N>::spec_capacity(),
            ),
    {
        let ghost cap = TokenText::<N>::spec_capacity();
        loop
            invariant
                next_token(self@, cap) == next_token(old(self)@, cap),
                cap == TokenText::<N>::spec_capacity(),
            decreases self@.queue.len(),
        {
            match self.rb.peek() {
                None => {
                    return Ok(None);
                },
                Some(b) => {
                    if b == 0x20 || b == 0x3D || b == 0x0D || b == 0x0A {
                        if !self.nextstr.is_empty() {
                            let text = self.nextstr.take();
                            return Ok(Some(Token::Value(text)));
                        }
                        let _ = self.rb.dequeue();
                        if b == 0x20 {
                            return Ok(Some(Token::Space));
                        } else if b == 0x3D {
                            return Ok(Some(Token::Equals));
                        } else if b == 0x0D {
                            return Ok(Some(Token::CarriageReturn));
                        } else {
                            return Ok(Some(Token::NewLine));
                        }
                    }
                    match self.get_char() {
                        Err(e) => {
                            return Err(e);
                        },
                        Ok(c) => match self.nextstr.push(c) {
                            Err(_) => {
                                return Err(Blocked::Other(Error::CapacityExceeded));
                            },
                            Ok(()) => {},
                        },
                    }
                },
            }
        }
    }

    /// Takes in the outcome of one non-blocking read of the byte source: a
    /// byte is buffered, "would block" ends the filling with success, a
    /// failure of the source is handed on.
    pub fn fill<E>(&mut self, read: Result<u8, Blocked<E>>) -> (r: Result<Fill, FillError<E>>)
        ensures
            final(self)@.text == old(self)@.text,
            (final(self)@.queue, r) == fill_step(
                old(self)@.queue,
                RingBuffer::<INPUT_BYTES>::spec_capacity(),
                read,
            ),
    {
        match read {
            Ok(b) => match self.rb.enqueue(b) {
                Ok(()) => Ok(Fill::ReadAgain),
                Err(_) => Err(FillError::CapacityExceeded),
            },
            Err(Blocked::WouldBlock) => Ok(Fill::Drained),
            Err(Blocked::Other(e)) => Err(FillError::Source(e)),
        }
    }
}

/// What filling does when the byte source gives `reads` to one read after
/// the other: the bytes held afterwards, and how the filling ended (`None`
/// while it still has to read).
pub open spec fn fill_run<E>(queue: Seq<u8>, cap: nat, reads: Seq<Result<u8, Blocked<E>>>) -> (
    Seq<u8>,
    Option<Result<(), FillError<E>>>,
)
    decreases reads.len(),
{
    if reads.len() == 0 {
        (queue, None)
    } else {
        let (held, r) = fill_step(queue, cap, reads[0]);
        match r {
            Ok(Fill::ReadAgain) => fill_run(held, cap, reads.drop_first()),
            Ok(Fill::Drained) => (held, Some(Ok(()))),
            Err(e) => (held, Some(Err(e))),
        }
    }
}

/// The outcomes of the reads of a byte source that gives `bytes` and then
/// answers `then`.
pub open spec fn reads_of<E>(bytes: Seq<u8>, then: Blocked<E>) -> Seq<Result<u8, Blocked<E>>> {
    Seq::new(
        bytes.len() + 1,
        |i: int|
            if i < bytes.len() {
                Ok(bytes[i])
            } else {
                Err(then)
            },
    )
}

/// Filling buffers the bytes of the source in their order, behind the bytes
/// that are held already. As long as there is room for all of them, it ends
/// when the source would block, with success, or with the failure of the
/// source; the bytes read before are buffered in both cases. When there is
/// not room for all, it ends with `FillError::CapacityExceeded` at the
/// first byte that finds none.
pub proof fn law_fill_in_order<E>(queue: Seq<u8>, cap: nat, bytes: Seq<u8>, then: Blocked<E>)
    ensures
        queue.len() + bytes.len() <= cap ==> fill_run(queue, cap, reads_of(bytes, then)) == (
            queue + bytes,
            Some(
                match then {
                    Blocked::WouldBlock => Ok::<(), FillError<E>>(()),
                    Blocked::Other(e) => Err::<(), FillError<E>>(FillError::Source(e)),
                },
            ),
        ),
        queue.len() <= cap < queue.len() + bytes.len() ==> fill_run(
            queue,
            cap,
            reads_of(bytes, then),
        ) == (
            queue + bytes.take(cap - queue.len()),
            Some(Err::<(), FillError<E>>(FillError::CapacityExceeded)),
        ),
    decreases bytes.len(),
{
    if bytes.len() > 0 {
        assert(reads_of(bytes, then).drop_first() =~= reads_of(bytes.drop_first(), then));
        if queue.len() < cap {
            law_fill_in_order(queue.push(bytes[0]), cap, bytes.drop_first(), then);
        }
    }
}

} // verus!
