//! Bounded text: the characters of one command name, key or value.

use crate::error::Error;
use vstd::prelude::*;
use vstd::utf8::encode_scalar;
use vstd::utf8::encode_utf8;

verus! {

/// The largest capacity, in bytes of UTF-8, that a [`TokenText`] can have.
pub const MAX_TOKEN_BYTES: usize = 64;

/// `heapless::String`, a string of at most `N` bytes that is stored in
/// place.
#[verifier::external_type_specification]
#[verifier::external_body]
pub struct ExString<const N: usize>(heapless::String<N>);

/// The characters that a string holds, in order.
pub uninterp spec fn string_text(s: heapless::String<MAX_TOKEN_BYTES>) -> Seq<char>;

/// The number of bytes that the UTF-8 encoding of `c` takes.
pub open spec fn scalar_width(c: char) -> nat {
    let v = c as u32;
    if v < 0x80 {
        1
    } else if v < 0x800 {
        2
    } else if v < 0x10000 {
        3
    } else {
        4
    }
}

/// The number of bytes that the UTF-8 encoding of `t` takes.
pub open spec fn text_bytes(t: Seq<char>) -> nat {
    encode_utf8(t).len()
}

/// The encoding of a scalar has the width that its range gives.
pub proof fn lemma_scalar_width(c: char)
    ensures
        encode_scalar(c as u32).len() == scalar_width(c),
        encode_utf8(seq![c]) == encode_scalar(c as u32),
        text_bytes(seq![c]) == scalar_width(c),
{
    vstd::utf8::char_is_scalar(c);
    assert(encode_utf8(seq![c].drop_first()) =~= Seq::<u8>::empty());
}

/// The encoding of text is the encoding of its parts, one after the other.
pub proof fn lemma_encode_concat(a: Seq<char>, b: Seq<char>)
    ensures
        encode_utf8(a + b) == encode_utf8(a) + encode_utf8(b),
        text_bytes(a + b) == text_bytes(a) + text_bytes(b),
    decreases a.len(),
{
    if a.len() > 0 {
        assert((a + b).drop_first() =~= a.drop_first() + b);
        lemma_encode_concat(a.drop_first(), b);
    }
}

/// Appending a character adds its width to the encoded length.
pub proof fn lemma_text_bytes_push(t: Seq<char>, c: char)
    ensures
        text_bytes(t.push(c)) == text_bytes(t) + scalar_width(c),
{
    assert(t.push(c) =~= t + seq![c]);
    lemma_encode_concat(t, seq![c]);
    lemma_scalar_width(c);
}

/// Text takes at least one byte for each character, and none when it is
/// empty.
pub proof fn lemma_text_bytes_bounds(t: Seq<char>)
    ensures
        t.len() <= text_bytes(t),
        t.len() == 0 ==> text_bytes(t) == 0,
    decreases t.len(),
{
    if t.len() > 0 {
        lemma_text_bytes_bounds(t.drop_last());
        assert(t =~= t.drop_last().push(t.last()));
        lemma_text_bytes_push(t.drop_last(), t.last());
    }
}

/// `heapless::String::new`: a string that holds nothing.
#[verifier::external_body]
fn string_new() -> (s: heapless::String<MAX_TOKEN_BYTES>)
    ensures
        string_text(s) == Seq::<char>::empty(),
{
    heapless::String::new()
}

/// `heapless::String::push`: appends `c` when its encoding fits into the
/// bytes that are left, and otherwise leaves the string as it was. It does
/// not panic.
#[verifier::external_body]
fn string_push(s: &mut heapless::String<MAX_TOKEN_BYTES>, c: char) -> (stored: bool)
    ensures
        stored <==> text_bytes(string_text(*old(s))) + scalar_width(c) <= MAX_TOKEN_BYTES,
        stored ==> string_text(*final(s)) == string_text(*old(s)).push(c),
        !stored ==> string_text(*final(s)) == string_text(*old(s)),
    no_unwind
{
    s.push(c).is_ok()
}

/// `heapless::String::clear`: removes every character. It does not panic.
#[verifier::external_body]
fn string_clear(s: &mut heapless::String<MAX_TOKEN_BYTES>)
    ensures
        string_text(*final(s)) == Seq::<char>::empty(),
    no_unwind
{
    s.clear()
}

/// `heapless::String::as_str`: the characters held, as a string slice.
#[verifier::external_body]
fn string_as_str(s: &heapless::String<MAX_TOKEN_BYTES>) -> (r: &str)
    ensures
        r@ == string_text(*s),
{
    s.as_str()
}

/// `Clone::clone` of `heapless::String`: a string with the same characters.
#[verifier::external_body]
fn string_clone(s: &heapless::String<MAX_TOKEN_BYTES>) -> (r: heapless::String<MAX_TOKEN_BYTES>)
    ensures
        string_text(r) == string_text(*s),
{
    s.clone()
}

/// The number of bytes that the UTF-8 encoding of `c` takes.
pub fn width_of(c: char) -> (w: usize)
    ensures
        w == scalar_width(c),
        1 <= w <= 4,
{
    let v: u32 = c as u32;
    if v < 0x80 {
        1
    } else if v < 0x800 {
        2
    } else if v < 0x10000 {
        3
    } else {
        4
    }
}

/// Text whose UTF-8 encoding takes at most `N` bytes, and never more than
/// [`MAX_TOKEN_BYTES`].
///
/// Its view is the sequence of characters it holds.
#[derive(Debug)]
pub struct TokenText<const N: usize> {
    buf: heapless::String<MAX_TOKEN_BYTES>,
}

impl<const N: usize> TokenText<N> {
    /// The characters held, in order.
    pub closed spec fn view(&self) -> Seq<char> {
        string_text(self.buf)
    }

    /// The number of bytes of UTF-8 that the text can hold.
    pub open spec fn spec_capacity() -> nat {
        if N <= MAX_TOKEN_BYTES {
            N as nat
        } else {
            MAX_TOKEN_BYTES as nat
        }
    }

    /// The text fits its capacity.
    #[verifier::type_invariant]
    spec fn fits(&self) -> bool {
        text_bytes(self@) <= Self::spec_capacity()
    }

    /// Empty text.
    pub fn new() -> (r: Self)
        ensures
            r@ == Seq::<char>::empty(),
    {
        let buf = string_new();
        proof {
            lemma_text_bytes_bounds(string_text(buf));
        }
        TokenText { buf }
    }

    /// The number of bytes of UTF-8 that the text can hold.
    pub fn capacity(&self) -> (n: usize)
        ensures
            n == Self::spec_capacity(),
    {
        if N <= MAX_TOKEN_BYTES {
            N
        } else {
            MAX_TOKEN_BYTES
        }
    }

    /// The number of bytes that the UTF-8 encoding of the text takes, which
    /// is never more than the capacity.
    pub fn len(&self) -> (n: usize)
        ensures
            n == text_bytes(self@),
            n <= Self::spec_capacity(),
    {
        proof {
            use_type_invariant(self);
        }
        string_as_str(&self.buf).len()
    }

    /// Whether the text holds no character.
    pub fn is_empty(&self) -> (b: bool)
        ensures
            b <==> self@.len() == 0,
    {
        string_as_str(&self.buf).is_empty()
    }

    /// The characters held, as a string slice.
    pub fn as_str(&self) -> (r: &str)
        ensures
            r@ == self@,
    {
        string_as_str(&self.buf)
    }

    /// Appends `c`, or reports that its encoding does not fit into the bytes
    /// that are left and leaves the text as it was.
    pub fn push(&mut self, c: char) -> (r: Result<(), Error>)
        ensures
            text_bytes(old(self)@) + scalar_width(c) <= Self::spec_capacity() ==> r.is_ok()
                && final(self)@ == old(self)@.push(c),
            text_bytes(old(self)@) + scalar_width(c) > Self::spec_capacity() ==> r == Err::<
                (),
                Error,
            >(Error::CapacityExceeded) && final(self)@ == old(self)@,
    {
        if self.len() + width_of(c) > self.capacity() {
            return Err(Error::CapacityExceeded);
        }
        proof {
            lemma_text_bytes_push(self@, c);
        }
        if string_push(&mut self.buf, c) {
            Ok(())
        } else {
            Err(Error::CapacityExceeded)
        }
    }

    /// Removes every character.
    pub fn clear(&mut self)
        ensures
            final(self)@ == Seq::<char>::empty(),
    {
        proof {
            lemma_text_bytes_bounds(Seq::<char>::empty());
        }
        string_clear(&mut self.buf);
    }

    /// Hands out the text and leaves `self` empty.
    pub fn take(&mut self) -> (r: Self)
        ensures
            r@ == old(self)@,
            final(self)@ == Seq::<char>::empty(),
    {
        let mut out = TokenText::new();
        core::mem::swap(self, &mut out);
        out
    }
}

impl<const N: usize> Clone for TokenText<N> {
    /// Text with the same characters.
    fn clone(&self) -> (r: Self)
        ensures
            r@ == self@,
    {
        proof {
            use_type_invariant(self);
        }
        TokenText { buf: string_clone(&self.buf) }
    }
}

} // verus!
