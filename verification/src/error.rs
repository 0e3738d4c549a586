//! The conditions under which an operation does not complete.

use vstd::prelude::*;

verus! {

/// A fatal condition met while turning bytes into tokens or while queueing
/// bytes.
#[derive(Clone, Copy, Debug, PartialEq, Eq, Structural)]
pub enum Error {
    /// A byte that cannot start a scalar, or a multi-byte sequence that is
    /// not the UTF-8 encoding of a Unicode scalar value.
    InvalidEncoding,
    /// A bounded buffer has no room for what was to be added.
    CapacityExceeded,
}

/// Why a non-blocking operation did not complete.
#[derive(Debug, PartialEq, Eq)]
pub enum Blocked<E> {
    /// Nothing more can be done right now; the same call may succeed later.
    WouldBlock,
    /// A fatal condition.
    Other(E),
}

} // verus!
