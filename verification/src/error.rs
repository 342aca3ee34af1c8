//! Failure classes surfaced by the encryption layer.

use vstd::prelude::*;

verus! {

/// What went wrong, as far as a caller may learn it.
///
/// Authentication failures and invalid text decodings share one kind on
/// purpose: both mean a corrupted, tampered or foreign-key record, and
/// distinguishing them would leak an oracle.
#[derive(Clone, Copy, Debug, PartialEq, Eq, Structural)]
pub enum ErrorKind {
    /// The input is shorter than the minimum its structure requires.
    Length,
    /// Authenticated decryption failed, or decrypted text was not valid UTF-8,
    /// or the cipher refused an input.
    Encryption,
    /// The textual key-bundle encoding is malformed.
    Format,
}

/// An error of this library; it carries only its failure class.
#[derive(Clone, Copy, Debug, PartialEq, Eq, Structural)]
pub struct Error {
    pub kind: ErrorKind,
}

} // verus!
