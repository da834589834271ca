//! Failures the sort governor and its execution engine can surface.

use vstd::prelude::*;

verus! {

/// `async_fs_io::FsError`, the error of the filesystem layer. It is opaque
/// here: the library only carries it inside [`SorterError::Io`] and claims
/// nothing about its contents.
#[verifier::external_type_specification]
#[verifier::external_body]
pub struct ExFsError(async_fs_io::FsError);

/// An error raised while admitting, spilling, reading, or merging a sort.
#[derive(Debug)]
pub enum SorterError {
    /// A spill file or scratch directory could not be created, written,
    /// read, or removed.
    Io(async_fs_io::FsError),
    /// A run row could not be encoded for spilling.
    Encode(String),
    /// A run row could not be decoded from a spill file.
    Decode(String),
    /// The governor is no longer running (its task ended or every handle
    /// was dropped), so the sort could not be admitted.
    Gone,
    /// Every spill-run ordinal of the session has been used; no further run
    /// can be named without reusing one.
    RunOrdinalExhausted,
    /// An earlier spill of this session failed, so the session accepts no
    /// further rows and yields no partial results.
    Poisoned,
}

} // verus!
