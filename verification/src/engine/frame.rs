//! Framing of spilled run files.
//!
//! A run file is `[u64 LE record_count]` followed by `record_count`
//! length-prefixed rows (`[u32 LE len][payload]`). The count header is
//! written last, via a seek back, so a merge that dedups (and so does not
//! know its output length up front) can still produce a well-formed run.

use vstd::bytes::{
    spec_u32_from_le_bytes,
    spec_u32_to_le_bytes,
    spec_u64_from_le_bytes,
    spec_u64_to_le_bytes,
    u32_from_le_bytes,
    u32_to_le_bytes,
    u64_from_le_bytes,
    u64_to_le_bytes,
};
use vstd::prelude::*;

use crate::error::SorterError;

verus! {

/// Bytes of the record-count header at the start of a run file.
pub const RUN_HEADER_BYTES: usize = 8;

/// Bytes of the length prefix in front of every row.
pub const FRAME_LEN_BYTES: usize = 4;

/// The header of a run holding `count` rows.
pub fn encode_run_header(count: u64) -> (header: Vec<u8>)
    ensures
        header@ == spec_u64_to_le_bytes(count),
        header@.len() == RUN_HEADER_BYTES,
{
    proof {
        vstd::bytes::lemma_auto_spec_u64_to_from_le_bytes();
    }
    u64_to_le_bytes(count)
}

/// The row count a run header records.
pub fn decode_run_header(header: &[u8]) -> (count: u64)
    requires
        header@.len() == RUN_HEADER_BYTES,
    ensures
        count == spec_u64_from_le_bytes(header@),
{
    u64_from_le_bytes(header)
}

/// Frame one encoded row: its length as four little-endian bytes, then the
/// row itself. A row longer than `u32::MAX` bytes cannot be framed.
pub fn frame_row(payload: &Vec<u8>) -> (framed: Result<Vec<u8>, SorterError>)
    ensures
        payload@.len() <= u32::MAX <==> framed is Ok,
        framed matches Ok(bytes) ==> bytes@ == spec_u32_to_le_bytes(payload@.len() as u32)
            + payload@,
        framed matches Err(e) ==> (e matches SorterError::Encode(message) && message@
            == "run row too large: out of range integral type conversion attempted"@),
{
    let len = payload.len();
    if len as u128 > u32::MAX as u128 {
        return Err(SorterError::Encode(String::from_str("run row too large: out of range integral type conversion attempted")));
    }
    let mut bytes = u32_to_le_bytes(len as u32);
    let ghost prefix = bytes@;
    let mut i: usize = 0;
    while i < len
        invariant
            i <= len,
            len == payload@.len(),
            bytes@ == prefix + payload@.take(i as int),
        decreases len - i,
    {
        bytes.push(payload[i]);
        i = i + 1;
        assert(bytes@ =~= prefix + payload@.take(i as int));
    }
    assert(payload@.take(len as int) =~= payload@);
    Ok(bytes)
}

/// The row length a length prefix records.
pub fn decode_frame_len(prefix: &[u8]) -> (len: usize)
    requires
        prefix@.len() == FRAME_LEN_BYTES,
    ensures
        len == spec_u32_from_le_bytes(prefix@),
{
    u32_from_le_bytes(prefix) as usize
}

/// Law: a run header reads back as the count it was written with, and a
/// length prefix reads back as the length it was written with.
pub proof fn law_frame_round_trip(count: u64, len: u32)
    ensures
        spec_u64_from_le_bytes(spec_u64_to_le_bytes(count)) == count,
        spec_u64_to_le_bytes(count).len() == RUN_HEADER_BYTES,
        spec_u32_from_le_bytes(spec_u32_to_le_bytes(len)) == len,
        spec_u32_to_le_bytes(len).len() == FRAME_LEN_BYTES,
{
    vstd::bytes::lemma_auto_spec_u64_to_from_le_bytes();
    vstd::bytes::lemma_auto_spec_u32_to_from_le_bytes();
    assert(spec_u32_to_le_bytes(len).len() == 4);
    assert(spec_u64_to_le_bytes(count).len() == 8);
}

/// The read side of a run: how many rows are still to be read.
pub struct RunCursor {
    remaining: u64,
}

impl View for RunCursor {
    type V = u64;

    closed spec fn view(&self) -> u64 {
        self.remaining
    }
}

impl RunCursor {
    /// A cursor over a run whose header records `count` rows.
    pub fn new(count: u64) -> (c: Self)
        ensures
            c@ == count,
    {
        RunCursor { remaining: count }
    }

    /// Whether another row is still to be read.
    pub fn has_next(&self) -> (r: bool)
        ensures
            r == (self@ > 0),
    {
        self.remaining > 0
    }

    /// Record that one row was read and decoded.
    pub fn row_read(&mut self)
        requires
            old(self)@ > 0,
        ensures
            final(self)@ == old(self)@ - 1,
    {
        self.remaining = self.remaining - 1;
    }
}

} // verus!
