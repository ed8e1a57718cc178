//! A byte-oriented file inspection library: renders binary data as aligned
//! rows of hexadecimal byte groups beside a printable-character column, in
//! the style of a classic hex dump. Supports configurable word grouping,
//! partial inspection via offset and limit, and elision of repeated all-zero
//! rows.

use vstd::prelude::*;

pub mod engine;
pub mod laws;
pub mod line;
pub mod num;
pub mod render;

verus! {

/// Number of bytes displayed per output row.
pub const LINE_BYTES: usize = 16;

/// True when every byte of `s` is zero.
pub open spec fn all_zero_seq(s: Seq<u8>) -> bool {
    forall|i: int| 0 <= i < s.len() ==> s[i] == 0
}

/// Returns true if all bytes in the slice are zero.
pub fn all_zero(line: &[u8]) -> (r: bool)
    ensures
        r == all_zero_seq(line@),
{
    let mut i: usize = 0;
    while i < line.len()
        invariant
            0 <= i <= line@.len(),
            forall|j: int| 0 <= j < i ==> line@[j] == 0,
        decreases line@.len() - i,
    {
        if line[i] != 0 {
            return false;
        }
        i = i + 1;
    }
    true
}

} // verus!
