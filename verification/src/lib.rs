//! Merges per-directory collections of CSV tables into single consolidated
//! outputs, aligning every file's columns to a canonical header taken from
//! the first file of each directory.

pub mod bom;
pub mod cells;
pub mod csv_io;
pub mod diag;
pub mod mapping;
pub mod merge;
pub mod names;
pub mod views;

use vstd::prelude::*;

verus! {

/// The delimiter as a single byte, for any ASCII character; a non-ASCII
/// delimiter is rejected.
pub fn delimiter_byte(c: char) -> (r: Option<u8>)
    ensures
        match r {
            Some(b) => (c as u32) < 128 && (b as u32) == (c as u32),
            None => (c as u32) >= 128,
        },
{
    let code = c as u32;
    if code < 128 {
        Some(code as u8)
    } else {
        None
    }
}

} // verus!
