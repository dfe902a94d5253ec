//! Stripping a leading UTF-8 byte-order mark from the first header cell.

use vstd::prelude::*;
use crate::cells::copy_cell;

verus! {

broadcast use crate::views::lemma_cell_dv, crate::views::lemma_row_dv;

/// True when the cell starts with the UTF-8 byte-order mark `EF BB BF`.
pub open spec fn has_bom(c: Seq<u8>) -> bool {
    c.len() >= 3 && c[0] == 0xef && c[1] == 0xbb && c[2] == 0xbf
}

/// The cell with a leading byte-order mark removed, if one is present.
pub open spec fn bom_stripped_cell(c: Seq<u8>) -> Seq<u8> {
    if has_bom(c) {
        c.skip(3)
    } else {
        c
    }
}

/// The header with a leading byte-order mark removed from its first cell
/// only; every other cell, and the cell count, are unchanged.
pub open spec fn bom_stripped(hdr: Seq<Seq<u8>>) -> Seq<Seq<u8>> {
    if hdr.len() == 0 {
        hdr
    } else {
        hdr.update(0, bom_stripped_cell(hdr[0]))
    }
}

/// Stripping the byte-order mark never changes the number of columns.
pub proof fn lemma_bom_stripped_len(hdr: Seq<Seq<u8>>)
    ensures
        bom_stripped(hdr).len() == hdr.len(),
{
}

/// Removes a leading byte-order mark from one cell.
fn strip_bom_cell(c: &Vec<u8>) -> (r: Vec<u8>)
    ensures
        r@ == bom_stripped_cell(c@),
{
    let start: usize = if c.len() >= 3 && c[0] == 0xef && c[1] == 0xbb && c[2] == 0xbf {
        3
    } else {
        0
    };
    let mut out: Vec<u8> = Vec::new();
    let mut i: usize = start;
    while i < c.len()
        invariant
            start <= i <= c@.len(),
            out@ == c@.subrange(start as int, i as int),
        decreases c@.len() - i,
    {
        out.push(c[i]);
        proof {
            assert(out@ =~= c@.subrange(start as int, i as int + 1));
        }
        i = i + 1;
    }
    proof {
        if start == 3 {
            assert(out@ =~= c@.skip(3));
        } else {
            assert(out@ =~= c@);
        }
    }
    out
}

/// Returns the header with a byte-order mark removed from the first cell if
/// one is present; other cells are copied unchanged.
pub fn strip_bom(hdr: &Vec<Vec<u8>>) -> (r: Vec<Vec<u8>>)
    ensures
        r.deep_view() == bom_stripped(hdr.deep_view()),
{
    let mut out: Vec<Vec<u8>> = Vec::new();
    let mut i: usize = 0;
    while i < hdr.len()
        invariant
            i <= hdr@.len(),
            out.deep_view() == bom_stripped(hdr.deep_view()).take(i as int),
        decreases hdr@.len() - i,
    {
        let cell = if i == 0 {
            strip_bom_cell(&hdr[0])
        } else {
            copy_cell(&hdr[i])
        };
        let ghost prev = out.deep_view();
        out.push(cell);
        proof {
            assert(out.deep_view() == Seq::new(out@.len(), |k: int| out@[k].deep_view()));
            assert(out.deep_view() =~= bom_stripped(hdr.deep_view()).take(i as int + 1));
        }
        i = i + 1;
    }
    proof {
        assert(bom_stripped(hdr.deep_view()).take(hdr@.len() as int) =~= bom_stripped(
            hdr.deep_view(),
        ));
    }
    out
}

} // verus!
