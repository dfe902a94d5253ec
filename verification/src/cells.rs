//! Byte-string cells: the cell values of a CSV table, and helpers on them.
//!
//! A cell is a `Vec<u8>`; column names are compared byte for byte, so all
//! reasoning is over `Seq<u8>`.

use vstd::prelude::*;

verus! {

broadcast use crate::views::lemma_cell_dv, crate::views::lemma_row_dv;

/// Byte-exact equality of two cells.
pub fn cells_eq(a: &Vec<u8>, b: &Vec<u8>) -> (r: bool)
    ensures
        r == (a@ == b@),
{
    if a.len() != b.len() {
        return false;
    }
    let mut i: usize = 0;
    while i < a.len()
        invariant
            a@.len() == b@.len(),
            i <= a@.len(),
            forall|k: int| 0 <= k < i ==> a@[k] == b@[k],
        decreases a@.len() - i,
    {
        if a[i] != b[i] {
            return false;
        }
        i = i + 1;
    }
    proof {
        assert(a@ =~= b@);
    }
    true
}

/// Copies one cell.
pub fn copy_cell(c: &Vec<u8>) -> (r: Vec<u8>)
    ensures
        r@ == c@,
{
    let mut out: Vec<u8> = Vec::new();
    let mut i: usize = 0;
    while i < c.len()
        invariant
            i <= c@.len(),
            out@ == c@.take(i as int),
        decreases c@.len() - i,
    {
        out.push(c[i]);
        proof {
            assert(out@ =~= c@.take(i as int + 1));
        }
        i = i + 1;
    }
    proof {
        assert(c@.take(c@.len() as int) =~= c@);
    }
    out
}

/// Copies a row of cells.
pub fn copy_row(row: &Vec<Vec<u8>>) -> (r: Vec<Vec<u8>>)
    ensures
        r.deep_view() == row.deep_view(),
{
    let mut out: Vec<Vec<u8>> = Vec::new();
    let mut i: usize = 0;
    while i < row.len()
        invariant
            i <= row@.len(),
            out.deep_view() == row.deep_view().take(i as int),
        decreases row@.len() - i,
    {
        let cell = copy_cell(&row[i]);
        let ghost prev = out.deep_view();
        let ghost prev_v = out@;
        out.push(cell);
        proof {
            assert(prev.len() == i as int);
            assert(prev == Seq::new(prev_v.len(), |k: int| prev_v[k].deep_view()));
            assert(prev_v.len() == i as int);
            assert(out@.len() == i as int + 1);
            assert forall|k: int| 0 <= k < i as int + 1 implies out.deep_view()[k]
                == row.deep_view().take(i as int + 1)[k] by {
                assert(out.deep_view()[k] == out@[k].deep_view());
                if k < i as int {
                    assert(out@[k] == prev_v[k]);
                    assert(prev[k] == prev_v[k].deep_view());
                    assert(prev[k] == row.deep_view().take(i as int)[k]);
                } else {
                    assert(out@[k]@ == row@[k]@);
                }
            }
            assert(out.deep_view() =~= row.deep_view().take(i as int + 1));
        }
        i = i + 1;
    }
    proof {
        assert(row.deep_view().take(row@.len() as int) =~~= row.deep_view());
    }
    out
}

} // verus!
