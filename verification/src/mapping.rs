//! The column mapping: for each canonical column, the position of the
//! same-named column in a file's header, or absent; and the realignment of
//! one data row through that mapping.

use vstd::prelude::*;
use crate::cells::cells_eq;

verus! {

broadcast use crate::views::lemma_cell_dv, crate::views::lemma_row_dv;

/// The first index at or after `from` where `hdr` holds `name`, or `None`.
pub open spec fn first_match_from(hdr: Seq<Seq<u8>>, name: Seq<u8>, from: int) -> Option<int>
    decreases hdr.len() - from,
{
    if from < 0 || from >= hdr.len() {
        None
    } else if hdr[from] == name {
        Some(from)
    } else {
        first_match_from(hdr, name, from + 1)
    }
}

/// The index of the first column of `hdr` named `name`, or `None` when no
/// column carries that exact name.
pub open spec fn col_index(hdr: Seq<Seq<u8>>, name: Seq<u8>) -> Option<int> {
    first_match_from(hdr, name, 0)
}

/// The column mapping: position `i` holds the index in `file_hdr` of the
/// column named `canonical[i]`, or `None` when that name is absent.
pub open spec fn mapping_of(canonical: Seq<Seq<u8>>, file_hdr: Seq<Seq<u8>>) -> Seq<Option<int>> {
    Seq::new(canonical.len(), |i: int| col_index(file_hdr, canonical[i]))
}

/// A data row realigned through a mapping: for each canonical position, the
/// mapped cell when the mapping and the row provide one, else empty. The
/// result always has exactly the mapping's length.
pub open spec fn mapped_row(map: Seq<Option<int>>, rec: Seq<Seq<u8>>) -> Seq<Seq<u8>> {
    Seq::new(
        map.len(),
        |i: int|
            match map[i] {
                Some(j) => if 0 <= j < rec.len() {
                    rec[j]
                } else {
                    Seq::empty()
                },
                None => Seq::empty(),
            },
    )
}

proof fn lemma_first_match_from_spec(hdr: Seq<Seq<u8>>, name: Seq<u8>, from: int)
    requires
        from >= 0,
    ensures
        match first_match_from(hdr, name, from) {
            Some(j) => from <= j < hdr.len() && hdr[j] == name && (forall|k: int|
                from <= k < j ==> hdr[k] != name),
            None => forall|k: int| from <= k < hdr.len() ==> hdr[k] != name,
        },
    decreases hdr.len() - from,
{
    if from < 0 || from >= hdr.len() {
    } else if hdr[from] == name {
    } else {
        lemma_first_match_from_spec(hdr, name, from + 1);
    }
}

/// Column identity is exact: `col_index` returns a position exactly when
/// that position's name is byte-for-byte equal to the one sought — no case
/// folding and no whitespace trimming — and it is the first such position.
pub proof fn lemma_col_index_exact(hdr: Seq<Seq<u8>>, name: Seq<u8>)
    ensures
        match col_index(hdr, name) {
            Some(j) => 0 <= j < hdr.len() && hdr[j] == name && (forall|k: int|
                0 <= k < j ==> hdr[k] != name),
            None => forall|k: int| 0 <= k < hdr.len() ==> hdr[k] != name,
        },
{
    lemma_first_match_from_spec(hdr, name, 0);
}

/// The index in `file_hdr` of the first column named `name`, or `None`.
pub fn find_col(file_hdr: &Vec<Vec<u8>>, name: &Vec<u8>) -> (r: Option<usize>)
    ensures
        match r {
            Some(j) => col_index(file_hdr.deep_view(), name@) == Some(j as int),
            None => col_index(file_hdr.deep_view(), name@) is None,
        },
{
    let ghost hdr = file_hdr.deep_view();
    let mut i: usize = 0;
    while i < file_hdr.len()
        invariant
            i <= file_hdr@.len(),
            hdr == file_hdr.deep_view(),
            hdr.len() == file_hdr@.len(),
            col_index(hdr, name@) == first_match_from(hdr, name@, i as int),
        decreases file_hdr@.len() - i,
    {
        if cells_eq(&file_hdr[i], name) {
            proof {
                assert(hdr[i as int] == name@);
            }
            return Some(i);
        }
        proof {
            assert(hdr[i as int] != name@);
            assert(first_match_from(hdr, name@, i as int) == first_match_from(
                hdr,
                name@,
                i as int + 1,
            ));
        }
        i = i + 1;
    }
    None
}

/// The value of an optional index as a mathematical optional integer.
pub open spec fn opt_as_int(o: Option<usize>) -> Option<int> {
    match o {
        Some(u) => Some(u as int),
        None => None,
    }
}

/// The mapping a vector of optional indices stands for.
pub open spec fn map_view(m: Seq<Option<usize>>) -> Seq<Option<int>> {
    Seq::new(m.len(), |i: int| opt_as_int(m[i]))
}

/// Builds the column mapping from the canonical header to a file's header.
pub fn build_mapping(canonical: &Vec<Vec<u8>>, file_hdr: &Vec<Vec<u8>>) -> (r: Vec<Option<usize>>)
    ensures
        map_view(r@) == mapping_of(canonical.deep_view(), file_hdr.deep_view()),
        r@.len() == canonical.deep_view().len(),
{
    let mut out: Vec<Option<usize>> = Vec::new();
    let mut i: usize = 0;
    while i < canonical.len()
        invariant
            i <= canonical@.len(),
            out@.len() == i,
            forall|k: int|
                0 <= k < i ==> opt_as_int(#[trigger] out@[k]) == mapping_of(
                    canonical.deep_view(),
                    file_hdr.deep_view(),
                )[k],
        decreases canonical@.len() - i,
    {
        out.push(find_col(file_hdr, &canonical[i]));
        i = i + 1;
    }
    proof {
        assert(map_view(out@) =~= mapping_of(canonical.deep_view(), file_hdr.deep_view()));
    }
    out
}

/// Realigns one data row to canonical order through the mapping: absent
/// columns and cells beyond a short (ragged) row become empty cells, and
/// cells of columns outside the mapping are dropped.
pub fn map_record(map: &Vec<Option<usize>>, rec: &Vec<Vec<u8>>) -> (r: Vec<Vec<u8>>)
    ensures
        r.deep_view() == mapped_row(map_view(map@), rec.deep_view()),
        r@.len() == map@.len(),
{
    let ghost goal = mapped_row(map_view(map@), rec.deep_view());
    let mut out: Vec<Vec<u8>> = Vec::new();
    let mut i: usize = 0;
    while i < map.len()
        invariant
            i <= map@.len(),
            goal == mapped_row(map_view(map@), rec.deep_view()),
            goal.len() == map@.len(),
            out.deep_view() == goal.take(i as int),
        decreases map@.len() - i,
    {
        let cell: Vec<u8> = match map[i] {
            Some(j) => {
                if j < rec.len() {
                    crate::cells::copy_cell(&rec[j])
                } else {
                    Vec::new()
                }
            },
            None => Vec::new(),
        };
        proof {
            assert(cell@ == goal[i as int]);
        }
        out.push(cell);
        proof {
            assert(out.deep_view() == Seq::new(out@.len(), |k: int| out@[k].deep_view()));
            assert(out.deep_view() =~= goal.take(i as int + 1));
        }
        i = i + 1;
    }
    proof {
        assert(goal.take(map@.len() as int) =~= goal);
    }
    out
}

} // verus!
