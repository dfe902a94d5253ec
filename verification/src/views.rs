//! Small facts about the deep views of the byte tables the library works on.
//!
//! A cell is a `Vec<u8>`, a row or header a `Vec<Vec<u8>>`, a table (one
//! parsed file) a `Vec<Vec<Vec<u8>>>`, and a directory's worth of tables a
//! `Vec<Vec<Vec<Vec<u8>>>>`. These lemmas relate each level's deep view to
//! the views of its elements.

use vstd::prelude::*;

verus! {

/// The deep view of a byte vector is its ordinary view.
pub broadcast proof fn lemma_cell_dv(v: Vec<u8>)
    ensures
        #[trigger] v.deep_view() == v@,
{
    assert(v.deep_view() =~= v@);
}

/// The deep view of a row indexes to the views of its cells.
pub broadcast proof fn lemma_row_dv(v: Vec<Vec<u8>>)
    ensures
        (#[trigger] v.deep_view()).len() == v@.len(),
        forall|k: int| 0 <= k < v@.len() ==> #[trigger] v.deep_view()[k] == v@[k]@,
{
    assert(v.deep_view() == Seq::new(v@.len(), |i: int| v@[i].deep_view()));
    assert forall|k: int| 0 <= k < v@.len() implies #[trigger] v.deep_view()[k] == v@[k]@ by {
        lemma_cell_dv(v@[k]);
    }
}

/// The deep view of a table indexes to the deep views of its rows.
pub broadcast proof fn lemma_table_dv(v: Vec<Vec<Vec<u8>>>)
    ensures
        (#[trigger] v.deep_view()).len() == v@.len(),
        forall|k: int| 0 <= k < v@.len() ==> #[trigger] v.deep_view()[k] == v@[k].deep_view(),
{
    assert(v.deep_view() == Seq::new(v@.len(), |i: int| v@[i].deep_view()));
}

/// The deep view of a sequence of tables indexes to the deep views of the tables.
pub broadcast proof fn lemma_tables_dv(v: Vec<Vec<Vec<Vec<u8>>>>)
    ensures
        (#[trigger] v.deep_view()).len() == v@.len(),
        forall|k: int| 0 <= k < v@.len() ==> #[trigger] v.deep_view()[k] == v@[k].deep_view(),
{
    assert(v.deep_view() == Seq::new(v@.len(), |i: int| v@[i].deep_view()));
}

} // verus!
