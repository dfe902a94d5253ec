//! Header diagnostics: how a file's header relates to the canonical one.
//! The classification is observational only; it never changes what is
//! merged.

use vstd::prelude::*;
use crate::cells::cells_eq;
use crate::cells::copy_cell;

verus! {

broadcast use crate::views::lemma_cell_dv, crate::views::lemma_row_dv;

/// How one file's header compares to the canonical header.
pub enum HeaderDiag {
    /// The headers are identical, name for name and in the same order.
    Same,
    /// The headers hold the same set of names in a different order.
    OrderDiffers,
    /// The memberships differ: `missing` holds the canonical names absent
    /// from the file, `extra` the file names absent from canonical, each in
    /// first-occurrence order and without repetition.
    Mismatch { missing: Vec<Vec<u8>>, extra: Vec<Vec<u8>> },
}

/// The names of `a` that do not occur in `b`: first occurrences only, in
/// `a`'s order.
pub open spec fn names_not_in(a: Seq<Seq<u8>>, b: Seq<Seq<u8>>) -> Seq<Seq<u8>>
    decreases a.len(),
{
    if a.len() == 0 {
        Seq::empty()
    } else {
        names_not_in(a.drop_last(), b) + (if b.contains(a.last()) || a.drop_last().contains(
            a.last(),
        ) {
            Seq::<Seq<u8>>::empty()
        } else {
            seq![a.last()]
        })
    }
}

/// Both headers hold exactly the same set of names.
pub open spec fn same_names(a: Seq<Seq<u8>>, b: Seq<Seq<u8>>) -> bool {
    (forall|k: int| 0 <= k < a.len() ==> b.contains(#[trigger] a[k])) && (forall|k: int|
        0 <= k < b.len() ==> a.contains(#[trigger] b[k]))
}

/// `names_not_in(a, b)` is empty exactly when every name of `a` occurs in `b`.
pub proof fn lemma_names_not_in_empty(a: Seq<Seq<u8>>, b: Seq<Seq<u8>>)
    ensures
        names_not_in(a, b).len() == 0 <==> (forall|k: int|
            0 <= k < a.len() ==> b.contains(#[trigger] a[k])),
    decreases a.len(),
{
    if a.len() == 0 {
    } else {
        lemma_names_not_in_empty(a.drop_last(), b);
        if names_not_in(a, b).len() == 0 {
            assert(names_not_in(a.drop_last(), b).len() == 0);
            assert forall|k: int| 0 <= k < a.len() implies b.contains(#[trigger] a[k]) by {
                if k < a.len() - 1 {
                    assert(a.drop_last()[k] == a[k]);
                } else {
                    if !b.contains(a.last()) {
                        assert(a.drop_last().contains(a.last()));
                        let j = choose|j: int|
                            0 <= j < a.drop_last().len() && a.drop_last()[j] == a.last();
                        assert(b.contains(a.drop_last()[j]));
                    }
                }
            }
        } else {
            if forall|k: int| 0 <= k < a.len() ==> b.contains(#[trigger] a[k]) {
                assert forall|k: int| 0 <= k < a.drop_last().len() implies b.contains(
                    #[trigger] a.drop_last()[k],
                ) by {
                    assert(a.drop_last()[k] == a[k]);
                }
                assert(names_not_in(a.drop_last(), b).len() == 0);
                assert(b.contains(a.last()));
            }
        }
    }
}

/// True when `x` occurs among the first `limit` rows of `v`.
fn contains_cell(v: &Vec<Vec<u8>>, limit: usize, x: &Vec<u8>) -> (r: bool)
    requires
        limit <= v@.len(),
    ensures
        r == v.deep_view().take(limit as int).contains(x@),
{
    let ghost pre = v.deep_view().take(limit as int);
    let mut i: usize = 0;
    while i < limit
        invariant
            i <= limit <= v@.len(),
            pre == v.deep_view().take(limit as int),
            forall|k: int| 0 <= k < i ==> pre[k] != x@,
        decreases limit - i,
    {
        if cells_eq(&v[i], x) {
            proof {
                assert(pre[i as int] == x@);
            }
            return true;
        }
        i = i + 1;
    }
    proof {
        assert(!pre.contains(x@));
    }
    false
}

/// The names of `a` missing from `b`, first occurrences in order.
fn diff_names(a: &Vec<Vec<u8>>, b: &Vec<Vec<u8>>) -> (r: Vec<Vec<u8>>)
    ensures
        r.deep_view() == names_not_in(a.deep_view(), b.deep_view()),
{
    let ghost av = a.deep_view();
    let ghost bv = b.deep_view();
    let mut out: Vec<Vec<u8>> = Vec::new();
    let mut i: usize = 0;
    while i < a.len()
        invariant
            i <= a@.len(),
            av == a.deep_view(),
            bv == b.deep_view(),
            av.len() == a@.len(),
            out.deep_view() == names_not_in(av.take(i as int), bv),
        decreases a@.len() - i,
    {
        let in_b = contains_cell(b, b.len(), &a[i]);
        let seen = contains_cell(a, i, &a[i]);
        proof {
            assert(bv.take(b@.len() as int) =~= bv);
            assert(av.take(i as int + 1).drop_last() =~= av.take(i as int));
            assert(av.take(i as int + 1).last() == av[i as int]);
        }
        if !in_b && !seen {
            let ghost prev = out.deep_view();
            out.push(copy_cell(&a[i]));
            proof {
                assert(out.deep_view() == Seq::new(out@.len(), |k: int| out@[k].deep_view()));
                assert(out.deep_view() =~= prev + seq![av[i as int]]);
                assert(out.deep_view() =~= names_not_in(av.take(i as int + 1), bv));
            }
        } else {
            proof {
                assert(out.deep_view() + Seq::<Seq<u8>>::empty() =~= out.deep_view());
                assert(out.deep_view() =~= names_not_in(av.take(i as int + 1), bv));
            }
        }
        i = i + 1;
    }
    proof {
        assert(av.take(a@.len() as int) =~= av);
    }
    out
}

/// Compares two headers cell for cell.
pub fn headers_eq(a: &Vec<Vec<u8>>, b: &Vec<Vec<u8>>) -> (r: bool)
    ensures
        r == (a.deep_view() == b.deep_view()),
{
    if a.len() != b.len() {
        proof {
            assert(a.deep_view().len() != b.deep_view().len());
        }
        return false;
    }
    let mut i: usize = 0;
    while i < a.len()
        invariant
            a@.len() == b@.len(),
            i <= a@.len(),
            forall|k: int| 0 <= k < i ==> a.deep_view()[k] == b.deep_view()[k],
        decreases a@.len() - i,
    {
        if !cells_eq(&a[i], &b[i]) {
            proof {
                assert(a.deep_view()[i as int] != b.deep_view()[i as int]);
            }
            return false;
        }
        i = i + 1;
    }
    proof {
        assert(a.deep_view() =~= b.deep_view());
    }
    true
}

/// Classifies a file's header against the canonical one, as the merge's
/// console diagnostics report it: identical headers pass silently, equal
/// name sets in another order are an informational notice, and any
/// difference in membership is a warning naming the missing and the extra
/// columns.
pub fn header_diagnostic(canonical: &Vec<Vec<u8>>, file_hdr: &Vec<Vec<u8>>) -> (r: HeaderDiag)
    ensures
        match r {
            HeaderDiag::Same => canonical.deep_view() == file_hdr.deep_view(),
            HeaderDiag::OrderDiffers => canonical.deep_view() != file_hdr.deep_view()
                && same_names(canonical.deep_view(), file_hdr.deep_view()),
            HeaderDiag::Mismatch { missing, extra } => {
                &&& canonical.deep_view() != file_hdr.deep_view()
                &&& !same_names(canonical.deep_view(), file_hdr.deep_view())
                &&& missing.deep_view() == names_not_in(
                    canonical.deep_view(),
                    file_hdr.deep_view(),
                )
                &&& extra.deep_view() == names_not_in(file_hdr.deep_view(), canonical.deep_view())
            },
        },
{
    let ghost cv = canonical.deep_view();
    let ghost fv = file_hdr.deep_view();
    if headers_eq(canonical, file_hdr) {
        return HeaderDiag::Same;
    }
    let missing = diff_names(canonical, file_hdr);
    let extra = diff_names(file_hdr, canonical);
    proof {
        lemma_names_not_in_empty(cv, fv);
        lemma_names_not_in_empty(fv, cv);
    }
    if missing.len() == 0 && extra.len() == 0 {
        proof {
            assert(missing.deep_view().len() == 0);
            assert(extra.deep_view().len() == 0);
        }
        HeaderDiag::OrderDiffers
    } else {
        proof {
            if missing@.len() != 0 {
                assert(names_not_in(cv, fv).len() != 0);
            } else {
                assert(names_not_in(fv, cv).len() != 0);
            }
        }
        HeaderDiag::Mismatch { missing, extra }
    }
}

} // verus!
