//! Merging one directory's CSV files: the canonical header is the first
//! file's header, byte-order mark stripped, and every data row of every
//! file is realigned to it.

use vstd::prelude::*;
use crate::bom::bom_stripped;
use crate::bom::strip_bom;
use crate::cells::copy_row;
use crate::csv_io::csv_encode;
use crate::csv_io::csv_parse;
use crate::csv_io::encode_csv;
use crate::csv_io::parse_csv;
use crate::mapping::build_mapping;
use crate::mapping::map_record;
use crate::mapping::map_view;
use crate::mapping::mapped_row;
use crate::mapping::mapping_of;

verus! {

broadcast use
    crate::views::lemma_cell_dv,
    crate::views::lemma_row_dv,
    crate::views::lemma_table_dv,
    crate::views::lemma_tables_dv,
;

/// Why a directory's merge produced no output.
#[derive(Clone, Copy, PartialEq, Eq, Structural, Debug)]
pub enum MergeError {
    /// The first file's header has no columns, so there is nothing to merge
    /// to; the directory is skipped with a warning.
    EmptyHeader,
    /// The file at this position in the directory's sorted file list is not
    /// well-formed CSV; the run aborts.
    BadCsv(usize),
}

/// A parsed file's header: its first record, byte-order mark stripped. A
/// file with no records has an empty header.
pub open spec fn file_header(table: Seq<Seq<Seq<u8>>>) -> Seq<Seq<u8>> {
    if table.len() == 0 {
        Seq::empty()
    } else {
        bom_stripped(table[0])
    }
}

/// A parsed file's data rows: everything after the header record.
pub open spec fn file_data(table: Seq<Seq<Seq<u8>>>) -> Seq<Seq<Seq<u8>>> {
    if table.len() == 0 {
        Seq::empty()
    } else {
        table.skip(1)
    }
}

/// The canonical header of a directory: its first file's header.
pub open spec fn canonical_of(tables: Seq<Seq<Seq<Seq<u8>>>>) -> Seq<Seq<u8>> {
    if tables.len() == 0 {
        Seq::empty()
    } else {
        file_header(tables[0])
    }
}

/// One file's data rows realigned to the canonical header.
pub open spec fn table_out_rows(canonical: Seq<Seq<u8>>, table: Seq<Seq<Seq<u8>>>) -> Seq<
    Seq<Seq<u8>>,
> {
    file_data(table).map_values(
        |r: Seq<Seq<u8>>| mapped_row(mapping_of(canonical, file_header(table)), r),
    )
}

/// The first `k` data rows of one file, realigned to the canonical header.
pub open spec fn aligned_prefix(
    canonical: Seq<Seq<u8>>,
    table: Seq<Seq<Seq<u8>>>,
    k: int,
) -> Seq<Seq<Seq<u8>>> {
    file_data(table).take(k).map_values(
        |r: Seq<Seq<u8>>| mapped_row(mapping_of(canonical, file_header(table)), r),
    )
}

/// The realigned data rows of the first `n` files, in file order.
pub open spec fn out_rows_upto(
    canonical: Seq<Seq<u8>>,
    tables: Seq<Seq<Seq<Seq<u8>>>>,
    n: int,
) -> Seq<Seq<Seq<u8>>>
    decreases n,
{
    if n <= 0 {
        Seq::empty()
    } else {
        out_rows_upto(canonical, tables, n - 1) + table_out_rows(canonical, tables[n - 1])
    }
}

/// The full merged output of a directory, row by row: the canonical header
/// first, then every file's realigned data rows, in file order then row
/// order.
pub open spec fn merged_rows(tables: Seq<Seq<Seq<Seq<u8>>>>) -> Seq<Seq<Seq<u8>>> {
    seq![canonical_of(tables)] + out_rows_upto(canonical_of(tables), tables, tables.len() as int)
}

/// The merged output's header row is the canonical header: the first
/// file's header, byte-order mark stripped, names in their original order.
pub proof fn lemma_header_row(tables: Seq<Seq<Seq<Seq<u8>>>>)
    ensures
        merged_rows(tables)[0] == canonical_of(tables),
        tables.len() > 0 && tables[0].len() > 0 ==> merged_rows(tables)[0] == bom_stripped(
            tables[0][0],
        ),
{
}

proof fn lemma_out_rows_upto_len(
    canonical: Seq<Seq<u8>>,
    tables: Seq<Seq<Seq<Seq<u8>>>>,
    n: int,
)
    requires
        n <= tables.len(),
    ensures
        forall|k: int|
            0 <= k < out_rows_upto(canonical, tables, n).len() ==> (#[trigger] out_rows_upto(
                canonical,
                tables,
                n,
            )[k]).len() == canonical.len(),
    decreases n,
{
    if n <= 0 {
    } else {
        lemma_out_rows_upto_len(canonical, tables, n - 1);
        assert forall|k: int| 0 <= k < out_rows_upto(canonical, tables, n).len() implies (
        #[trigger] out_rows_upto(canonical, tables, n)[k]).len() == canonical.len() by {
            let prev = out_rows_upto(canonical, tables, n - 1);
            if k >= prev.len() {
                let t = tables[n - 1];
                assert(out_rows_upto(canonical, tables, n)[k] == table_out_rows(canonical, t)[k
                    - prev.len()]);
                assert(table_out_rows(canonical, t)[k - prev.len()] == mapped_row(
                    mapping_of(canonical, file_header(t)),
                    file_data(t)[k - prev.len()],
                ));
            }
        }
    }
}

/// Every merged output row — the header and every realigned data row — has
/// exactly the canonical header's length, however short or long the input
/// rows were.
pub proof fn lemma_output_row_lengths(tables: Seq<Seq<Seq<Seq<u8>>>>)
    ensures
        forall|k: int|
            0 <= k < merged_rows(tables).len() ==> (#[trigger] merged_rows(tables)[k]).len()
                == canonical_of(tables).len(),
{
    lemma_out_rows_upto_len(canonical_of(tables), tables, tables.len() as int);
    assert forall|k: int| 0 <= k < merged_rows(tables).len() implies (#[trigger] merged_rows(
        tables,
    )[k]).len() == canonical_of(tables).len() by {
        if k > 0 {
            assert(merged_rows(tables)[k] == out_rows_upto(
                canonical_of(tables),
                tables,
                tables.len() as int,
            )[k - 1]);
        }
    }
}

/// Merges already-parsed files: returns the canonical header row followed
/// by every file's realigned data rows, or reports that the first file's
/// header is empty.
pub fn merge_parsed(tables: &Vec<Vec<Vec<Vec<u8>>>>) -> (r: Result<Vec<Vec<Vec<u8>>>, MergeError>)
    requires
        tables@.len() >= 1,
    ensures
        match r {
            Ok(rows) => {
                &&& canonical_of(tables.deep_view()).len() > 0
                &&& rows.deep_view() == merged_rows(tables.deep_view())
                &&& rows@.len() >= 1
                &&& rows.deep_view()[0] == canonical_of(tables.deep_view())
                &&& forall|k: int|
                    0 <= k < rows@.len() ==> (#[trigger] rows.deep_view()[k]).len()
                        == canonical_of(tables.deep_view()).len()
            },
            Err(e) => e == MergeError::EmptyHeader && canonical_of(tables.deep_view()).len() == 0,
        },
{
    let ghost tv = tables.deep_view();
    let canonical: Vec<Vec<u8>> = if tables[0].len() == 0 {
        Vec::new()
    } else {
        strip_bom(&tables[0][0])
    };
    let ghost cv = canonical.deep_view();
    proof {
        assert(tv[0] == tables@[0].deep_view());
        if tables@[0]@.len() == 0 {
            assert(cv =~= canonical_of(tv));
        } else {
            assert(tv[0][0] == tables@[0]@[0].deep_view());
            assert(cv == canonical_of(tv));
        }
    }
    if canonical.len() == 0 {
        return Err(MergeError::EmptyHeader);
    }
    let mut out: Vec<Vec<Vec<u8>>> = Vec::new();
    out.push(copy_row(&canonical));
    proof {
        assert(out.deep_view() == Seq::new(out@.len(), |q: int| out@[q].deep_view()));
        assert(out.deep_view() =~= seq![cv] + out_rows_upto(cv, tv, 0));
    }
    let mut f: usize = 0;
    while f < tables.len()
        invariant
            tv == tables.deep_view(),
            tv.len() == tables@.len(),
            f <= tables@.len(),
            cv == canonical.deep_view(),
            cv == canonical_of(tv),
            cv.len() > 0,
            out.deep_view() == seq![cv] + out_rows_upto(cv, tv, f as int),
        decreases tables@.len() - f,
    {
        let hdr: Vec<Vec<u8>> = if tables[f].len() == 0 {
            Vec::new()
        } else {
            strip_bom(&tables[f][0])
        };
        proof {
            assert(tv[f as int] == tables@[f as int].deep_view());
            if tables@[f as int]@.len() == 0 {
                assert(hdr.deep_view() =~= file_header(tv[f as int]));
            } else {
                assert(tv[f as int][0] == tables@[f as int]@[0].deep_view());
                assert(hdr.deep_view() == file_header(tv[f as int]));
            }
        }
        let map = build_mapping(&canonical, &hdr);
        let ghost data = file_data(tv[f as int]);
        let ghost base = out.deep_view();
        let n_rows: usize = if tables[f].len() == 0 {
            0
        } else {
            tables[f].len() - 1
        };
        proof {
            assert(data.len() == n_rows);
            assert(base + aligned_prefix(cv, tv[f as int], 0) =~= base);
        }
        let mut k: usize = 0;
        while k < n_rows
            invariant
                tv == tables.deep_view(),
                tv.len() == tables@.len(),
                f < tables@.len(),
                tv[f as int] == tables@[f as int].deep_view(),
                data == file_data(tv[f as int]),
                data.len() == n_rows,
                n_rows > 0 ==> tables@[f as int]@.len() == n_rows + 1,
                k <= n_rows,
                map_view(map@) == mapping_of(cv, file_header(tv[f as int])),
                out.deep_view() == base + aligned_prefix(cv, tv[f as int], k as int),
            decreases n_rows - k,
        {
            let row = map_record(&map, &tables[f][k + 1]);
            proof {
                assert(tv[f as int][k as int + 1] == tables@[f as int]@[k as int
                    + 1].deep_view());
                assert(data[k as int] == tv[f as int][k as int + 1]);
                assert(row.deep_view() == mapped_row(
                    mapping_of(cv, file_header(tv[f as int])),
                    data[k as int],
                ));
            }
            let ghost prev = out.deep_view();
            out.push(row);
            proof {
                assert(out.deep_view() == Seq::new(out@.len(), |q: int| out@[q].deep_view()));
                assert(out.deep_view() =~= prev + seq![
                    mapped_row(mapping_of(cv, file_header(tv[f as int])), data[k as int]),
                ]);
                assert(data.take(k as int + 1).drop_last() =~= data.take(k as int));
                assert(out.deep_view() =~= base + aligned_prefix(cv, tv[f as int], k as int + 1));
            }
            k = k + 1;
        }
        proof {
            assert(data.take(data.len() as int) =~= data);
            assert(aligned_prefix(cv, tv[f as int], data.len() as int) =~= table_out_rows(
                cv,
                tv[f as int],
            ));
            assert(out.deep_view() =~= seq![cv] + out_rows_upto(cv, tv, f as int + 1));
        }
        f = f + 1;
    }
    proof {
        assert(out.deep_view() =~= merged_rows(tv));
        lemma_output_row_lengths(tv);
        assert(out.deep_view()[0] == cv);
    }
    Ok(out)
}

/// True when the csv crate parses the file.
pub open spec fn parses(file: Seq<u8>, delim: u8) -> bool {
    csv_parse(file, delim) is Some
}

/// The records of a parsed file, or nothing for a malformed one.
pub open spec fn table_of(file: Seq<u8>, delim: u8) -> Seq<Seq<Seq<u8>>> {
    match csv_parse(file, delim) {
        Some(t) => t,
        None => Seq::empty(),
    }
}

/// The parsed records of each file of a directory, in file order.
pub open spec fn tables_of(files: Seq<Seq<u8>>, delim: u8) -> Seq<Seq<Seq<Seq<u8>>>> {
    files.map_values(|f: Seq<u8>| table_of(f, delim))
}

/// Every file of the directory parses.
pub open spec fn all_parse(files: Seq<Seq<u8>>, delim: u8) -> bool {
    forall|i: int| 0 <= i < files.len() ==> parses(#[trigger] files[i], delim)
}

/// The bytes a directory's merge writes, as a function of the directory's
/// own file contents and the delimiter alone — or nothing, when the
/// directory holds no CSV files, a file is malformed, or the canonical
/// header is empty.
pub open spec fn directory_output(files: Seq<Seq<u8>>, delim: u8) -> Option<Seq<u8>> {
    if files.len() > 0 && all_parse(files, delim) && canonical_of(tables_of(files, delim)).len()
        > 0 {
        Some(csv_encode(merged_rows(tables_of(files, delim)), delim))
    } else {
        None
    }
}

/// Merging is deterministic: the output for a directory is a mathematical
/// function of its file contents and the delimiter, so re-running the merge
/// on unchanged inputs yields byte-identical output. Any two results that
/// `merge_files` may return for the same inputs are therefore equal.
pub proof fn lemma_merge_deterministic(
    files: Seq<Seq<u8>>,
    delim: u8,
    r1: Option<Seq<u8>>,
    r2: Option<Seq<u8>>,
)
    requires
        r1 == directory_output(files, delim),
        r2 == directory_output(files, delim),
    ensures
        r1 == r2,
{
}

/// Directories are independent: a directory's output depends on its own
/// files alone, so processing directories in any order — directory A before
/// B or B before A — never changes the content of either's output, only the
/// order of the console lines.
pub proof fn lemma_directory_order_invariant(
    run_a: Seq<Seq<Seq<u8>>>,
    run_b: Seq<Seq<Seq<u8>>>,
    i: int,
    j: int,
    delim: u8,
)
    requires
        0 <= i < run_a.len(),
        0 <= j < run_b.len(),
        run_a[i] == run_b[j],
    ensures
        directory_output(run_a[i], delim) == directory_output(run_b[j], delim),
{
}

/// Reads the header of one CSV file: its first record, byte-order mark
/// stripped. A well-formed file with no records has an empty header; a
/// malformed file reads no header at all.
pub fn read_header(data: &Vec<u8>, delim: u8) -> (r: Option<Vec<Vec<u8>>>)
    ensures
        match r {
            Some(hdr) => parses(data@, delim) && hdr.deep_view() == file_header(
                table_of(data@, delim),
            ),
            None => !parses(data@, delim),
        },
{
    match parse_csv(data, delim) {
        None => None,
        Some(t) => {
            if t.len() == 0 {
                proof {
                    assert(Seq::<Seq<u8>>::empty() =~= file_header(table_of(data@, delim)));
                }
                Some(Vec::new())
            } else {
                let hdr = strip_bom(&t[0]);
                proof {
                    assert(table_of(data@, delim)[0] == t@[0].deep_view());
                }
                Some(hdr)
            }
        },
    }
}

/// Merges the raw contents of one directory's CSV files, in their sorted
/// order, into the merged output's bytes. Fails on the first malformed
/// file, or when the first file's header has no columns.
pub fn merge_files(files: &Vec<Vec<u8>>, delim: u8) -> (r: Result<Vec<u8>, MergeError>)
    requires
        files@.len() >= 1,
    ensures
        directory_output(files.deep_view(), delim) == (match r {
            Ok(out) => Some(out@),
            Err(_) => None::<Seq<u8>>,
        }),
        match r {
            Ok(out) => {
                &&& all_parse(files.deep_view(), delim)
                &&& canonical_of(tables_of(files.deep_view(), delim)).len() > 0
                &&& out@ == csv_encode(merged_rows(tables_of(files.deep_view(), delim)), delim)
            },
            Err(MergeError::EmptyHeader) => parses(files.deep_view()[0], delim) && canonical_of(
                tables_of(files.deep_view(), delim),
            ).len() == 0,
            Err(MergeError::BadCsv(i)) => {
                &&& i < files@.len()
                &&& !parses(files.deep_view()[i as int], delim)
                &&& forall|j: int| 0 <= j < i ==> parses(#[trigger] files.deep_view()[j], delim)
                &&& (i > 0 ==> canonical_of(tables_of(files.deep_view(), delim)).len() > 0)
            },
        },
{
    let ghost fv = files.deep_view();
    let mut tables: Vec<Vec<Vec<Vec<u8>>>> = Vec::new();
    let mut f: usize = 0;
    while f < files.len()
        invariant
            fv == files.deep_view(),
            fv.len() == files@.len(),
            files@.len() >= 1,
            f <= files@.len(),
            tables@.len() == f,
            forall|j: int| 0 <= j < f ==> parses(#[trigger] fv[j], delim),
            forall|j: int|
                0 <= j < f ==> #[trigger] tables.deep_view()[j] == table_of(fv[j], delim),
            f > 0 ==> canonical_of(tables_of(fv, delim)).len() > 0,
        decreases files@.len() - f,
    {
        proof {
            assert(fv[f as int] == files@[f as int]@);
        }
        match parse_csv(&files[f], delim) {
            None => {
                return Err(MergeError::BadCsv(f));
            },
            Some(t) => {
                if f == 0 {
                    let empty_header = t.len() == 0 || t[0].len() == 0;
                    proof {
                        let tb = table_of(fv[0], delim);
                        assert(tb == t.deep_view());
                        assert(tables_of(fv, delim)[0] == tb);
                        if t@.len() == 0 {
                            assert(canonical_of(tables_of(fv, delim)).len() == 0);
                        } else {
                            assert(tb[0] == t@[0].deep_view());
                            crate::bom::lemma_bom_stripped_len(tb[0]);
                            assert(canonical_of(tables_of(fv, delim)).len() == t@[0]@.len());
                        }
                    }
                    if empty_header {
                        return Err(MergeError::EmptyHeader);
                    }
                }
                let ghost prev = tables.deep_view();
                tables.push(t);
                proof {
                    assert(tables.deep_view() == Seq::new(
                        tables@.len(),
                        |q: int| tables@[q].deep_view(),
                    ));
                    assert(forall|j: int|
                        0 <= j < f ==> #[trigger] tables.deep_view()[j] == prev[j]);
                }
            },
        }
        f = f + 1;
    }
    proof {
        assert(tables.deep_view() =~= tables_of(fv, delim));
    }
    match merge_parsed(&tables) {
        Ok(rows) => {
            let out = encode_csv(&rows, delim);
            Ok(out)
        },
        Err(_) => {
            // The parse loop established a non-empty canonical header, so
            // merge_parsed cannot report an empty one.
            proof {
                assert(false);
            }
            Err(MergeError::EmptyHeader)
        },
    }
}

} // verus!
