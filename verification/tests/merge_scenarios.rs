//! End-to-end merge scenarios over in-memory file contents.

use csv_merge::merge::{merge_files, MergeError};

fn bytes(s: &str) -> Vec<u8> {
    s.as_bytes().to_vec()
}

#[test]
fn reorders_columns_to_canonical() {
    let jan = bytes("id,amt\n1,10\n2,20\n");
    let feb = bytes("amt,id\n30,3\n");
    let out = merge_files(&vec![jan, feb], b',').unwrap();
    assert_eq!(out, bytes("id,amt\n1,10\n2,20\n3,30\n"));
}

#[test]
fn extra_column_is_dropped() {
    let jan = bytes("id,amt\n1,10\n");
    let feb = bytes("amt,id,region\n30,3,west\n");
    let out = merge_files(&vec![jan, feb], b',').unwrap();
    assert_eq!(out, bytes("id,amt\n1,10\n3,30\n"));
}

#[test]
fn missing_column_becomes_empty_cell() {
    let jan = bytes("id,amt\n1,10\n");
    let feb = bytes("id\n4\n");
    let out = merge_files(&vec![jan, feb], b',').unwrap();
    assert_eq!(out, bytes("id,amt\n1,10\n4,\n"));
}

#[test]
fn short_rows_are_padded_not_rejected() {
    let only = bytes("a,b,c\n1\n2,3\n");
    let out = merge_files(&vec![only], b',').unwrap();
    assert_eq!(out, bytes("a,b,c\n1,,\n2,3,\n"));
}

#[test]
fn long_rows_lose_unmapped_cells() {
    let only = bytes("a,b\n1,2,3\n");
    let out = merge_files(&vec![only], b',').unwrap();
    assert_eq!(out, bytes("a,b\n1,2\n"));
}

#[test]
fn bom_is_stripped_from_first_header_cell_only() {
    let first = bytes("\u{feff}id,amt\n1,10\n");
    let second = bytes("id,amt\n2,20\n");
    let out = merge_files(&vec![first, second], b',').unwrap();
    assert_eq!(out, bytes("id,amt\n1,10\n2,20\n"));
}

#[test]
fn header_matching_is_case_sensitive() {
    let first = bytes("Name\nalice\n");
    let second = bytes("name\nbob\n");
    let out = merge_files(&vec![first, second], b',').unwrap();
    // "name" does not match "Name": the second file's only column is
    // dropped and the canonical column has no source, so its cell is empty.
    // A lone empty field is quoted to keep the line from reading as an
    // empty record.
    assert_eq!(out, bytes("Name\nalice\n\"\"\n"));
}

#[test]
fn rerunning_gives_byte_identical_output() {
    let jan = bytes("id,amt\n1,10\n2,20\n");
    let feb = bytes("amt,id\n30,3\n");
    let files = vec![jan, feb];
    let first_run = merge_files(&files, b',').unwrap();
    let second_run = merge_files(&files, b',').unwrap();
    assert_eq!(first_run, second_run);
}

#[test]
fn directory_order_does_not_change_either_output() {
    let dir_a = vec![bytes("id,amt\n1,10\n"), bytes("amt,id\n20,2\n")];
    let dir_b = vec![bytes("x,y\n7,8\n")];
    // A before B.
    let a_first = merge_files(&dir_a, b',').unwrap();
    let b_second = merge_files(&dir_b, b',').unwrap();
    // B before A.
    let b_first = merge_files(&dir_b, b',').unwrap();
    let a_second = merge_files(&dir_a, b',').unwrap();
    assert_eq!(a_first, a_second);
    assert_eq!(b_first, b_second);
}

#[test]
fn empty_header_is_reported() {
    let empty = bytes("");
    let r = merge_files(&vec![empty], b',');
    assert_eq!(r, Err(MergeError::EmptyHeader));
}

#[test]
fn malformed_file_is_reported_with_its_index() {
    let good = bytes("id\n1\n");
    let bad = vec![0xffu8, 0xfe, 0x0a];
    let r = merge_files(&vec![good, bad], b',');
    assert_eq!(r, Err(MergeError::BadCsv(1)));
}

#[test]
fn semicolon_delimiter_is_used_throughout() {
    let jan = bytes("id;amt\n1;10\n");
    let feb = bytes("amt;id\n20;2\n");
    let out = merge_files(&vec![jan, feb], b';').unwrap();
    assert_eq!(out, bytes("id;amt\n1;10\n2;20\n"));
}

#[test]
fn cells_holding_the_delimiter_are_quoted() {
    let only = bytes("a,b\n\"x,y\",z\n");
    let out = merge_files(&vec![only], b',').unwrap();
    assert_eq!(out, bytes("a,b\n\"x,y\",z\n"));
}
