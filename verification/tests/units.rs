//! Unit tests for the header, mapping and diagnostic pieces.

use csv_merge::bom::strip_bom;
use csv_merge::delimiter_byte;
use csv_merge::diag::{header_diagnostic, HeaderDiag};
use csv_merge::mapping::{build_mapping, map_record};
use csv_merge::merge::read_header;
use csv_merge::names::is_csv;

fn cells(names: &[&str]) -> Vec<Vec<u8>> {
    names.iter().map(|n| n.as_bytes().to_vec()).collect()
}

#[test]
fn csv_extension_matches_case_insensitively() {
    assert!(is_csv(&b"data.csv".to_vec()));
    assert!(is_csv(&b"data.CSV".to_vec()));
    assert!(is_csv(&b"data.Csv".to_vec()));
    assert!(is_csv(&b"archive.tar.csv".to_vec()));
}

#[test]
fn non_csv_names_are_rejected() {
    assert!(!is_csv(&b"notes.txt".to_vec()));
    assert!(!is_csv(&b"data.csvx".to_vec()));
    assert!(!is_csv(&b"data.xcsv".to_vec()));
    assert!(!is_csv(&b".csv".to_vec()));
    assert!(!is_csv(&b"csv".to_vec()));
    assert!(!is_csv(&b"".to_vec()));
}

#[test]
fn strip_bom_touches_only_the_first_cell() {
    let hdr = vec![
        b"\xef\xbb\xbfid".to_vec(),
        b"\xef\xbb\xbfamt".to_vec(),
    ];
    let stripped = strip_bom(&hdr);
    assert_eq!(stripped[0], b"id".to_vec());
    assert_eq!(stripped[1], b"\xef\xbb\xbfamt".to_vec());
}

#[test]
fn strip_bom_without_bom_is_identity() {
    let hdr = cells(&["id", "amt"]);
    assert_eq!(strip_bom(&hdr), hdr);
}

#[test]
fn build_mapping_finds_first_exact_match() {
    let canonical = cells(&["id", "amt", "region"]);
    let file_hdr = cells(&["amt", "id", "amt"]);
    let map = build_mapping(&canonical, &file_hdr);
    assert_eq!(map, vec![Some(1), Some(0), None]);
}

#[test]
fn build_mapping_is_case_and_whitespace_sensitive() {
    let canonical = cells(&["Name"]);
    assert_eq!(build_mapping(&canonical, &cells(&["name"])), vec![None]);
    assert_eq!(build_mapping(&canonical, &cells(&[" Name"])), vec![None]);
    assert_eq!(build_mapping(&canonical, &cells(&["Name"])), vec![Some(0)]);
}

#[test]
fn map_record_pads_and_reorders() {
    let map = vec![Some(1), None, Some(5)];
    let rec = cells(&["a", "b"]);
    let out = map_record(&map, &rec);
    assert_eq!(out, cells(&["b", "", ""]));
}

#[test]
fn read_header_strips_bom_and_reads_first_record() {
    let data = b"\xef\xbb\xbfid,amt\n1,10\n".to_vec();
    let hdr = read_header(&data, b',').unwrap();
    assert_eq!(hdr, cells(&["id", "amt"]));
}

#[test]
fn read_header_of_empty_file_is_empty() {
    let hdr = read_header(&Vec::new(), b',').unwrap();
    assert_eq!(hdr.len(), 0);
}

#[test]
fn read_header_fails_on_malformed_file() {
    let data = vec![0xffu8, 0xfe, 0x0a];
    assert!(read_header(&data, b',').is_none());
}

#[test]
fn identical_headers_need_no_diagnostic() {
    let c = cells(&["id", "amt"]);
    assert!(matches!(header_diagnostic(&c, &c), HeaderDiag::Same));
}

#[test]
fn reordered_headers_are_an_order_notice() {
    let c = cells(&["id", "amt"]);
    let f = cells(&["amt", "id"]);
    assert!(matches!(header_diagnostic(&c, &f), HeaderDiag::OrderDiffers));
}

#[test]
fn membership_differences_name_missing_and_extra_columns() {
    let c = cells(&["id", "amt"]);
    let f = cells(&["amt", "id", "region"]);
    match header_diagnostic(&c, &f) {
        HeaderDiag::Mismatch { missing, extra } => {
            assert_eq!(missing, cells(&[]));
            assert_eq!(extra, cells(&["region"]));
        }
        _ => panic!("expected a mismatch"),
    }
    let g = cells(&["id"]);
    match header_diagnostic(&c, &g) {
        HeaderDiag::Mismatch { missing, extra } => {
            assert_eq!(missing, cells(&["amt"]));
            assert_eq!(extra, cells(&[]));
        }
        _ => panic!("expected a mismatch"),
    }
}

#[test]
fn delimiter_must_be_ascii() {
    assert_eq!(delimiter_byte(','), Some(b','));
    assert_eq!(delimiter_byte(';'), Some(b';'));
    assert_eq!(delimiter_byte('\u{00e9}'), None);
}
