use std::rc::Rc;
use xdg_trash::cli::{choice_index, encode_hex, file_id, files_matching, parse_usize, should_empty, yes_no_answer, ID_LEN};
use xdg_trash::datetime::LocalDateTime;
use xdg_trash::table::{StreamingTable, Style};
use xdg_trash::trash::Trash;
use xdg_trash::trash_file::TrashFile;

fn dt(y: i32, mo: u32, d: u32) -> LocalDateTime {
    LocalDateTime::new(y, mo, d, 12, 0, 0, 0).unwrap()
}

#[test]
fn ids_are_the_start_of_the_sha256_of_the_path() {
    assert_eq!(file_id(b"/tmp/a"), b"d9b741ea3d".to_vec());
    assert_eq!(file_id(b"/home/user/Documents/report.txt"), b"e6c9ed6747".to_vec());
    assert_eq!(file_id(b"/tmp/a").len(), ID_LEN);
    assert_eq!(encode_hex(&[0x00, 0xab, 0x0f]), b"00ab0f".to_vec());
}

fn file(path: &str) -> TrashFile {
    let t = Rc::new(Trash::user_trash(b"/tmp", 1000, 1));
    let text = format!("[Trash Info]\nPath={}\nDeletionDate=2024-01-24T16:27:00", path);
    TrashFile::from_trashinfo_path(text.as_bytes(), b"/tmp/.Trash-1000/info/a.trashinfo", t).unwrap()
}

#[test]
fn files_are_found_by_id_or_path() {
    let f = file("a");
    assert_eq!(f.id(), b"d9b741ea3d".to_vec());
    assert!(f.matches_id_or_path(b"d9b741ea3d"));
    assert!(f.matches_id_or_path(b"/tmp/a"));
    assert!(f.matches_id_or_path(b"/tmp//a/"));
    assert!(!f.matches_id_or_path(b"/tmp/b"));
    let found = files_matching(vec![file("a"), file("b"), file("a")], b"/tmp/a");
    assert_eq!(found.len(), 2);
}

#[test]
fn numbers_parse_as_rust_does() {
    assert_eq!(parse_usize(b"3"), Some(3));
    assert_eq!(parse_usize(b"+12"), Some(12));
    assert_eq!(parse_usize(b""), None);
    assert_eq!(parse_usize(b"+"), None);
    assert_eq!(parse_usize(b"-1"), None);
    assert_eq!(parse_usize(b" 1"), None);
    assert_eq!(parse_usize(b"18446744073709551615"), Some(usize::MAX));
    assert_eq!(parse_usize(b"18446744073709551616"), None);
}

#[test]
fn choices_start_at_one() {
    assert_eq!(choice_index(1, 3), Some(0));
    assert_eq!(choice_index(3, 3), Some(2));
    assert_eq!(choice_index(4, 3), None);
    assert_eq!(choice_index(0, 3), None);
}

#[test]
fn yes_or_no() {
    assert_eq!(yes_no_answer(None, false), Some(false));
    assert_eq!(yes_no_answer(Some(b""), true), Some(true));
    assert_eq!(yes_no_answer(Some(b"Y"), false), Some(true));
    assert_eq!(yes_no_answer(Some(b"n"), true), Some(false));
    assert_eq!(yes_no_answer(Some(b"yes"), true), None);
}

#[test]
fn which_files_empty_removes() {
    let d = dt(2024, 1, 24);
    assert!(should_empty(&d, Some(dt(2024, 2, 1)), None, None));
    assert!(!should_empty(&d, Some(dt(2024, 1, 1)), Some(dt(2000, 1, 1)), None));
    assert!(should_empty(&d, None, Some(dt(2024, 1, 1)), None));
    assert!(!should_empty(&d, None, None, Some(Some(dt(2024, 1, 1)))));
    assert!(!should_empty(&d, None, None, Some(None)));
    assert!(should_empty(&d, None, None, None));
}

fn text(pieces: &[(String, Style)]) -> String {
    pieces.iter().map(|p| p.0.as_str()).collect()
}

#[test]
fn tables_pad_their_columns() {
    let (table, header) = StreamingTable::draw_header(&vec![("ID", Some(4)), ("Path", None)]);
    assert_eq!(text(&header), "ID   | Path");
    assert_eq!(header[0], ("ID".to_string(), Style::White));
    assert_eq!(header[2], (" |".to_string(), Style::BrightBlack));
    assert_eq!(text(&table.draw_seperator()), "-----+---------");
    assert_eq!(text(&table.draw_row(&vec!["ab", "/x"])), "ab   | /x");
    assert_eq!(text(&table.draw_row(&vec!["abcdef", "/x"])), "abcdef | /x");
}
