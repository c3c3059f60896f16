use std::str::FromStr;
use xdg_trash::datetime::LocalDateTime;
use xdg_trash::error::Error;
use xdg_trash::trashinfo::{try_different_parsers, TrashInfo, DELDATE_KEY, PATH_KEY};

fn dt(y: i32, mo: u32, d: u32, h: u32, mi: u32, s: u32, ns: u32) -> LocalDateTime {
    LocalDateTime::new(y, mo, d, h, mi, s, ns).unwrap()
}

fn fields(t: &LocalDateTime) -> (i32, u32, u32, u32, u32, u32, u32) {
    (t.year(), t.month(), t.day(), t.hour(), t.minute(), t.second(), t.nanosecond())
}

#[test]
fn parses_the_example_of_the_specification() {
    let text = b"[Trash Info]\nPath=foo/bar/meow.bow-wow\nDeletionDate=20040831T22:32:08";
    let info = TrashInfo::parse(text).unwrap();
    assert_eq!(info.path, b"foo/bar/meow.bow-wow".to_vec());
    assert_eq!(fields(&info.deleted_at), (2004, 8, 31, 22, 32, 8, 0));
}

#[test]
fn parses_the_form_file_managers_write() {
    let text = b"[Trash Info]\nPath=/home/user/a%20b.txt\nDeletionDate=2024-01-24T16:27:00\n";
    let info = TrashInfo::parse(text).unwrap();
    assert_eq!(info.path, b"/home/user/a b.txt".to_vec());
    assert_eq!(fields(&info.deleted_at), (2024, 1, 24, 16, 27, 0, 0));
}

#[test]
fn parses_rfc3339_and_rfc2822_dates() {
    let info = TrashInfo::parse(b"[Trash Info]\nPath=x\nDeletionDate=2024-01-24T16:27:00+02:00").unwrap();
    assert_eq!(fields(&info.deleted_at), (2024, 1, 24, 16, 27, 0, 0));
    let info =
        TrashInfo::parse(b"[Trash Info]\nPath=x\nDeletionDate=Wed, 24 Jan 2024 16:27:00 +0100").unwrap();
    assert_eq!(fields(&info.deleted_at), (2024, 1, 24, 16, 27, 0, 0));
}

#[test]
fn fractional_seconds_are_kept() {
    let info = TrashInfo::parse(b"[Trash Info]\nPath=x\nDeletionDate=2024-01-24T16:27:00.5").unwrap();
    assert_eq!(fields(&info.deleted_at), (2024, 1, 24, 16, 27, 0, 500_000_000));
}

#[test]
fn carriage_returns_before_line_breaks_are_dropped() {
    let text = b"[Trash Info]\r\nPath=a\r\nDeletionDate=2024-01-24T16:27:00\r\n";
    let info = TrashInfo::parse(text).unwrap();
    assert_eq!(info.path, b"a".to_vec());
}

#[test]
fn keys_may_come_in_any_order_and_later_ones_win() {
    let text = b"[Trash Info]\nDeletionDate=2024-01-24T16:27:00\nPath=first\nPath=second";
    let info = TrashInfo::parse(text).unwrap();
    assert_eq!(info.path, b"second".to_vec());
}

#[test]
fn a_value_ends_at_the_next_equals_sign() {
    let text = b"[Trash Info]\nPath=a=b\nDeletionDate=2024-01-24T16:27:00";
    let info = TrashInfo::parse(text).unwrap();
    assert_eq!(info.path, b"a".to_vec());
}

#[test]
fn invalid_escapes_are_kept() {
    let text = b"[Trash Info]\nPath=%zz%4%41%\nDeletionDate=2024-01-24T16:27:00";
    let info = TrashInfo::parse(text).unwrap();
    assert_eq!(info.path, b"%zz%4A%".to_vec());
}

#[test]
fn the_first_line_must_be_the_header() {
    assert!(matches!(TrashInfo::parse(b""), Err(Error::InvalidFirstLine)));
    assert!(matches!(TrashInfo::parse(b"[Trash]\nPath=a"), Err(Error::InvalidFirstLine)));
    assert!(matches!(TrashInfo::parse(b" [Trash Info]\nPath=a"), Err(Error::InvalidFirstLine)));
}

#[test]
fn every_other_line_must_be_a_pair() {
    let text = b"[Trash Info]\nPath=a\n\nDeletionDate=2024-01-24T16:27:00";
    assert!(matches!(TrashInfo::parse(text), Err(Error::InvalidKeyValues)));
    let text = b"[Trash Info]\nPath=a\nnonsense";
    assert!(matches!(TrashInfo::parse(text), Err(Error::InvalidKeyValues)));
}

#[test]
fn missing_keys_are_named() {
    let text = b"[Trash Info]\nDeletionDate=2024-01-24T16:27:00";
    match TrashInfo::parse(text) {
        Err(Error::MissingKey(k)) => assert_eq!(k, PATH_KEY),
        other => panic!("unexpected {:?}", other),
    }
    let text = b"[Trash Info]\nPath=a";
    match TrashInfo::parse(text) {
        Err(Error::MissingKey(k)) => assert_eq!(k, DELDATE_KEY),
        other => panic!("unexpected {:?}", other),
    }
}

#[test]
fn a_date_no_parser_reads_gives_all_errors() {
    let text = b"[Trash Info]\nPath=a\nDeletionDate=yesterday";
    match TrashInfo::parse(text) {
        Err(Error::InvalidDateTimeNoParserMatched { errors }) => assert_eq!(errors.len(), 4),
        other => panic!("unexpected {:?}", other),
    }
    assert_eq!(try_different_parsers(b"yesterday").unwrap_err().len(), 4);
}

#[test]
fn from_str_reads_the_same() {
    let info = TrashInfo::from_str("[Trash Info]\nPath=a\nDeletionDate=2024-01-24T16:27:00").unwrap();
    assert_eq!(info.path, b"a".to_vec());
}

#[test]
fn the_written_file_has_three_lines() {
    let info = TrashInfo { path: b"/home/user/a b&c.txt".to_vec(), deleted_at: dt(2024, 1, 24, 16, 27, 5, 0) };
    let text = info.create_trashinfofile();
    assert_eq!(
        String::from_utf8(text).unwrap(),
        "[Trash Info]\nPath=%2Fhome%2Fuser%2Fa%20b%26c.txt\nDeletionDate=2024-01-24T16:27:05"
    );
}

#[test]
fn small_years_are_padded() {
    let info = TrashInfo { path: b"a".to_vec(), deleted_at: dt(42, 3, 4, 5, 6, 7, 0) };
    let text = String::from_utf8(info.create_trashinfofile()).unwrap();
    assert!(text.ends_with("DeletionDate=0042-03-04T05:06:07"));
}

#[test]
fn reading_a_written_file_gives_it_back() {
    let path = "/home/user/ünïcödé dir/file=1\n2".as_bytes().to_vec();
    let info = TrashInfo { path: path.clone(), deleted_at: dt(1999, 12, 31, 23, 59, 58, 123_456_789) };
    let back = TrashInfo::parse(&info.create_trashinfofile()).unwrap();
    assert_eq!(back.path, path);
    assert_eq!(fields(&back.deleted_at), (1999, 12, 31, 23, 59, 58, 0));
}

#[test]
fn dates_must_exist() {
    assert!(LocalDateTime::new(2023, 2, 29, 0, 0, 0, 0).is_none());
    assert!(LocalDateTime::new(2024, 2, 29, 0, 0, 0, 0).is_some());
    assert!(LocalDateTime::new(1900, 2, 29, 0, 0, 0, 0).is_none());
    assert!(LocalDateTime::new(2000, 2, 29, 0, 0, 0, 0).is_some());
    assert!(LocalDateTime::new(2024, 4, 31, 0, 0, 0, 0).is_none());
    assert!(LocalDateTime::new(2024, 1, 1, 24, 0, 0, 0).is_none());
    assert!(LocalDateTime::new(2024, 1, 1, 23, 59, 59, 1_500_000_000).is_some());
    assert!(LocalDateTime::new(2024, 1, 1, 23, 59, 58, 1_500_000_000).is_none());
    assert!(LocalDateTime::new(262143, 1, 1, 0, 0, 0, 0).is_none());
}

#[test]
fn dates_are_ordered_in_time() {
    let a = dt(2024, 1, 24, 16, 27, 0, 0);
    let b = dt(2024, 1, 24, 16, 27, 0, 1);
    let c = dt(2023, 12, 31, 23, 59, 59, 0);
    assert!(a.before(&b));
    assert!(!b.before(&a));
    assert!(c.before(&a));
    assert!(!a.before(&a));
}
