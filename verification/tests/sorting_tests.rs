use std::rc::Rc;
use xdg_trash::datetime::LocalDateTime;
use xdg_trash::sorting::{file_compare, path_compare, reverse_files, sort_files, Sorting};
use xdg_trash::trash::Trash;
use xdg_trash::trash_file::TrashFile;
use xdg_trash::trashinfo::TrashInfo;

fn at(day: u32, hour: u32) -> LocalDateTime {
    LocalDateTime::new(2024, 3, day, hour, 0, 0, 0).unwrap()
}

fn file(root: &str, path: &str, day: u32, hour: u32) -> TrashFile {
    let trash = Rc::new(Trash::user_trash(root.as_bytes(), 1000, 1));
    let info = TrashInfo { path: path.as_bytes().to_vec(), deleted_at: at(day, hour) };
    TrashFile::new_unchecked(trash, info, b"entry".to_vec())
}

fn paths(files: &[TrashFile]) -> Vec<String> {
    files.iter().map(|f| String::from_utf8(f.original_path()).unwrap()).collect()
}

#[test]
fn path_compare_goes_by_components() {
    assert_eq!(path_compare(b"/a/b", b"/a/b"), 0);
    assert_eq!(path_compare(b"/a/b", b"/a//b/"), 0);
    assert_eq!(path_compare(b"/a/./b", b"/a/b"), 0);
    assert_eq!(path_compare(b"/a", b"/a/b"), -1);
    assert_eq!(path_compare(b"/a/c", b"/a/b"), 1);
    // By components "/a/b" sorts before "/a-b", unlike a plain byte order.
    assert_eq!(path_compare(b"/a/b", b"/a-b"), -1);
    assert_eq!(path_compare(b"/x", b"x"), -1);
}

#[test]
fn sort_by_original_path() {
    let files = vec![
        file("/mnt/c", "/home/u/zeta", 1, 0),
        file("/mnt/a", "/home/u/alpha", 2, 0),
        file("/mnt/b", "/home/u/mid", 3, 0),
    ];
    let sorted = sort_files(files, Sorting::OriginalPath);
    assert_eq!(paths(&sorted), vec!["/home/u/alpha", "/home/u/mid", "/home/u/zeta"]);
}

#[test]
fn sort_by_date_is_stable() {
    let files = vec![
        file("/mnt/a", "/p/late", 5, 12),
        file("/mnt/a", "/p/first_tie", 2, 8),
        file("/mnt/a", "/p/early", 1, 0),
        file("/mnt/a", "/p/second_tie", 2, 8),
    ];
    let sorted = sort_files(files, Sorting::DeletedAt);
    assert_eq!(paths(&sorted), vec!["/p/early", "/p/first_tie", "/p/second_tie", "/p/late"]);
}

#[test]
fn sort_by_trash_location() {
    let files = vec![
        file("/mnt/zz", "/p/1", 1, 0),
        file("/", "/p/2", 1, 0),
        file("/mnt/aa", "/p/3", 1, 0),
    ];
    let sorted = sort_files(files, Sorting::Trash);
    assert_eq!(paths(&sorted), vec!["/p/2", "/p/3", "/p/1"]);
    assert_eq!(file_compare(&sorted[0], &sorted[1], Sorting::Trash), -1);
    assert_eq!(file_compare(&sorted[1], &sorted[1], Sorting::Trash), 0);
}

#[test]
fn reverse_after_sort() {
    let files = vec![
        file("/m", "/b", 1, 0),
        file("/m", "/a", 1, 0),
        file("/m", "/c", 1, 0),
    ];
    let reversed = reverse_files(sort_files(files, Sorting::OriginalPath));
    assert_eq!(paths(&reversed), vec!["/c", "/b", "/a"]);
}

#[test]
fn sort_empty_and_single() {
    assert!(sort_files(Vec::new(), Sorting::DeletedAt).is_empty());
    let one = sort_files(vec![file("/m", "/only", 1, 0)], Sorting::Trash);
    assert_eq!(paths(&one), vec!["/only"]);
}
