use std::rc::Rc;
use xdg_trash::datetime::LocalDateTime;
use xdg_trash::error::Error;
use xdg_trash::trash::{entry_name, Trash, TrashType};
use xdg_trash::trash_file::TrashFile;
use xdg_trash::trashinfo::TrashInfo;
use xdg_trash::unified::{find_any_trash_at, list_trashes, parse_proc_mounts, UnifiedTrash};

fn user(root: &str, dev: u64) -> Trash {
    Trash::user_trash(root.as_bytes(), 1000, dev)
}

fn admin(root: &str, dev: u64) -> Trash {
    Trash::admin_trash(root.as_bytes(), 1000, dev)
}

fn home(dev: u64) -> Trash {
    let data = Trash::data_home(b"/home/u", None);
    Trash::home_trash(b"/home/u", &data, dev)
}

#[test]
fn priorities_of_the_kinds() {
    assert_eq!(TrashType::Home.priority(), 3);
    assert_eq!(TrashType::Admin.priority(), 2);
    assert_eq!(TrashType::User.priority(), 1);
}

#[test]
fn user_trash_layout() {
    let t = user("/mnt/disk1", 5);
    assert_eq!(t.info_dir(), b"/mnt/disk1/.Trash-1000/info");
    assert_eq!(t.files_dir(), b"/mnt/disk1/.Trash-1000/files");
    assert_eq!(t.mount_root(), b"/mnt/disk1");
    assert_eq!(t.based_on(), b"/mnt/disk1");
    assert_eq!(t.trash_type(), TrashType::User);
    assert!(t.use_relative_path());
    assert_eq!(t.device(), 5);
    assert_eq!(Trash::user_trash_dir(b"/mnt/disk1", 0), b"/mnt/disk1/.Trash-0".to_vec());
}

#[test]
fn admin_trash_layout() {
    let t = admin("/mnt/disk1", 5);
    assert_eq!(t.info_dir(), b"/mnt/disk1/.Trash/1000/info");
    assert_eq!(t.files_dir(), b"/mnt/disk1/.Trash/1000/files");
    assert_eq!(t.trash_type(), TrashType::Admin);
    assert!(t.use_relative_path());
}

#[test]
fn admin_trash_needs_sticky_bit_and_no_link() {
    assert!(Trash::check_admin_trash(b"/m/.Trash", 0o41777, false).is_ok());
    match Trash::check_admin_trash(b"/m/.Trash", 0o40777, false) {
        Err(Error::NotSticky(p)) => assert_eq!(p, b"/m/.Trash".to_vec()),
        other => panic!("unexpected {:?}", other),
    }
    match Trash::check_admin_trash(b"/m/.Trash", 0o41777, true) {
        Err(Error::IsSymlink(p)) => assert_eq!(p, b"/m/.Trash".to_vec()),
        other => panic!("unexpected {:?}", other),
    }
}

#[test]
fn home_trash_layout() {
    let t = home(9);
    assert_eq!(t.mount_root(), b"/home/u/.local/share");
    assert_eq!(t.based_on(), b"/home/u");
    assert_eq!(t.info_dir(), b"/home/u/.local/share/Trash/info");
    assert_eq!(t.files_dir(), b"/home/u/.local/share/Trash/files");
    assert!(!t.use_relative_path());
    let data = Trash::data_home(b"/home/u", Some(b"/data"));
    assert_eq!(data, b"/data".to_vec());
}

#[test]
fn stored_paths_are_relative_on_removable_devices() {
    let t = user("/mnt/disk1", 5);
    assert_eq!(t.stored_path(b"/mnt/disk1/a/b.txt"), b"a/b.txt".to_vec());
    assert_eq!(t.stored_path(b"/elsewhere/b.txt"), b"/elsewhere/b.txt".to_vec());
    let h = home(9);
    assert_eq!(h.stored_path(b"/home/u/x"), b"/home/u/x".to_vec());
}

#[test]
fn entry_names_count_up() {
    assert_eq!(entry_name(b"file", 0), b"file".to_vec());
    assert_eq!(entry_name(b"file", 12), b"file_12".to_vec());
}

#[test]
fn trash_cans_are_ordered_by_priority_keeping_their_order() {
    let trashes = vec![
        Rc::new(user("/u1", 1)),
        Rc::new(admin("/a1", 2)),
        Rc::new(home(3)),
        Rc::new(user("/u2", 4)),
        Rc::new(admin("/a2", 5)),
    ];
    let unified = UnifiedTrash::with_trashcans(trashes);
    let devices: Vec<u64> = unified.known_trashes().iter().map(|t| t.device()).collect();
    assert_eq!(devices, vec![3, 2, 5, 1, 4]);
}

#[test]
fn the_first_qualifying_known_trash_is_chosen() {
    let unified = UnifiedTrash::with_trashcans(vec![Rc::new(user("/mnt/d", 7)), Rc::new(home(3))]);
    assert_eq!(unified.select_known(3, b"/home/u/doc.txt", true).unwrap(), Some(0));
    assert_eq!(unified.select_known(7, b"/mnt/d/x", true).unwrap(), Some(1));
    assert_eq!(unified.select_known(3, b"/tmp/x", false).unwrap(), None);
    assert!(matches!(unified.select_known(8, b"/mnt/d/x", true), Err(Error::NoTrashFound)));
}

#[test]
fn added_trash_cans_keep_the_order() {
    let mut unified = UnifiedTrash::with_trashcans(vec![Rc::new(user("/u1", 1))]);
    unified.add_trash(Rc::new(home(3)));
    let devices: Vec<u64> = unified.known_trashes().iter().map(|t| t.device()).collect();
    assert_eq!(devices, vec![3, 1]);
}

#[test]
fn the_trash_cans_of_the_system_end_with_the_home_trash() {
    let all = list_trashes(vec![None, Some(user("/m", 1)), None, Some(admin("/n", 2))], home(3));
    let devices: Vec<u64> = all.iter().map(|t| t.device()).collect();
    assert_eq!(devices, vec![1, 2, 3]);
    let unified = UnifiedTrash::new(vec![Some(user("/m", 1)), Some(admin("/n", 2))], home(3));
    let devices: Vec<u64> = unified.known_trashes().iter().map(|t| t.device()).collect();
    assert_eq!(devices, vec![3, 2, 1]);
}

#[test]
fn the_admin_trash_wins_over_the_user_trash() {
    assert_eq!(find_any_trash_at(Ok(admin("/m", 1)), Ok(user("/m", 2))).unwrap().device(), 1);
    assert_eq!(find_any_trash_at(Err(Error::NoTrashFound), Ok(user("/m", 2))).unwrap().device(), 2);
    assert!(find_any_trash_at(Err(Error::NoTrashFound), Err(Error::Homeless)).is_none());
}

#[test]
fn mount_points_are_the_second_field() {
    let text = b"sysfs /sys sysfs rw 0 0\n/dev/sda1 / ext4 rw 0 0\n\n/dev/sdb1 /mnt/usb vfat rw 0 0\n";
    let mounts = parse_proc_mounts(text).unwrap();
    assert_eq!(mounts, vec![b"/sys".to_vec(), b"/".to_vec(), b"/mnt/usb".to_vec()]);
    assert!(matches!(parse_proc_mounts(b"a b\nbroken\n"), Err(Error::InvalidProcMounts)));
    assert_eq!(parse_proc_mounts(b"").unwrap(), Vec::<Vec<u8>>::new());
}

fn info_text(path: &str) -> Vec<u8> {
    format!("[Trash Info]\nPath={}\nDeletionDate=2024-01-24T16:27:00", path).into_bytes()
}

#[test]
fn trashed_files_from_their_info_files() {
    let t = Rc::new(user("/mnt/d", 7));
    let f = TrashFile::from_trashinfo_path(&info_text("a/b%20c"), b"/mnt/d/.Trash-1000/info/b c.trashinfo", t)
        .unwrap();
    assert_eq!(f.original_path(), b"/mnt/d/a/b c".to_vec());
    assert_eq!(f.files_filepath(), b"/mnt/d/.Trash-1000/files/b c".to_vec());
    assert_eq!(f.info_filepath(), b"/mnt/d/.Trash-1000/info/b c.trashinfo".to_vec());
    assert_eq!(f.trash().device(), 7);
    assert_eq!(f.deleted_at().year(), 2024);
}

#[test]
fn absolute_original_paths_stay() {
    let t = Rc::new(user("/mnt/d", 7));
    let f = TrashFile::from_trashinfo_path(&info_text("/abs/x"), b"/i/x.trashinfo", t).unwrap();
    assert_eq!(f.original_path(), b"/abs/x".to_vec());
}

#[test]
fn info_files_need_their_extension_and_valid_text() {
    let t = Rc::new(user("/mnt/d", 7));
    match TrashFile::from_trashinfo_path(&info_text("x"), b"/i/x.info", t.clone()) {
        Err(Error::InvalidTrashinfoFile(p, e)) => {
            assert_eq!(p, b"/i/x.info".to_vec());
            assert!(matches!(*e, Error::InvalidTrashinfoExt));
        }
        other => panic!("unexpected {:?}", other),
    }
    match TrashFile::from_trashinfo_path(b"garbage", b"/i/x.trashinfo", t) {
        Err(Error::InvalidTrashinfoFile(p, e)) => {
            assert_eq!(p, b"/i/x.trashinfo".to_vec());
            assert!(matches!(*e, Error::InvalidFirstLine));
        }
        other => panic!("unexpected {:?}", other),
    }
}

#[test]
fn trashed_files_made_of_parts() {
    let t = Rc::new(home(3));
    let info = TrashInfo { path: b"/home/u/x".to_vec(), deleted_at: LocalDateTime::new(2020, 1, 1, 0, 0, 0, 0).unwrap() };
    let f = TrashFile::new_unchecked(t, info, b"x".to_vec());
    assert_eq!(f.original_path(), b"/home/u/x".to_vec());
    assert_eq!(f.trashinfo().path, b"/home/u/x".to_vec());
}
