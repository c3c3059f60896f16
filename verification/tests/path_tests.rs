use xdg_trash::path::{
    ancestors, absolute_path_components, extension, file_name, file_stem, is_absolute, is_relative,
    join, lexical_absolute, mount_root_of, path_components, paths_equal, relative_to, starts_with,
    Component,
};

fn normal(s: &str) -> Component {
    Component::Normal(s.as_bytes().to_vec())
}

#[test]
fn components_of_paths() {
    assert_eq!(
        path_components(b"/a//b/./c/"),
        vec![Component::RootDir, normal("a"), normal("b"), normal("c")]
    );
    assert_eq!(path_components(b"./a/../b"), vec![Component::CurDir, normal("a"), Component::ParentDir, normal("b")]);
    assert_eq!(path_components(b"a/./b"), vec![normal("a"), normal("b")]);
    assert_eq!(path_components(b".hidden"), vec![normal(".hidden")]);
    assert_eq!(path_components(b""), vec![]);
    assert_eq!(path_components(b"."), vec![Component::CurDir]);
}

#[test]
fn absolute_and_relative() {
    assert!(is_absolute(b"/x"));
    assert!(is_relative(b"x/y"));
    assert!(is_relative(b""));
}

#[test]
fn joining_paths() {
    assert_eq!(join(b"/mnt/disk", b"a/b"), b"/mnt/disk/a/b".to_vec());
    assert_eq!(join(b"/mnt/disk/", b"a"), b"/mnt/disk/a".to_vec());
    assert_eq!(join(b"/mnt/disk", b"/abs"), b"/abs".to_vec());
    assert_eq!(join(b"", b"a"), b"a".to_vec());
}

#[test]
fn prefixes_go_by_components() {
    assert!(starts_with(b"/home/user/Documents/x.txt", b"/home/user"));
    assert!(starts_with(b"/home/user/", b"/home//user"));
    assert!(!starts_with(b"/home/username", b"/home/user"));
    assert!(!starts_with(b"/home", b"/home/user"));
    assert!(starts_with(b"/anything", b"/"));
}

#[test]
fn equal_paths_go_by_components() {
    assert!(paths_equal(b"/a/b", b"/a//b/"));
    assert!(paths_equal(b"/a/./b", b"/a/b"));
    assert!(!paths_equal(b"/a/../b", b"/b"));
    assert!(!paths_equal(b"a", b"/a"));
}

#[test]
fn file_names_stems_and_extensions() {
    assert_eq!(file_name(b"/x/y.tar.gz"), Some(b"y.tar.gz".to_vec()));
    assert_eq!(file_stem(b"/x/y.tar.gz"), Some(b"y.tar".to_vec()));
    assert_eq!(extension(b"/x/y.tar.gz"), Some(b"gz".to_vec()));
    assert_eq!(file_stem(b"/x/.bashrc"), Some(b".bashrc".to_vec()));
    assert_eq!(extension(b"/x/.bashrc"), None);
    assert_eq!(file_stem(b"a."), Some(b"a".to_vec()));
    assert_eq!(extension(b"a."), Some(b"".to_vec()));
    assert_eq!(file_name(b"/x/.."), None);
    assert_eq!(file_name(b"/"), None);
    assert_eq!(extension(b"info/abc.trashinfo"), Some(b"trashinfo".to_vec()));
}

#[test]
fn making_paths_absolute_without_the_file_system() {
    assert_eq!(lexical_absolute(b"/home/u", b"a/./b/../c"), b"/home/u/a/c".to_vec());
    assert_eq!(lexical_absolute(b"/home/u", b"../../../x"), b"/x".to_vec());
    assert_eq!(lexical_absolute(b"/home/u", b"/etc/./passwd"), b"/etc/passwd".to_vec());
    assert_eq!(lexical_absolute(b"/home/u", b"."), b"/home/u".to_vec());
    assert_eq!(lexical_absolute(b"/", b"/.."), b"/".to_vec());
}

#[test]
fn ancestors_up_to_the_root() {
    let cs = absolute_path_components(b"/", b"/a/b");
    assert_eq!(ancestors(&cs), vec![b"/a/b".to_vec(), b"/a".to_vec(), b"/".to_vec()]);
    let cs = absolute_path_components(b"/", b"/");
    assert_eq!(ancestors(&cs), vec![b"/".to_vec()]);
}

#[test]
fn the_mount_root_is_the_last_ancestor_on_the_same_device() {
    let anc = vec![b"/mnt/d/x".to_vec(), b"/mnt/d".to_vec(), b"/mnt".to_vec(), b"/".to_vec()];
    assert_eq!(mount_root_of(&anc, &vec![Some(7), Some(7), Some(1)], 7), b"/mnt/d".to_vec());
    assert_eq!(mount_root_of(&anc, &vec![Some(7), None, Some(7)], 7), b"/mnt/d/x".to_vec());
    assert_eq!(mount_root_of(&anc, &vec![Some(7); 4], 7), b"/".to_vec());
    assert_eq!(mount_root_of(&anc, &vec![Some(1)], 7), Vec::<u8>::new());
}

#[test]
fn relative_parts() {
    assert_eq!(relative_to(b"/mnt/d/a/b", b"/mnt/d"), Some(b"a/b".to_vec()));
    assert_eq!(relative_to(b"/mnt/e/a", b"/mnt/d"), None);
}
