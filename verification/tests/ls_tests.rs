use uulp::ls::{
    ls_option, mode_to_letters, select_entries, short_entry, show_stat_info, DirEntry, S_IFBLK,
    S_IFCHR, S_IFDIR, S_IFMT, S_IRGRP, S_IROTH, S_IRUSR, S_IWGRP, S_IWOTH, S_IWUSR, S_IXGRP,
    S_IXOTH, S_IXUSR,
};

#[test]
fn mode_constants_are_the_system_ones() {
    assert_eq!(S_IFMT, libc::S_IFMT);
    assert_eq!(S_IFDIR, libc::S_IFDIR);
    assert_eq!(S_IFCHR, libc::S_IFCHR);
    assert_eq!(S_IFBLK, libc::S_IFBLK);
    assert_eq!(S_IRUSR, libc::S_IRUSR);
    assert_eq!(S_IWUSR, libc::S_IWUSR);
    assert_eq!(S_IXUSR, libc::S_IXUSR);
    assert_eq!(S_IRGRP, libc::S_IRGRP);
    assert_eq!(S_IWGRP, libc::S_IWGRP);
    assert_eq!(S_IXGRP, libc::S_IXGRP);
    assert_eq!(S_IROTH, libc::S_IROTH);
    assert_eq!(S_IWOTH, libc::S_IWOTH);
    assert_eq!(S_IXOTH, libc::S_IXOTH);
}

#[test]
fn mode_letters() {
    assert_eq!(mode_to_letters(0o040755), "drwxr-xr-x");
    assert_eq!(mode_to_letters(0o100644), "-rw-r--r--");
    assert_eq!(mode_to_letters(0o020620), "crw--w----");
    assert_eq!(mode_to_letters(0o060660), "brw-rw----");
    assert_eq!(mode_to_letters(0o120777), "-rwxrwxrwx");
    assert_eq!(mode_to_letters(0), "----------");
    assert_eq!(mode_to_letters(0o100644).len(), 10);
}

#[test]
fn long_listing_line() {
    assert_eq!(
        show_stat_info(0o100644, 1, "root", "root", 1234, "Jan  1 00:00", "a.txt"),
        "-rw-r--r--   1 root     root         1234 Jan  1 00:00 a.txt"
    );
    assert_eq!(
        show_stat_info(0o100644, 12, "bob", "staff", -5, "x", "n"),
        "-rw-r--r--  12 bob      staff          -5 x        n"
    );
}

fn entry(name: &str, is_dir: bool) -> DirEntry {
    DirEntry { name: name.to_string(), is_dir, path: format!("./{}", name) }
}

fn names(v: &[DirEntry]) -> Vec<String> {
    v.iter().map(|e| e.name.clone()).collect()
}

#[test]
fn entries_hidden_and_sorted() {
    let all = vec![entry("b", false), entry(".hidden", false), entry("a", true), entry("B", false)];
    let shown = select_entries(all, 0);
    assert_eq!(names(&shown), vec!["B", "a", "b"]);
    let all = vec![entry("b", false), entry(".hidden", false), entry("a", true)];
    let shown = select_entries(all, 1 | 2);
    assert_eq!(names(&shown), vec![".hidden", "a", "b"]);
    assert!(shown[1].is_dir);
    let shown = select_entries(vec![], 0);
    assert!(shown.is_empty());
}

#[test]
fn same_name_orders_files_before_directories() {
    let all = vec![entry("x", true), entry("x", false)];
    let shown = select_entries(all, 0);
    assert!(!shown[0].is_dir);
    assert!(shown[1].is_dir);
}

#[test]
fn short_listing_entries() {
    assert_eq!(short_entry("dir", true), "\u{1b}[34mdir\u{1b}[0m ");
    assert_eq!(short_entry("ab", false), "ab   ");
    assert_eq!(short_entry("long_name", false), "long_name ");
}

#[test]
fn options() {
    assert_eq!(ls_option("-a"), Some(1));
    assert_eq!(ls_option("-l"), Some(2));
    assert_eq!(ls_option("/tmp"), None);
}
