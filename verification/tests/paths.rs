use launch_apps::launch::resolve_exe_path;
use launch_apps::winpath::{file_name, file_stem, is_absolute, join, parent};

fn some(s: &str) -> Option<String> {
    Some(s.to_string())
}

#[test]
fn file_name_is_the_last_ordinary_component() {
    assert_eq!(file_name("C:\\Windows\\System32\\notepad.exe"), some("notepad.exe"));
    assert_eq!(file_name("games/Wow.exe"), some("Wow.exe"));
    assert_eq!(file_name("a/b\\c"), some("c"));
    assert_eq!(file_name("wow.exe"), some("wow.exe"));
    assert_eq!(file_name("dir\\sub\\"), some("sub"));
    assert_eq!(file_name("dir\\sub\\."), some("sub"));
    assert_eq!(file_name("dir//sub/.//"), some("sub"));
    assert_eq!(file_name("C:foo"), some("foo"));
    assert_eq!(file_name("C:.\\foo"), some("foo"));
    assert_eq!(file_name("ab:cd"), some("ab:cd"));
    assert_eq!(file_name("..."), some("..."));
}

#[test]
fn file_name_is_missing_without_an_ordinary_last_component() {
    assert_eq!(file_name(""), None);
    assert_eq!(file_name("."), None);
    assert_eq!(file_name("./"), None);
    assert_eq!(file_name(".."), None);
    assert_eq!(file_name("a\\.."), None);
    assert_eq!(file_name("C:"), None);
    assert_eq!(file_name("C:\\"), None);
    assert_eq!(file_name("C:."), None);
    assert_eq!(file_name("\\"), None);
    assert_eq!(file_name("\\\\server\\share"), None);
    assert_eq!(file_name("\\\\server\\share\\"), None);
    assert_eq!(file_name("\\\\.\\COM42"), None);
    assert_eq!(file_name("\\\\?\\C:\\"), None);
    assert_eq!(file_name("\\\\?\\C:\\a\\."), None);
}

#[test]
fn prefixes_are_no_file_names() {
    assert_eq!(file_name("\\\\server\\share\\f.exe"), some("f.exe"));
    assert_eq!(file_name("//server/share/f.exe"), some("f.exe"));
    assert_eq!(file_name("\\\\.\\dev\\f"), some("f"));
    assert_eq!(file_name("\\\\?\\C:\\a\\f.exe"), some("f.exe"));
    assert_eq!(file_name("\\\\?\\UNC\\server\\share\\f"), some("f"));
    assert_eq!(file_name("\\\\?\\name\\f"), some("f"));
    // Only `\` separates behind a verbatim prefix.
    assert_eq!(file_name("\\\\?\\C:\\a/b"), some("a/b"));
    // A verbatim prefix is spelled with `\` alone.
    assert_eq!(file_name("//?/C:/a"), some("a"));
    // A server without a share is no prefix.
    assert_eq!(file_name("\\\\server"), some("server"));
}

#[test]
fn file_stem_ends_before_the_last_dot() {
    assert_eq!(file_stem("C:\\Games\\Wow.exe"), some("Wow"));
    assert_eq!(file_stem("a.tar.gz"), some("a.tar"));
    assert_eq!(file_stem(".hidden"), some(".hidden"));
    assert_eq!(file_stem("plain"), some("plain"));
    assert_eq!(file_stem("dot."), some("dot"));
    assert_eq!(file_stem(".a.b"), some(".a"));
    assert_eq!(file_stem(".."), None);
    assert_eq!(file_stem("C:\\"), None);
}

#[test]
fn absolute_paths_have_a_prefix_and_a_root() {
    assert!(is_absolute("C:\\a"));
    assert!(is_absolute("c:/a"));
    assert!(is_absolute("\\\\server\\share"));
    assert!(is_absolute("\\\\.\\COM1"));
    assert!(is_absolute("\\\\?\\C:"));
    assert!(!is_absolute("C:a"));
    assert!(!is_absolute("\\a"));
    assert!(!is_absolute("a\\b"));
    assert!(!is_absolute(""));
    assert!(!is_absolute("1:\\a"));
}

#[test]
fn parent_drops_the_last_component() {
    assert_eq!(parent("C:\\cfg\\launch_apps.toml"), some("C:\\cfg"));
    assert_eq!(parent("C:\\launch_apps.toml"), some("C:\\"));
    assert_eq!(parent("launch_apps.toml"), some(""));
    assert_eq!(parent("a/b/"), some("a"));
    assert_eq!(parent("a//b"), some("a"));
    assert_eq!(parent("a/./b"), some("a"));
    assert_eq!(parent("./b"), some("."));
    assert_eq!(parent("."), some(""));
    assert_eq!(parent(".."), some(""));
    assert_eq!(parent("a\\.."), some("a"));
    assert_eq!(parent("C:a"), some("C:"));
    assert_eq!(parent("\\\\server\\share\\x"), some("\\\\server\\share\\"));
    assert_eq!(parent("\\\\?\\C:\\a\\."), some("\\\\?\\C:\\a"));
}

#[test]
fn roots_and_prefixes_have_no_parent() {
    assert_eq!(parent(""), None);
    assert_eq!(parent("\\"), None);
    assert_eq!(parent("C:"), None);
    assert_eq!(parent("C:\\"), None);
    assert_eq!(parent("C:."), None);
    assert_eq!(parent("\\\\server\\share"), None);
    assert_eq!(parent("\\\\?\\C:\\"), None);
}

#[test]
fn join_puts_relative_paths_behind_the_base() {
    assert_eq!(join("C:\\cfg", "Wow.exe"), "C:\\cfg\\Wow.exe");
    assert_eq!(join("C:\\cfg\\", "Wow.exe"), "C:\\cfg\\Wow.exe");
    assert_eq!(join("cfg/", "Wow.exe"), "cfg/Wow.exe");
    assert_eq!(join("", "Wow.exe"), "Wow.exe");
    assert_eq!(join(".", "Wow.exe"), ".\\Wow.exe");
    assert_eq!(join("C:", "Wow.exe"), "C:Wow.exe");
    assert_eq!(join("C:\\cfg", ""), "C:\\cfg\\");
    assert_eq!(join("C:\\cfg", "..\\a"), "C:\\cfg\\..\\a");
}

#[test]
fn join_gives_way_to_prefixes_and_roots() {
    assert_eq!(join("C:\\cfg", "D:\\a"), "D:\\a");
    assert_eq!(join("C:\\cfg", "D:a"), "D:a");
    assert_eq!(join("C:\\cfg", "\\a"), "C:\\a");
    assert_eq!(join("cfg", "/a"), "/a");
    assert_eq!(join("\\\\server\\share\\x", "\\a"), "\\\\server\\share\\a");
}

#[test]
fn join_resolves_dots_in_verbatim_paths() {
    assert_eq!(join("\\\\?\\C:\\a\\b", "..\\c"), "\\\\?\\C:\\a\\c");
    assert_eq!(join("\\\\?\\C:\\a", ".\\c/d"), "\\\\?\\C:\\a\\c\\d");
    assert_eq!(join("\\\\?\\C:\\a", "\\c"), "\\\\?\\C:\\c");
    assert_eq!(join("\\\\?\\name", "c"), "\\\\?\\name\\c");
    assert_eq!(join("\\\\?\\C:\\", "..\\..\\c"), "\\\\?\\C:\\c");
    assert_eq!(join("\\\\?\\C:\\a", ""), "\\\\?\\C:\\a\\");
}

#[test]
fn relative_executables_are_beside_the_configuration() {
    assert_eq!(
        resolve_exe_path("Wow.exe", "C:\\games\\launch_apps.toml"),
        "C:\\games\\Wow.exe"
    );
    assert_eq!(resolve_exe_path("bin\\a.exe", "launch_apps.toml"), "bin\\a.exe");
    assert_eq!(resolve_exe_path("a.exe", "C:\\"), ".\\a.exe");
}

#[test]
fn absolute_executables_are_kept() {
    assert_eq!(
        resolve_exe_path("C:\\Windows\\System32\\notepad.exe", "D:\\cfg\\x.toml"),
        "C:\\Windows\\System32\\notepad.exe"
    );
}

#[test]
fn verbatim_drives_may_be_followed_by_a_slash() {
    assert_eq!(file_name("\\\\?\\C:/foo/bar"), some("foo/bar"));
    assert_eq!(parent("\\\\?\\C:/foo/bar"), some("\\\\?\\C:/"));
    assert_eq!(file_name("\\\\?\\C:foo.txt"), None);
    assert!(is_absolute("\\\\?\\C:foo.txt"));
}

#[test]
fn incomplete_prefixes_are_roots() {
    assert_eq!(parent("\\\\server"), some("\\"));
    assert!(!is_absolute("\\\\server"));
    assert_eq!(parent("\\\\?\\UNC\\server"), None);
    assert_eq!(parent("\\\\.\\"), None);
    assert_eq!(parent("\\\\?\\a\\b\\"), some("\\\\?\\a\\"));
}

#[test]
fn join_follows_the_base_in_every_form() {
    assert_eq!(join("foo/", "\\bar"), "\\bar");
    assert_eq!(join("C:", "..\\..\\."), "C:..\\..\\.");
    assert_eq!(join("\\\\?\\C:\\bar", "../../foo"), "\\\\?\\C:\\foo");
    assert_eq!(join("\\\\?\\C:", "D:\\foo/./"), "D:\\foo/./");
    assert_eq!(join("\\\\?\\A:", "..\\foo\\."), "\\\\?\\A:\\foo");
    assert_eq!(join("\\\\?\\A:\\x\\y", ".\\foo\\."), "\\\\?\\A:\\x\\y\\foo");
    assert_eq!(
        join("\\\\?\\UNC\\server\\share\\foo", "\\bar"),
        "\\\\?\\UNC\\server\\share\\bar"
    );
    assert_eq!(join("\\\\server\\share\\foo", "bar"), "\\\\server\\share\\foo\\bar");
}
