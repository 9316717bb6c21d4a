use std::path::Path;
use teleport_box::os_text::{ArgList, OsText, PathSet};
use teleport_box::path;
use teleport_box::util::{
    add_ro_bind_if_exists, exit_code_from_status, file_name, find_in_path, is_executable_file,
    path_candidates, path_is_under, prepare_bind_dir, prepare_bind_parent, propagate_exit_status,
    ensure_binary_exists, shell_escape, ExitAction, FileFacts, ProcessStatus,
};
use teleport_box::error::Error;

fn os(s: &str) -> OsText {
    OsText::from_text(s)
}

fn shown(list: Vec<OsText>) -> Vec<String> {
    list.iter().map(|t| t.shown()).collect()
}

fn args(list: ArgList) -> Vec<String> {
    shown(list.into_vec())
}

fn set(paths: &[&str]) -> PathSet {
    let mut out = PathSet::new();
    for p in paths {
        out.insert(os(p));
    }
    out
}

const SAMPLES: [&str; 30] = [
    "", "/", "//", ".", "..", "./", "/.", "/..", "a", "a/", "a/b", "a//b", "a/./b", "a/../b", "./a",
    "/a", "/a/", "/a/b/", "/a//b", "//a", "/a/.", "/a/..", "/./a", "a/.", "a/..", "./.", "../a",
    "/usr/local/bin", "...", "/a/.b",
];

#[test]
fn path_under_matches_exact_and_nested() {
    assert!(path_is_under("/root/project", "/root"));
    assert!(path_is_under("/root", "/root"));
    assert!(!path_is_under("/rooted", "/root"));
}

#[test]
fn being_under_is_transitive_and_literal() {
    assert!(path_is_under("/a/b/c", "/a/b"));
    assert!(path_is_under("/a/b", "/a"));
    assert!(path_is_under("/a/b/c", "/a"));
    assert!(!path_is_under("/a", "/"));
    assert!(path_is_under("//a", "/"));
    assert!(!path_is_under("/a", "/a/"));
    assert!(path_is_under("", ""));
}

#[test]
fn find_in_path_requires_executable_bit() {
    let executable = FileFacts { is_file: true, mode: 0o755 };
    let regular = FileFacts { is_file: true, mode: 0o644 };
    let seen = [("/tools/ok-tool", executable), ("/tools/plain-file", regular)];
    let mut found = PathSet::new();
    for (p, facts) in seen {
        if is_executable_file(Some(facts)) {
            found.insert(os(p));
        }
    }
    let path = Some(os("/tools"));
    assert_eq!(find_in_path("ok-tool", &path, &found), Some(os("/tools/ok-tool")));
    assert_eq!(find_in_path("plain-file", &path, &found), None);
}

#[test]
fn executable_files_are_regular_and_have_a_bit() {
    assert!(!is_executable_file(None));
    assert!(!is_executable_file(Some(FileFacts { is_file: false, mode: 0o755 })));
    assert!(is_executable_file(Some(FileFacts { is_file: true, mode: 0o100001 })));
    assert!(!is_executable_file(Some(FileFacts { is_file: true, mode: 0o100666 })));
}

#[test]
fn programs_are_looked_for_in_order() {
    let path = Some(os("/b:/a::"));
    assert_eq!(
        shown(path_candidates("ssh", &path)),
        vec!["/b/ssh", "/a/ssh", "ssh", "ssh"]
    );
    assert_eq!(shown(path_candidates("/x/ssh", &path))[0], "/x/ssh");
    assert_eq!(
        find_in_path("ssh", &path, &set(&["/a/ssh", "/b/ssh"])),
        Some(os("/b/ssh"))
    );
    assert_eq!(find_in_path("/x/ssh", &None, &set(&["/x/ssh"])), Some(os("/x/ssh")));
    assert_eq!(find_in_path("ssh", &None, &set(&["ssh"])), None);
    assert!(ensure_binary_exists("ssh", &Some(os("/a/ssh"))).is_ok());
    assert_eq!(
        ensure_binary_exists("ssh", &None).unwrap_err(),
        Error::BinaryNotFound("ssh".to_string())
    );
}

#[test]
fn paths_agree_with_the_standard_library() {
    for a in SAMPLES {
        let p = Path::new(a);
        let t = os(a);
        assert_eq!(path::is_absolute(&t), p.is_absolute(), "{a}");
        let parts: Vec<String> =
            p.components().map(|c| c.as_os_str().to_str().unwrap().to_string()).collect();
        assert_eq!(shown(path::components(&t)), parts, "{a}");
        assert_eq!(
            path::file_name(&t).map(|n| n.shown()),
            p.file_name().map(|n| n.to_str().unwrap().to_string()),
            "{a}"
        );
        assert_eq!(
            path::parent(&t).map(|n| n.shown()),
            p.parent().map(|n| n.to_str().unwrap().to_string()),
            "{a}"
        );
        for b in SAMPLES {
            let q = Path::new(b);
            let u = os(b);
            assert_eq!(path::join(&t, &u).shown(), p.join(q).to_str().unwrap(), "{a} {b}");
            assert_eq!(path::starts_with(&t, &u), p.starts_with(q), "{a} {b}");
        }
    }
}

#[test]
fn names_are_text() {
    assert_eq!(file_name(&os("/usr/bin/grep")), Some("grep".to_string()));
    assert_eq!(file_name(&os("/")), None);
    assert_eq!(file_name(&os("/a/..")), None);
    assert_eq!(file_name(&OsText::from_bytes(vec![47, 255])), None);
}

#[test]
fn bind_mounts_get_their_directories() {
    let mut list = ArgList::new();
    prepare_bind_dir(&mut list, &os("/codex/bin"));
    assert_eq!(args(list), vec!["--dir", "/codex", "--dir", "/codex/bin"]);
    let mut list = ArgList::new();
    prepare_bind_dir(&mut list, &os("/"));
    assert_eq!(list.len(), 0);
    let mut list = ArgList::new();
    prepare_bind_dir(&mut list, &os("a//b"));
    assert_eq!(args(list), vec!["--dir", "a", "--dir", "a/b"]);
    let mut list = ArgList::new();
    prepare_bind_parent(&mut list, &os("/codex/bin/node"));
    assert_eq!(args(list), vec!["--dir", "/codex", "--dir", "/codex/bin"]);
    let mut list = ArgList::new();
    prepare_bind_parent(&mut list, &os("/"));
    assert_eq!(list.len(), 0);
    let mut list = ArgList::new();
    add_ro_bind_if_exists(&mut list, "/usr", "/usr", &set(&["/usr"]));
    add_ro_bind_if_exists(&mut list, "/lib64", "/lib64", &set(&["/usr"]));
    assert_eq!(args(list), vec!["--dir", "/usr", "--ro-bind", "/usr", "/usr"]);
}

#[test]
fn words_are_quoted() {
    assert_eq!(shell_escape(""), "''");
    assert_eq!(shell_escape("a b"), "'a b'");
    assert_eq!(shell_escape("it's"), "'it'\"'\"'s'");
    assert_eq!(shell_escape("'"), "''\"'\"''");
    assert_eq!(shell_escape("$HOME\n\u{e9}"), "'$HOME\n\u{e9}'");
}

#[test]
fn exit_statuses_are_passed_on() {
    let status = |code, signal| ProcessStatus { code, signal };
    assert_eq!(propagate_exit_status(status(Some(0), None)).unwrap(), ExitAction::Return);
    assert_eq!(propagate_exit_status(status(Some(7), None)).unwrap(), ExitAction::Exit(7));
    assert_eq!(propagate_exit_status(status(None, Some(9))).unwrap(), ExitAction::Exit(137));
    assert_eq!(propagate_exit_status(status(None, None)).unwrap_err(), Error::NoExitStatus);
    assert_eq!(exit_code_from_status(status(Some(0), None)).unwrap(), 0);
    assert_eq!(exit_code_from_status(status(Some(255), None)).unwrap(), 255);
    assert_eq!(exit_code_from_status(status(Some(-1), None)).unwrap(), 255);
    assert_eq!(exit_code_from_status(status(Some(256), None)).unwrap(), 0);
    assert_eq!(exit_code_from_status(status(Some(i32::MIN), None)).unwrap(), 0);
    assert_eq!(exit_code_from_status(status(None, Some(15))).unwrap(), 143);
    assert_eq!(exit_code_from_status(status(None, None)).unwrap_err(), Error::NoExitStatus);
    for code in [-300, -1, 0, 1, 127, 128, 255, 256, 70000, i32::MAX] {
        assert_eq!(exit_code_from_status(status(Some(code), None)).unwrap(), code as u8);
    }
}
