use teleport_box::decimal::{decimal_text, is_digit, parse_u16, NumberError};
use teleport_box::error::Error;
use teleport_box::names::{place, sort_names, ExecIndex, NameSet, Place};
use teleport_box::os_text::{OsText, PathSet};
use teleport_box::text;

fn owned(list: &[&str]) -> Vec<String> {
    list.iter().map(|s| s.to_string()).collect()
}

#[test]
fn white_space_is_that_of_unicode() {
    for c in (0..=0x10ffffu32).filter_map(char::from_u32) {
        assert_eq!(text::is_white_space(c), c.is_whitespace(), "{c:?}");
    }
}

#[test]
fn texts_agree_with_the_standard_library() {
    let samples = [
        "", " ", "a", " a ", "a:b", ":a", "a:", "::", "a::b", "\u{2003}x\u{2003}", "a\nb", "a\r\nb\n",
        "\n\n", "\r", "a\r", "/a//", "\u{e9}:\u{1f600}", "x:y z:w",
    ];
    for s in samples {
        assert_eq!(text::trim(s), s.trim());
        assert_eq!(text::trim_leading(s, '/'), s.trim_start_matches('/'));
        assert_eq!(text::split_text(s, ':'), s.split(':').collect::<Vec<_>>());
        assert_eq!(text::lines(s), s.lines().collect::<Vec<_>>());
        let pair = |p: Option<(&str, &str)>| p.map(|(a, b)| (a.to_string(), b.to_string()));
        assert_eq!(text::split_once(s, ':'), pair(s.split_once(':')));
        assert_eq!(text::rsplit_once(s, ':'), pair(s.rsplit_once(':')));
        assert_eq!(text::has_char(s, ':'), s.contains(':'));
        for t in samples {
            assert_eq!(text::starts_with(s, t), s.starts_with(t));
            assert_eq!(text::strip_prefix(s, t).as_deref(), s.strip_prefix(t));
            assert_eq!(text::has_part(s, t), s.contains(t));
            assert_eq!(text::text_equal(s, t), s == t);
        }
    }
}

#[test]
fn splitting_undoes_joining() {
    for parts in [vec!["a"], vec![""], vec!["", ""], vec!["a", "", "\u{e9}", "b c"]] {
        let parts = owned(&parts);
        let joined = text::join_texts(&parts, ":");
        assert_eq!(joined, parts.join(":"));
        assert_eq!(text::split_text(&joined, ':'), parts);
    }
    assert_eq!(text::join_texts(&vec![], ":"), "");
}

#[test]
fn port_numbers_are_read_as_the_standard_library_does() {
    let samples = [
        "", "0", "22", "065535", "65535", "65536", "99999999999999999999", "-1", "-", "+", "+22",
        "2 2", " 22", "22x", "70000x", "x70000", "\u{661}",
    ];
    for s in samples {
        match (parse_u16(s), s.parse::<u16>()) {
            (Ok(a), Ok(b)) => assert_eq!(a, b),
            (Err(a), Err(b)) => assert_eq!(a.message(), b.to_string(), "{s}"),
            other => panic!("{s}: {other:?}"),
        }
    }
    assert_eq!(parse_u16(""), Err(NumberError::Empty));
    assert_eq!(parse_u16("x"), Err(NumberError::InvalidDigit));
    assert_eq!(parse_u16("65536"), Err(NumberError::TooLarge));
}

#[test]
fn decimals_read_back() {
    for n in 0..=u16::MAX {
        assert_eq!(parse_u16(&decimal_text(n as u64)), Ok(n));
    }
    assert_eq!(decimal_text(u64::MAX), u64::MAX.to_string());
    assert_eq!(decimal_text(0), "0");
    assert!(is_digit('7') && !is_digit('x'));
}

#[test]
fn names_are_ordered_like_strings() {
    let samples = ["", "a", "b", "ab", "aa", "B", "\u{e9}", "z", "\u{1f600}", "\u{ffff}", "a b"];
    for a in samples {
        for b in samples {
            let expected = if a == b {
                Place::Same
            } else if a < b {
                Place::Before
            } else {
                Place::After
            };
            assert_eq!(place(a, b), expected, "{a} {b}");
        }
    }
    let mut expected = owned(&["b", "a", "b", "\u{1f600}", "\u{ffff}", ""]);
    let sorted = sort_names(&expected);
    expected.sort();
    expected.dedup();
    assert_eq!(sorted, expected);
}

#[test]
fn sets_of_names() {
    let mut set = NameSet::new();
    for name in ["sh", "grep", "sh", "awk"] {
        set.insert(name);
    }
    assert_eq!(set.len(), 3);
    assert_eq!(set.to_vec(), owned(&["awk", "grep", "sh"]));
    assert_eq!(set.get(1), "grep");
    assert!(set.contains("sh") && !set.contains("s"));
    let mut more = NameSet::new();
    more.insert("zsh");
    more.insert_all(&set);
    assert_eq!(more.to_vec(), owned(&["awk", "grep", "sh", "zsh"]));
}

#[test]
fn programs_by_directory() {
    let mut index = ExecIndex::new();
    index.add("/usr/bin", "grep");
    index.add("/bin", "sh");
    index.add("/usr/bin", "awk");
    assert_eq!(index.keys(), owned(&["/bin", "/usr/bin"]));
    assert_eq!(index.get("/usr/bin").unwrap().to_vec(), owned(&["awk", "grep"]));
    assert!(index.get("/sbin").is_none());
    let mut all = NameSet::new();
    index.collect_names(&mut all);
    assert_eq!(all.to_vec(), owned(&["awk", "grep", "sh"]));
}

#[test]
fn byte_strings_and_texts() {
    let text = OsText::from_text("caf\u{e9}");
    assert_eq!(text.to_text(), Some("caf\u{e9}".to_string()));
    assert_eq!(text.shown(), "caf\u{e9}");
    let broken = OsText::from_bytes(vec![97, 0xff, 98]);
    assert_eq!(broken.to_text(), None);
    assert_eq!(broken.shown(), "a\u{fffd}b");
    assert!(!text.same(&broken) && broken.same(&broken.clone()));
    assert_eq!(broken.into_bytes(), vec![97, 0xff, 98]);
    let mut set = PathSet::new();
    assert!(!set.contains(&text));
    set.insert(text.clone());
    assert!(set.contains(&text));
}

#[test]
fn errors_in_words() {
    let t = |s: &str| s.to_string();
    let p = |s: &str| OsText::from_text(s);
    let said = [
        (Error::RemoteCwdNotAbsolute, "--remote-cwd must be an absolute path"),
        (Error::RemoteHomeNotAbsolute, "--remote-home must be an absolute path"),
        (Error::RemoteBinDirNotAbsolute, "--remote-bin-dir must be an absolute path"),
        (Error::MixedTarget, "do not mix TARGET with legacy --host/--user/--port"),
        (Error::MissingTarget, "missing TARGET or --host"),
        (Error::EmptyTarget, "TARGET must not be empty"),
        (Error::InvalidTarget(t("@x")), "invalid TARGET: @x"),
        (Error::UnclosedBracket(t("[x")), "invalid bracketed TARGET: [x"),
        (Error::InvalidTargetSuffix(t("y")), "invalid bracketed TARGET suffix: y"),
        (
            Error::InvalidTargetPort(t(""), NumberError::Empty),
            "invalid TARGET port: : cannot parse integer from empty string",
        ),
        (Error::BinaryNotFound(t("ssh")), "required binary not found on PATH: ssh"),
        (Error::NoExitStatus, "process exited without code or signal"),
        (Error::MissingCommand, "missing command after `exec --`"),
        (Error::IdentityFileMissing(p("/id")), "identity file does not exist: /id"),
        (Error::CodexRootMissing(p("/c")), "codex package root does not exist: /c"),
        (Error::NodeMissing(p("/n")), "node binary does not exist: /n"),
        (
            Error::NoRemoteShell,
            "failed to find a working remote shell; tried [\"/bin/sh\", \"/bin/ash\", \"/bin/dash\", \"/bin/bash\", \"/usr/bin/bash\", \"sh\"]",
        ),
        (Error::ProbeFailed(t("no")), "remote probe failed: no"),
        (Error::MountFailed(t("exit status: 1")), "sshfs mount failed with status exit status: 1"),
        (
            Error::UnmountFailed(t("fusermount"), t("exit status: 1")),
            "fusermount returned exit status: 1",
        ),
        (
            Error::SshMasterFailed(t("exit status: 255")),
            "failed to establish shared SSH master connection: exit status: 255",
        ),
        (
            Error::LocalBinaryMissing(t("could not find local `ssh` binary")),
            "could not find local `ssh` binary",
        ),
        (Error::CodexBinaryWithoutParent, "codex binary has no parent directory"),
        (Error::CodexBinaryWithoutRoot, "codex binary is missing package root"),
        (Error::CodexRootNotFound(p("/x")), "could not locate Codex package root next to /x"),
        (Error::WrapperArgumentNotText, "wrapper argument is not valid UTF-8"),
        (Error::PullNeedsSharedDir, "teleport-pull requires --shared-dir"),
        (Error::PullArgumentNotText, "teleport-pull argument is not valid UTF-8"),
        (Error::PullUsage, "usage: teleport-pull <remote-path> [local-path-under-/shared]"),
        (Error::PullFailed(t("no")), "teleport-pull failed: no"),
        (Error::PushNeedsSharedDir, "teleport-push requires --shared-dir"),
        (Error::PushArgumentNotText, "teleport-push argument is not valid UTF-8"),
        (Error::PushUsage, "usage: teleport-push <local-path-under-/shared> <remote-path>"),
        (Error::CurrentDirNotText, "current dir is not valid UTF-8"),
        (Error::NoExistingParent(p("/a")), "shared path has no existing parent: /a"),
        (Error::OutsideSharedDir(p("/shared")), "shared path must stay under /shared"),
        (Error::NoFileName(t("/")), "path has no valid file name: /"),
        (
            Error::EnvMissing(t("X")),
            "missing required environment variable `X`: environment variable not found",
        ),
        (
            Error::InvalidEnvPort(t("x"), NumberError::InvalidDigit),
            "invalid TELEPORT_REMOTE_PORT: x: invalid digit found in string",
        ),
    ];
    for (error, words) in said {
        assert_eq!(error.message(), words);
    }
    let broken = OsText::from_bytes(vec![0xff]);
    assert_eq!(Error::NodeMissing(broken).message(), "node binary does not exist: \u{fffd}");
    assert_eq!(
        Error::EnvNotText(t("X"), t("\"a\\xFF\"")).message(),
        "missing required environment variable `X`: environment variable was not valid unicode: \"a\\xFF\""
    );
}
