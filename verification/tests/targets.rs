use teleport_box::config::{
    absolutize, check_connection, parse_target, ConnectionArgs, TeleportConfig,
};
use teleport_box::decimal::NumberError;
use teleport_box::error::Error;
use teleport_box::os_text::OsText;

fn connection(target: Option<&str>) -> ConnectionArgs {
    ConnectionArgs {
        target: target.map(str::to_string),
        host: None,
        user: None,
        port: None,
        identity_file: None,
        ssh_option: vec![],
        batch_mode: false,
        remote_cwd: "/root".to_string(),
        remote_home: "/root".to_string(),
        remote_shell: None,
        remote_bin_dir: vec![],
        shared_dir: None,
    }
}

fn parts(target: &str) -> (Option<String>, String, Option<u16>) {
    parse_target(target).unwrap()
}

fn whole(user: Option<&str>, host: &str, port: Option<u16>) -> (Option<String>, String, Option<u16>) {
    (user.map(str::to_string), host.to_string(), port)
}

#[test]
fn parses_simple_target() {
    let (user, host, port) = parse_target("root@example.com:2222").unwrap();
    assert_eq!(user.as_deref(), Some("root"));
    assert_eq!(host, "example.com");
    assert_eq!(port, Some(2222));
}

#[test]
fn parses_alias_target() {
    let (user, host, port) = parse_target("prod-box").unwrap();
    assert_eq!(user, None);
    assert_eq!(host, "prod-box");
    assert_eq!(port, None);
}

#[test]
fn parses_bracketed_ipv6_target() {
    let (user, host, port) = parse_target("root@[2001:db8::1]:2200").unwrap();
    assert_eq!(user.as_deref(), Some("root"));
    assert_eq!(host, "2001:db8::1");
    assert_eq!(port, Some(2200));
}

#[test]
fn sshfs_source_rewraps_ipv6_literals() {
    let config = TeleportConfig {
        host: "2001:db8::1".to_string(),
        user: Some("root".to_string()),
        port: Some(2200),
        identity_file: None,
        ssh_options: vec![],
        batch_mode: false,
        remote_cwd: "/root".to_string(),
        remote_home: "/root".to_string(),
        remote_shell: None,
        remote_bin_dirs: vec![],
        shared_dir: None,
    };

    assert_eq!(config.sshfs_source_root(), "root@[2001:db8::1]:/");
}

#[test]
fn target_forms() {
    assert_eq!(parts("ssh://root@host:22"), whole(Some("root"), "host", Some(22)));
    assert_eq!(parts("  host \t\n"), whole(None, "host", None));
    assert_eq!(parts("host:22"), whole(None, "host", Some(22)));
    assert_eq!(parts("[::1]"), whole(None, "::1", None));
    assert_eq!(parts("ssh://[::1]:8022"), whole(None, "::1", Some(8022)));
    assert_eq!(parts("u@[fe80::1%eth0]"), whole(Some("u"), "fe80::1%eth0", None));
    assert_eq!(parts("2001:db8::1"), whole(None, "2001:db8::1", None));
    assert_eq!(parts("root@2001:db8::1"), whole(Some("root"), "2001:db8::1", None));
    assert_eq!(parts("host:name"), whole(None, "host:name", None));
    assert_eq!(parts("a@b@c"), whole(Some("a"), "b@c", None));
    assert_eq!(parts("@[::1]"), whole(Some(""), "::1", None));
    assert_eq!(parts("ssh://"), whole(None, "", None));
}

#[test]
fn targets_that_are_refused() {
    let refused = |target: &str| parse_target(target).unwrap_err();
    assert_eq!(refused(" \u{3000} "), Error::EmptyTarget);
    assert_eq!(refused("@host"), Error::InvalidTarget("@host".to_string()));
    assert_eq!(refused("ssh://root@"), Error::InvalidTarget("ssh://root@".to_string()));
    assert_eq!(refused("root@[::1"), Error::UnclosedBracket("root@[::1".to_string()));
    assert_eq!(refused("[::1]x"), Error::InvalidTargetSuffix("x".to_string()));
    assert_eq!(
        refused("host:"),
        Error::InvalidTargetPort(String::new(), NumberError::Empty)
    );
    assert_eq!(
        refused("host:65536"),
        Error::InvalidTargetPort("65536".to_string(), NumberError::TooLarge)
    );
    assert_eq!(
        refused("[::1]:ssh"),
        Error::InvalidTargetPort("ssh".to_string(), NumberError::InvalidDigit)
    );
    assert_eq!(refused("[::1]:ssh").message(), "invalid TARGET port: ssh: invalid digit found in string");
}

#[test]
fn white_space_and_the_scheme_do_not_matter() {
    for target in ["root@example.com:2222", "prod-box", "root@[2001:db8::1]:2200", "[::1]"] {
        assert_eq!(parts(&format!(" \r\n{target}\u{a0}")), parts(target));
        assert_eq!(parts(&format!("ssh://{target}")), parts(target));
    }
    for target in ["@host", "root@", "[::1", "[::1]x", "host:65536"] {
        assert!(parse_target(target).is_err());
        assert!(parse_target(&format!("ssh://{target}")).is_err());
    }
}

#[test]
fn connections_are_checked_in_order() {
    let mut wrong = connection(None);
    assert_eq!(check_connection(&wrong).unwrap_err(), Error::MissingTarget);
    wrong.remote_bin_dir = vec!["/opt/bin".to_string(), "bin".to_string()];
    assert_eq!(check_connection(&wrong).unwrap_err(), Error::RemoteBinDirNotAbsolute);
    wrong.remote_home = String::new();
    assert_eq!(check_connection(&wrong).unwrap_err(), Error::RemoteHomeNotAbsolute);
    wrong.remote_cwd = "~".to_string();
    assert_eq!(check_connection(&wrong).unwrap_err(), Error::RemoteCwdNotAbsolute);
    let mut mixed = connection(Some("host"));
    mixed.port = Some(22);
    assert_eq!(check_connection(&mixed).unwrap_err(), Error::MixedTarget);
    let mut parts = connection(None);
    parts.host = Some("a:b".to_string());
    parts.user = Some("me".to_string());
    parts.port = Some(1);
    assert_eq!(check_connection(&parts).unwrap(), whole(Some("me"), "a:b", Some(1)));
}

#[test]
fn a_connection_becomes_a_configuration() {
    let mut given = connection(Some("root@host:22"));
    given.identity_file = Some(OsText::from_text("id"));
    given.ssh_option = vec!["Compression=yes".to_string()];
    given.remote_shell = Some("/bin/ash".to_string());
    given.batch_mode = true;
    let config = TeleportConfig::from_connection(
        given,
        Some(OsText::from_text("/home/me/id")),
        Some(OsText::from_text("/ignored")),
    )
    .unwrap();
    assert_eq!(config.ssh_destination(), "root@host");
    assert_eq!(config.sshfs_source_root(), "root@host:/");
    assert_eq!(config.port, Some(22));
    assert_eq!(config.identity_file, Some(OsText::from_text("/home/me/id")));
    assert_eq!(config.shared_dir, None);
    assert_eq!(config.ssh_options, vec!["Compression=yes".to_string()]);
    assert_eq!(config.remote_shell.as_deref(), Some("/bin/ash"));
    assert!(config.batch_mode);
}

#[test]
fn sources_without_a_user_or_with_brackets() {
    let config = |host: &str| {
        let mut args = connection(None);
        args.host = Some(host.to_string());
        TeleportConfig::from_connection(args, None, None).unwrap()
    };
    assert_eq!(config("host").sshfs_source_root(), "host:/");
    assert_eq!(config("::1").sshfs_source_root(), "[::1]:/");
    assert_eq!(config("[::1]").sshfs_source_root(), "[::1]:/");
    assert_eq!(config("::1").ssh_destination(), "::1");
}

#[test]
fn relative_paths_are_made_absolute() {
    let at = |p: &str| absolutize(&OsText::from_text(p), &OsText::from_text("/work"));
    assert_eq!(at("/shared"), OsText::from_text("/shared"));
    assert_eq!(at("shared"), OsText::from_text("/work/shared"));
}
