use teleport_box::bwrap::{
    paths_to_look_at, run_inside_bwrap, wrapper_environment, HostFacts,
};
use teleport_box::config::{LaunchSpec, RemoteProfile, RuntimeLayout, TeleportConfig};
use teleport_box::names::ExecIndex;
use teleport_box::os_text::{OsText, PathSet};
use teleport_box::probe::wrapped_command_names;
use teleport_box::sandbox::{
    base_remote_bind_targets, overlay_source_dir, overlay_target_dirs, remote_bind_targets,
    source_for_remote_target, start_dir_for_bwrap,
};
use teleport_box::staging::prepare_runtime;
use teleport_box::wrapper::{EnvValue, WrapperEnv, WrapperVars};

fn os(s: &str) -> OsText {
    OsText::from_text(s)
}

fn owned(list: &[&str]) -> Vec<String> {
    list.iter().map(|s| s.to_string()).collect()
}

fn config() -> TeleportConfig {
    TeleportConfig {
        host: "example.com".to_string(),
        user: Some("root".to_string()),
        port: Some(22),
        identity_file: Some(os("/tmp/id")),
        ssh_options: vec![],
        batch_mode: false,
        remote_cwd: "/workspace/demo".to_string(),
        remote_home: "/root".to_string(),
        remote_shell: None,
        remote_bin_dirs: vec![],
        shared_dir: None,
    }
}

fn profile(programs: &[(&str, &str)]) -> RemoteProfile {
    let mut exec_names_by_dir = ExecIndex::new();
    for (dir, name) in programs {
        exec_names_by_dir.add(dir, name);
    }
    RemoteProfile {
        shell_path: "/bin/sh".to_string(),
        shell_name: "sh".to_string(),
        remote_path: owned(&["/usr/bin", "/bin"]),
        exec_names_by_dir,
        busybox_like: false,
    }
}

fn layout() -> RuntimeLayout {
    prepare_runtime(&os("/tmp/run"), &os("/usr/bin/teleport-box")).0
}

fn host(present: &[&str]) -> HostFacts {
    let mut set = PathSet::new();
    for p in present {
        set.insert(os(p));
    }
    HostFacts { present: set, ssh_binary: os("/usr/bin/ssh"), term: Some(os("xterm")) }
}

fn command(config: &TeleportConfig, profile: &RemoteProfile, host: &HostFacts) -> Vec<String> {
    let launch = LaunchSpec::Arbitrary {
        program: "uname".to_string(),
        args: owned(&["-a"]),
        apply_patch_binary: None,
    };
    let command = run_inside_bwrap(config, &layout(), profile, &launch, host);
    assert_eq!(command.program, os("bwrap"));
    command.args.into_vec().iter().map(|t| t.shown()).collect()
}

fn after<'a>(args: &'a [String], name: &str) -> Option<&'a str> {
    let i = args.windows(2).position(|w| w[0] == "--setenv" && w[1] == name)?;
    Some(&args[i + 2])
}

fn has(args: &[String], part: &[&str]) -> bool {
    args.windows(part.len()).any(|w| w == part)
}

fn env_of(config: &TeleportConfig, profile: &RemoteProfile) -> WrapperEnv {
    let values: Vec<Option<EnvValue>> = wrapper_environment(config, profile)
        .iter()
        .map(|v| Some(EnvValue { bytes: os(v), quoted: format!("{v:?}") }))
        .collect();
    WrapperEnv::load(&WrapperVars::from_values(&values)).unwrap()
}

#[test]
fn remote_targets_include_remote_cwd_when_needed() {
    let config = TeleportConfig {
        host: "example.com".to_string(),
        user: Some("root".to_string()),
        port: Some(22),
        identity_file: Some(OsText::from_text("/tmp/id")),
        ssh_options: vec![],
        batch_mode: false,
        remote_cwd: "/workspace/demo".to_string(),
        remote_home: "/root".to_string(),
        remote_shell: None,
        remote_bin_dirs: vec![],
        shared_dir: None,
    };
    let targets = base_remote_bind_targets(&config);
    assert!(targets.contains(&"/workspace/demo".to_string()));
    assert!(targets.contains(&"/root".to_string()));
}

#[test]
fn wrapped_commands_follow_remote_profile_only() {
    let mut exec_names_by_dir = ExecIndex::new();
    for name in ["sh", "grep", "ssh"] {
        exec_names_by_dir.add("/usr/bin", name);
    }
    let profile = RemoteProfile {
        shell_path: "/bin/sh".to_string(),
        shell_name: "sh".to_string(),
        remote_path: vec!["/usr/bin".to_string()],
        exec_names_by_dir,
        busybox_like: false,
    };

    let wrapped = wrapped_command_names(&profile);
    assert!(wrapped.contains("sh"));
    assert!(wrapped.contains("grep"));
    assert!(wrapped.contains("ssh"));
    assert!(!wrapped.contains("apt-get"));
}

#[test]
fn wrapped_commands_keep_remote_codex_when_present() {
    let mut exec_names_by_dir = ExecIndex::new();
    for name in ["codex", "node"] {
        exec_names_by_dir.add("/usr/local/bin", name);
    }
    let profile = RemoteProfile {
        shell_path: "/bin/sh".to_string(),
        shell_name: "sh".to_string(),
        remote_path: vec!["/usr/local/bin".to_string()],
        exec_names_by_dir,
        busybox_like: false,
    };

    let wrapped = wrapped_command_names(&profile);
    assert!(wrapped.contains("codex"));
    assert!(wrapped.contains("node"));
}

#[test]
fn wrapped_commands_are_those_of_the_remote_host_and_the_helpers() {
    let profile = profile(&[("/usr/bin", "grep"), ("/bin", "cat"), ("/bin", "grep")]);
    assert_eq!(
        wrapped_command_names(&profile).to_vec(),
        owned(&["cat", "grep", "sh", "teleport-pull", "teleport-push"])
    );
}

#[test]
fn mounted_directories_cover_what_is_needed() {
    let mut config = config();
    config.remote_cwd = "/home/me".to_string();
    assert_eq!(
        base_remote_bind_targets(&config),
        owned(&["/home", "/media", "/mnt", "/opt", "/root", "/srv", "/usr/local", "/var/tmp"])
    );
    config.remote_cwd = "/data".to_string();
    config.remote_bin_dirs = owned(&["/opt/tool/bin", "/data/bin", "/snap/bin", "/snap/bin/x"]);
    let profile = profile(&[("/usr/bin", "ls"), ("/usr/local/bin", "x"), ("/app", "y")]);
    assert_eq!(
        remote_bind_targets(&config, &profile),
        owned(&[
            "/app",
            "/data",
            "/home",
            "/media",
            "/mnt",
            "/opt",
            "/root",
            "/snap/bin",
            "/srv",
            "/usr/bin",
            "/usr/local",
            "/var/tmp",
        ])
    );
    assert_eq!(
        overlay_target_dirs(&config, &profile),
        owned(&[
            "/app",
            "/data/bin",
            "/opt/tool/bin",
            "/snap/bin",
            "/snap/bin/x",
            "/usr/bin",
            "/usr/local/bin",
        ])
    );
}

#[test]
fn the_sandbox_starts_in_the_working_directory() {
    for cwd in ["/root", "/data", "/usr/local/src", "/"] {
        let mut config = config();
        config.remote_cwd = cwd.to_string();
        assert_eq!(start_dir_for_bwrap(&config), cwd);
    }
}

#[test]
fn sources_lie_in_their_roots() {
    assert_eq!(source_for_remote_target(&os("/m"), "/"), os("/m"));
    assert_eq!(source_for_remote_target(&os("/m"), "//opt/x"), os("/m/opt/x"));
    assert_eq!(overlay_source_dir(&os("/o"), "/usr/bin"), os("/o/usr/bin"));
    assert_eq!(overlay_source_dir(&os("/o"), "/"), os("/o/"));
}

#[test]
fn the_whole_sandbox() {
    let mut config = config();
    config.remote_cwd = "/root".to_string();
    config.identity_file = None;
    let profile = profile(&[("/usr/bin", "ls")]);
    let args = command(
        &config,
        &profile,
        &host(&["/usr", "/tmp/run/remote-root/root", "/tmp/run/exec-overlay/usr/bin"]),
    );
    let expected = [
        "--die-with-parent", "--new-session", "--proc", "/proc", "--dev", "/dev", "--tmpfs", "/tmp",
        "--unsetenv", "SSH_AUTH_SOCK", "--unsetenv", "GIT_DIR", "--unsetenv", "GIT_WORK_TREE",
        "--unsetenv", "GIT_INDEX_FILE", "--unsetenv", "PYTHONPATH", "--unsetenv", "VIRTUAL_ENV",
        "--unsetenv", "PIP_REQUIRE_VIRTUALENV", "--dir", "/usr", "--ro-bind", "/usr", "/usr",
        "--dir", "/codex", "--dir", "/codex/bin", "--dir", "/codex", "--dir", "/codex/home",
        "--dir", "/codex", "--dir", "/codex/wrappers", "--dir", "/codex", "--dir",
        "/codex/host-bin", "--dir", "/codex", "--dir", "/codex/ssh", "--dir", "/codex", "--dir",
        "/codex/ssh-control", "--dir", "/remote-root", "--dir", "/shared", "--dir", "/codex",
        "--dir", "/codex/bin", "--ro-bind", "/usr/bin/teleport-box", "/codex/bin/teleport-box",
        "--dir", "/codex", "--dir", "/codex/host-bin", "--ro-bind", "/usr/bin/ssh",
        "/codex/host-bin/ssh", "--bind", "/tmp/run/codex-home", "/codex/home", "--ro-bind",
        "/tmp/run/wrappers", "/codex/wrappers", "--dir", "/codex", "--dir", "/codex/ssh", "--bind",
        "/tmp/run/ssh/known_hosts", "/codex/ssh/known_hosts", "--bind", "/tmp/run/ssh-control",
        "/codex/ssh-control", "--bind", "/tmp/run/remote-root", "/remote-root", "--tmpfs",
        "/shared", "--dir", "/root", "--bind", "/tmp/run/remote-root/root", "/root", "--dir",
        "/usr", "--dir", "/usr/bin", "--ro-bind", "/tmp/run/exec-overlay/usr/bin", "/usr/bin",
        "--setenv", "PATH", "/codex/wrappers:/usr/bin:/bin", "--setenv", "HOME", "/codex/home",
        "--setenv", "SHELL", "/codex/wrappers/sh", "--setenv", "TERM", "xterm", "--setenv",
        "TMPDIR", "/tmp", "--setenv", "TELEPORT_REMOTE_DESTINATION", "root@example.com",
        "--setenv", "TELEPORT_REMOTE_PORT", "22", "--setenv", "TELEPORT_REMOTE_CWD", "/root",
        "--setenv", "TELEPORT_REMOTE_HOME", "/root", "--setenv", "TELEPORT_REMOTE_SHELL",
        "/bin/sh", "--setenv", "TELEPORT_REMOTE_PATH", "/usr/bin:/bin", "--setenv",
        "TELEPORT_IDENTITY_FILE", "", "--setenv", "TELEPORT_KNOWN_HOSTS", "/codex/ssh/known_hosts",
        "--setenv", "TELEPORT_HOST_SSH", "/codex/host-bin/ssh", "--setenv",
        "TELEPORT_SSH_CONTROL_PATH", "/codex/ssh-control/control.sock", "--setenv",
        "TELEPORT_BATCH_MODE", "0", "--setenv", "TELEPORT_SSH_OPTIONS", "", "--setenv",
        "TELEPORT_SHARED_DIR", "", "--dir", "/root", "--chdir", "/root", "--", "uname", "-a",
    ];
    assert_eq!(args, expected);
}

#[test]
fn identity_shared_directory_and_terminal() {
    let mut config = config();
    config.shared_dir = Some(os("/home/me/shared"));
    let profile = profile(&[]);
    let mut facts = host(&["/tmp/run/ssh/id_ed25519"]);
    facts.term = None;
    let args = command(&config, &profile, &facts);
    assert!(has(&args, &["--bind", "/tmp/run/ssh/id_ed25519", "/codex/ssh/id_ed25519"]));
    assert!(has(&args, &["--bind", "/home/me/shared", "/shared"]));
    assert!(!has(&args, &["--tmpfs", "/shared"]));
    assert_eq!(after(&args, "TERM"), Some("xterm-256color"));
    assert_eq!(after(&args, "TELEPORT_IDENTITY_FILE"), Some("/codex/ssh/id_ed25519"));
    assert_eq!(after(&args, "TELEPORT_SHARED_DIR"), Some("/shared"));
    assert!(has(&args, &["--dir", "/workspace", "--dir", "/workspace/demo", "--chdir", "/workspace/demo"]));
    facts.present = PathSet::new();
    facts.term = Some(OsText::from_bytes(vec![0xff]));
    let args = command(&config, &profile, &facts);
    assert!(!args.contains(&"/tmp/run/ssh/id_ed25519".to_string()));
    assert_eq!(after(&args, "TERM"), Some("xterm-256color"));
}

#[test]
fn codex_is_run_by_node() {
    let launch = LaunchSpec::Codex {
        codex_package_root: os("/npm/codex"),
        node_binary: os("/usr/bin/node"),
        apply_patch_binary: Some(os("/usr/bin/apply_patch")),
        codex_args: owned(&["exec"]),
    };
    let command = run_inside_bwrap(&config(), &layout(), &profile(&[]), &launch, &host(&[]));
    let args: Vec<String> = command.args.into_vec().iter().map(|t| t.shown()).collect();
    let end = [
        "--dir", "/codex", "--dir", "/codex/npm", "--dir", "/codex/npm/codex", "--ro-bind",
        "/npm/codex", "/codex/npm/codex", "--dir", "/codex", "--dir", "/codex/bin", "--ro-bind",
        "/usr/bin/node", "/codex/bin/node", "--dir", "/codex", "--dir", "/codex/bin", "--ro-bind",
        "/usr/bin/apply_patch", "/codex/bin/apply_patch", "--", "/codex/bin/node",
        "/codex/npm/codex/bin/codex.js", "exec",
    ];
    assert_eq!(args[args.len() - end.len()..], end);
}

#[test]
fn replaced_directories_come_last() {
    let profile = profile(&[("/usr/bin", "ls")]);
    let args = command(
        &config(),
        &profile,
        &host(&[
            "/usr",
            "/tmp/run/remote-root/usr/bin",
            "/tmp/run/exec-overlay/usr/bin",
        ]),
    );
    let at = |part: &[&str]| args.windows(3).position(|w| w == part).unwrap();
    let system = at(&["--ro-bind", "/usr", "/usr"]);
    let remote = at(&["--bind", "/tmp/run/remote-root/usr/bin", "/usr/bin"]);
    let replaced = at(&["--ro-bind", "/tmp/run/exec-overlay/usr/bin", "/usr/bin"]);
    assert!(system < remote && remote < replaced);
}

#[test]
fn only_paths_that_are_looked_at_matter() {
    let config = config();
    let profile = profile(&[("/usr/bin", "ls")]);
    let looked: Vec<String> =
        paths_to_look_at(&config, &layout(), &profile).iter().map(|t| t.shown()).collect();
    assert!(looked.contains(&"/lib64".to_string()));
    assert!(looked.contains(&"/tmp/run/ssh/id_ed25519".to_string()));
    assert!(looked.contains(&"/tmp/run/remote-root/workspace/demo".to_string()));
    assert!(looked.contains(&"/tmp/run/exec-overlay/usr/bin".to_string()));
    assert!(looked.contains(&"/usr/bin".to_string()));
    assert_eq!(looked.len(), 6 + 1 + 10 + 1 + 2);
    assert_eq!(
        command(&config, &profile, &host(&["/usr"])),
        command(&config, &profile, &host(&["/usr", "/somewhere/else"]))
    );
}

#[test]
fn wrapped_commands_read_what_the_sandbox_was_told() {
    let mut config = config();
    config.batch_mode = true;
    config.shared_dir = Some(os("/home/me/shared"));
    config.ssh_options = owned(&["A=1", "B=2 3"]);
    let profile = profile(&[]);
    let env = env_of(&config, &profile);
    assert_eq!(env.destination, "root@example.com");
    assert_eq!(env.port, Some(22));
    assert_eq!(env.identity_file.as_deref(), Some("/codex/ssh/id_ed25519"));
    assert_eq!(env.known_hosts, "/codex/ssh/known_hosts");
    assert_eq!(env.control_path.as_deref(), Some("/codex/ssh-control/control.sock"));
    assert_eq!(env.host_ssh, "/codex/host-bin/ssh");
    assert!(env.batch_mode);
    assert_eq!(env.ssh_options, config.ssh_options);
    assert_eq!(env.remote_cwd, "/workspace/demo");
    assert_eq!(env.remote_home, "/root");
    assert_eq!(env.remote_shell, "/bin/sh");
    assert_eq!(env.remote_path, "/usr/bin:/bin");
    assert_eq!(env.shared_dir, Some(os("/shared")));
    config.port = None;
    config.identity_file = None;
    config.shared_dir = None;
    config.batch_mode = false;
    config.ssh_options = vec![];
    let env = env_of(&config, &profile);
    assert_eq!(env.port, None);
    assert_eq!(env.identity_file, None);
    assert_eq!(env.shared_dir, None);
    assert!(!env.batch_mode);
    assert!(env.ssh_options.is_empty());
}

#[test]
fn local_programs_are_denied_on_the_search_path() {
    let config = config();
    let mut profile = profile(&[("/usr/bin", "ls")]);
    let hidden = |profile: &RemoteProfile, present: &[&str]| {
        let args = command(&config, profile, &host(present));
        let end = args.iter().position(|a| a == "--setenv").unwrap();
        args[..end]
            .windows(2)
            .filter(|w| w[0] == "--tmpfs" && w[1] != "/tmp" && w[1] != "/shared")
            .map(|w| w[1].clone())
            .collect::<Vec<String>>()
    };
    profile.remote_path = owned(&["/usr/bin", "/usr/sbin"]);
    let overlay = "/tmp/run/exec-overlay/usr/bin";
    assert_eq!(
        hidden(&profile, &["/usr", "/usr/bin", "/usr/sbin", overlay]),
        ["/usr/sbin"]
    );
    assert!(hidden(&profile, &["/usr", "/usr/bin", overlay]).is_empty());
    assert_eq!(hidden(&profile, &["/usr", "/usr/bin"]), ["/usr/bin"]);
    profile.remote_path = owned(&["/usr/local/bin"]);
    let remote = "/tmp/run/remote-root/usr/local";
    assert!(hidden(&profile, &["/usr/local/bin", remote]).is_empty());
    assert_eq!(hidden(&profile, &["/usr/local/bin"]), ["/usr/local/bin"]);
    profile.remote_path = owned(&["/usr/local/../sbin", "//sbin/", "/usrx/bin", "/home/me/bin", "bin"]);
    assert_eq!(
        hidden(
            &profile,
            &["/usr/local/../sbin", "//sbin/", "/usrx/bin", "/home/me/bin", "bin", remote]
        ),
        ["/usr/local/../sbin", "//sbin/"]
    );
}

#[test]
fn hidden_directories_come_behind_the_system_and_before_the_rest() {
    let mut profile = profile(&[("/usr/bin", "ls")]);
    profile.remote_path = owned(&["/sbin"]);
    let args = command(
        &config(),
        &profile,
        &host(&["/sbin", "/tmp/run/remote-root/root", "/tmp/run/exec-overlay/usr/bin"]),
    );
    let at = |part: &[&str]| args.windows(part.len()).position(|w| w == part).unwrap();
    let system = at(&["--ro-bind", "/sbin", "/sbin"]);
    let hidden = at(&["--tmpfs", "/sbin"]);
    let remote = at(&["--bind", "/tmp/run/remote-root/root", "/root"]);
    let replaced = at(&["--ro-bind", "/tmp/run/exec-overlay/usr/bin", "/usr/bin"]);
    assert!(system < hidden && hidden < remote && remote < replaced);
}
