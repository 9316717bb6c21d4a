use teleport_box::config::{RuntimeLayout, TeleportConfig, LOCAL_ONLY_PREFIXES, SANDBOX_HELPER_COMMANDS};
use teleport_box::decimal::NumberError;
use teleport_box::error::Error;
use teleport_box::os_text::OsText;
use teleport_box::probe::{
    busybox_script, exec_dirs, exec_map_script, parse_exec_map, path_script, probe_command,
    probe_remote_exec_map, probe_remote_profile, probe_shell_path, remote_profile,
    run_probe_capture, shell_candidates, shell_test_command, split_remote_path, ProbeAction, Reply,
    ShellStep,
};
use teleport_box::shell::quoted_command;
use teleport_box::staging::prepare_runtime;
use teleport_box::util::ProcessStatus;
use teleport_box::wrapper::{
    build_remote_command, env_optional, env_required, maybe_run_wrapper,
    remote_cwd_for_current_dir, run_wrapper, shell_with_arg, shell_with_command, ssh_command,
    ssh_command_from_env, ssh_master_command, CommandLine, EnvValue, WrapperCall, WrapperEnv,
    WrapperVars, WRAPPER_VARIABLES,
};

fn os(s: &str) -> OsText {
    OsText::from_text(s)
}

fn owned(list: &[&str]) -> Vec<String> {
    list.iter().map(|s| s.to_string()).collect()
}

fn config() -> TeleportConfig {
    TeleportConfig {
        host: "host".to_string(),
        user: Some("root".to_string()),
        port: Some(2222),
        identity_file: Some(os("/home/me/id")),
        ssh_options: owned(&["Compression=yes"]),
        batch_mode: true,
        remote_cwd: "/root".to_string(),
        remote_home: "/root".to_string(),
        remote_shell: None,
        remote_bin_dirs: vec![],
        shared_dir: None,
    }
}

fn layout() -> RuntimeLayout {
    prepare_runtime(&os("/tmp/run"), &os("/usr/bin/teleport-box")).0
}

fn shown(command: CommandLine) -> (String, Vec<String>) {
    let args = command.args.into_vec().iter().map(|t| t.shown()).collect();
    (command.program.shown(), args)
}

fn value(bytes: OsText) -> Option<EnvValue> {
    let quoted = format!("<{}>", bytes.shown());
    Some(EnvValue { bytes, quoted })
}

fn vars() -> Vec<Option<EnvValue>> {
    [
        "root@host",
        "2222",
        "/root",
        "/home/me",
        "/bin/sh",
        "/usr/bin:/bin",
        "",
        "/codex/ssh/known_hosts",
        "/codex/host-bin/ssh",
        "",
        "0",
        "",
        "/shared",
    ]
    .iter()
    .map(|v| value(os(v)))
    .collect()
}

fn load(values: &Vec<Option<EnvValue>>) -> Result<WrapperEnv, Error> {
    WrapperEnv::load(&WrapperVars::from_values(values))
}

fn at(name: &str) -> usize {
    WRAPPER_VARIABLES.iter().position(|n| *n == name).unwrap()
}

#[test]
fn split_remote_path_uses_fallback_when_empty() {
    let parsed = split_remote_path("");
    assert!(!parsed.is_empty());
    assert!(parsed.iter().any(|entry| entry == "/usr/bin"));
}

#[test]
fn search_paths_are_split_and_cleaned() {
    let default =
        owned(&["/usr/local/sbin", "/usr/local/bin", "/usr/sbin", "/usr/bin", "/sbin", "/bin"]);
    assert_eq!(split_remote_path(""), default);
    assert_eq!(split_remote_path(" : :"), default);
    assert_eq!(split_remote_path("/a: /b ::/a"), owned(&["/a", "/b", "/a"]));
}

#[test]
fn local_control_plane_paths_fall_back_to_default_remote_cwd() {
    let cwd = "/codex/home";
    assert!(
        LOCAL_ONLY_PREFIXES
            .iter()
            .any(|prefix| cwd == *prefix || cwd.starts_with(&format!("{prefix}/")))
    );
    assert_eq!(remote_cwd_for_current_dir("/root", &None, &os(cwd)).unwrap(), "/root");
}

#[test]
fn helper_commands_are_explicit() {
    assert!(SANDBOX_HELPER_COMMANDS.contains(&"teleport-pull"));
    assert!(SANDBOX_HELPER_COMMANDS.contains(&"teleport-push"));
}

#[test]
fn remote_directories_for_local_ones() {
    let dir = |cwd: &str| remote_cwd_for_current_dir("/root", &Some(os("/data/shared")), &os(cwd));
    assert_eq!(dir("/srv/app").unwrap(), "/srv/app");
    assert_eq!(dir("/data/shared/x").unwrap(), "/root");
    assert_eq!(dir("/data/sharedx").unwrap(), "/data/sharedx");
    assert_eq!(dir("/tmp").unwrap(), "/root");
    assert_eq!(dir("/tmpfiles").unwrap(), "/tmpfiles");
    assert_eq!(
        remote_cwd_for_current_dir("/root", &None, &OsText::from_bytes(vec![47, 0xff])).unwrap_err(),
        Error::CurrentDirNotText
    );
}

#[test]
fn ssh_connects_with_these_arguments() {
    let (program, args) = shown(ssh_command(&config(), &layout(), &Some(os("/usr/bin/ssh"))));
    assert_eq!(program, "/usr/bin/ssh");
    assert_eq!(
        args,
        [
            "-F",
            "/dev/null",
            "-i",
            "/tmp/run/ssh/id_ed25519",
            "-p",
            "2222",
            "-o",
            "BatchMode=yes",
            "-o",
            "StrictHostKeyChecking=accept-new",
            "-o",
            "UserKnownHostsFile=/tmp/run/ssh/known_hosts",
            "-o",
            "ControlMaster=auto",
            "-o",
            "ControlPersist=no",
            "-S",
            "/tmp/run/ssh-control/control.sock",
            "-o",
            "Compression=yes",
            "root@host",
        ]
    );
    let mut plain = config();
    plain.identity_file = None;
    plain.port = None;
    plain.batch_mode = false;
    plain.ssh_options = vec![];
    plain.user = None;
    let (program, args) = shown(ssh_master_command(&plain, &layout(), &None));
    assert_eq!(program, "ssh");
    assert_eq!(
        args,
        [
            "-F",
            "/dev/null",
            "-o",
            "StrictHostKeyChecking=accept-new",
            "-o",
            "UserKnownHostsFile=/tmp/run/ssh/known_hosts",
            "host",
        ]
    );
}

#[test]
fn commands_for_remote_shells() {
    assert_eq!(
        build_remote_command("/a b", "/root", "/bin", &owned(&["echo", "it's", ""])),
        "unset SSH_CLIENT SSH_CONNECTION SSH_TTY; export HISTFILE=/dev/null HISTSIZE=0; cd -- '/a b' && exec env HOME='/root' PATH='/bin' 'echo' 'it'\"'\"'s' ''"
    );
    assert_eq!(shell_with_command("/bin/sh", "a;b"), "'/bin/sh' -c 'a;b'");
    assert_eq!(
        shell_with_arg("/bin/sh", "cat -- \"$1\"", "x y"),
        "'/bin/sh' -c 'cat -- \"$1\"' sh 'x y'"
    );
    assert_eq!(quoted_command(&owned(&["a", "b c"])), "'a' 'b c'");
    assert_eq!(quoted_command(&vec![]), "");
}

#[test]
fn the_search_for_a_shell() {
    let mut config = config();
    let candidates = shell_candidates(&config);
    assert_eq!(
        candidates,
        owned(&["/bin/sh", "/bin/ash", "/bin/dash", "/bin/bash", "/usr/bin/bash", "sh"])
    );
    config.remote_shell = Some("/bin/dash".to_string());
    let candidates = shell_candidates(&config);
    assert_eq!(
        candidates,
        owned(&["/bin/dash", "/bin/sh", "/bin/ash", "/bin/bash", "/usr/bin/bash", "sh"])
    );
    let step = |worked: &[bool]| probe_shell_path(&candidates, &worked.to_vec());
    assert_eq!(step(&[]).unwrap(), ShellStep::Try("/bin/dash".to_string()));
    assert_eq!(step(&[false]).unwrap(), ShellStep::Try("/bin/sh".to_string()));
    assert_eq!(step(&[false, true]).unwrap(), ShellStep::Found("/bin/sh".to_string()));
    assert_eq!(step(&[false; 6]).unwrap_err(), Error::NoRemoteShell);
}

#[test]
fn probes_are_run_over_ssh() {
    let (_, args) = shown(shell_test_command(&config(), &layout(), &None, "/bin/sh"));
    assert_eq!(args[args.len() - 3..], ["root@host", "--", "'/bin/sh' -c ':'"]);
    let (_, args) = shown(probe_command(&config(), &layout(), &None, "sh", &path_script()));
    assert_eq!(args[args.len() - 1], "'sh' -c 'echo \"${PATH:-/usr/bin:/bin}\"'");
    assert_eq!(
        busybox_script(),
        "if command -v busybox >/dev/null 2>&1; then echo yes; else echo no; fi"
    );
    let ended = |code| ProcessStatus { code: Some(code), signal: None };
    assert_eq!(run_probe_capture(ended(0), &os(" out \n"), &os("")).unwrap(), "out");
    assert_eq!(
        run_probe_capture(ended(1), &os("out"), &os(" no\n")).unwrap_err(),
        Error::ProbeFailed("no".to_string())
    );
    assert_eq!(
        run_probe_capture(ended(0), &OsText::from_bytes(vec![97, 0xff]), &os("")).unwrap(),
        "a\u{fffd}"
    );
}

#[test]
fn programs_are_listed_by_a_script() {
    let dirs = exec_dirs(&owned(&["/usr/bin", "/bin", "/usr/bin"]), &owned(&["/opt", "/bin"]));
    assert_eq!(dirs, owned(&["/bin", "/opt", "/usr/bin"]));
    assert_eq!(exec_map_script(&vec![]), "");
    assert_eq!(
        exec_map_script(&owned(&["/bin"])),
        "if [ -d '/bin' ]; then for f in '/bin'/*; do [ -e \"$f\" ] || continue; [ -x \"$f\" ] || continue; echo '/bin|'\"${f##*/}\"; done; fi; "
    );
}

#[test]
fn programs_are_those_that_were_printed() {
    let index = parse_exec_map("/bin|sh\r\n/usr/bin|a|b\n|x\n/bin|\nnoise\n/bin|cat\n/bin|sh");
    assert_eq!(index.keys(), owned(&["/bin", "/usr/bin"]));
    assert_eq!(index.get("/bin").unwrap().to_vec(), owned(&["cat", "sh"]));
    assert_eq!(index.get("/usr/bin").unwrap().to_vec(), owned(&["a|b"]));
}

#[test]
fn profiles_of_remote_hosts() {
    let profile =
        remote_profile("/usr/bin/bash".to_string(), "/usr/bin:/bin", "/bin|sh", "yes");
    assert_eq!(profile.shell_path, "/usr/bin/bash");
    assert_eq!(profile.shell_name, "bash");
    assert_eq!(profile.remote_path, owned(&["/usr/bin", "/bin"]));
    assert_eq!(profile.exec_names_by_dir.keys(), owned(&["/bin"]));
    assert!(profile.busybox_like);
    let other = remote_profile("/".to_string(), "", "", "yes or no");
    assert_eq!(other.shell_name, "sh");
    assert!(!other.busybox_like);
}

#[test]
fn environments_of_wrapped_commands() {
    let env = load(&vars()).unwrap();
    assert_eq!(env.port, Some(2222));
    assert_eq!(env.identity_file, None);
    assert_eq!(env.control_path, None);
    assert!(!env.batch_mode);
    assert!(env.ssh_options.is_empty());
    assert_eq!(env.shared_dir, Some(os("/shared")));
    let mut values = vars();
    values[at("TELEPORT_BATCH_MODE")] = value(os("1"));
    values[at("TELEPORT_SSH_OPTIONS")] = value(os("A=1\n\nB=2"));
    values[at("TELEPORT_REMOTE_PORT")] = None;
    values[at("TELEPORT_SHARED_DIR")] = value(OsText::from_bytes(vec![0xff]));
    let env = load(&values).unwrap();
    assert!(env.batch_mode);
    assert_eq!(env.ssh_options, owned(&["A=1", "", "B=2"]));
    assert_eq!(env.port, None);
    assert_eq!(env.shared_dir, None);
}

#[test]
fn environments_that_are_refused() {
    let mut values = vars();
    values[at("TELEPORT_REMOTE_HOME")] = None;
    assert_eq!(
        load(&values).unwrap_err(),
        Error::EnvMissing("TELEPORT_REMOTE_HOME".to_string())
    );
    let broken = OsText::from_bytes(vec![0xff]);
    values[at("TELEPORT_HOST_SSH")] = value(broken);
    assert_eq!(
        load(&values).unwrap_err(),
        Error::EnvNotText("TELEPORT_HOST_SSH".to_string(), "<\u{fffd}>".to_string())
    );
    values[at("TELEPORT_REMOTE_PORT")] = value(os("ssh"));
    assert_eq!(
        load(&values).unwrap_err(),
        Error::InvalidEnvPort("ssh".to_string(), NumberError::InvalidDigit)
    );
    assert_eq!(env_optional(&value(os(""))), None);
    assert_eq!(env_optional(&value(os("x"))), Some("x".to_string()));
    assert_eq!(env_required("X", &value(os(""))).unwrap(), "");
}

#[test]
fn wrapped_commands_run_on_the_remote_host() {
    let env = load(&vars()).unwrap();
    let (program, connection) = shown(ssh_command_from_env(&env));
    assert_eq!(program, "/codex/host-bin/ssh");
    assert_eq!(
        connection,
        [
            "-F",
            "/dev/null",
            "-p",
            "2222",
            "-o",
            "StrictHostKeyChecking=accept-new",
            "-o",
            "UserKnownHostsFile=/codex/ssh/known_hosts",
            "root@host",
        ]
    );
    let run = |args: &[OsText], cwd: &str, terminal| {
        run_wrapper(&env, "grep", &args.to_vec(), &os(cwd), terminal)
    };
    let (_, args) = shown(run(&[os("a b")], "/srv", true).unwrap());
    assert_eq!(args[..connection.len()], connection[..]);
    assert_eq!(args[connection.len()..connection.len() + 2], ["-tt", "--"]);
    let remote = build_remote_command("/srv", "/home/me", "/usr/bin:/bin", &owned(&["grep", "a b"]));
    assert_eq!(args[args.len() - 1], shell_with_command("/bin/sh", &remote));
    let (_, args) = shown(run(&[], "/shared", false).unwrap());
    assert_eq!(args[args.len() - 2], "--");
    assert!(args[args.len() - 1].contains("cd -- '\"'\"'/root'\"'\"'"));
    assert!(!args.contains(&"-tt".to_string()));
    assert_eq!(
        run(&[OsText::from_bytes(vec![0xff])], "/", false).unwrap_err(),
        Error::WrapperArgumentNotText
    );
}

#[test]
fn the_tool_goes_by_the_name_it_is_called_by() {
    let call = |argv0: &str, inside| maybe_run_wrapper(&Some(os(argv0)), inside);
    assert_eq!(call("/usr/bin/teleport-box", true), None);
    assert_eq!(call("/codex/wrappers/grep", false), None);
    assert_eq!(call("/codex/wrappers/grep", true), Some(WrapperCall::Command("grep".to_string())));
    assert_eq!(call("teleport-pull", true), Some(WrapperCall::Pull));
    assert_eq!(call("teleport-push", true), Some(WrapperCall::Push));
    assert_eq!(call("/", true), None);
    assert_eq!(maybe_run_wrapper(&None, true), None);
}

fn replied(code: i32, stdout: &str, stderr: &str) -> Reply {
    Reply {
        status: ProcessStatus { code: Some(code), signal: None },
        stdout: os(stdout),
        stderr: os(stderr),
    }
}

fn next(replies: Vec<Reply>) -> Result<(String, String), Error> {
    match probe_remote_profile(&config(), &layout(), &None, &replies)? {
        ProbeAction::Run(command, context) => {
            Ok((shown(command).1.pop().unwrap(), context))
        }
        ProbeAction::Done(_) => panic!("nothing left to do"),
    }
}

#[test]
fn the_remote_host_is_probed_step_by_step() {
    let (command, context) = next(vec![]).unwrap();
    assert_eq!(command, "'/bin/sh' -c ':'");
    assert_eq!(context, "failed probing remote shell `/bin/sh`");
    assert_eq!(next(vec![replied(127, "", "")]).unwrap().0, "'/bin/ash' -c ':'");
    let shell = || vec![replied(127, "", ""), replied(0, "", "")];
    let (command, context) = next(shell()).unwrap();
    assert_eq!(command, shell_with_command("/bin/ash", &path_script()));
    assert_eq!(context, "failed to run remote probe via shell `/bin/ash`");
    let mut replies = shell();
    replies.push(replied(0, "/usr/bin:/bin\n", ""));
    let script = exec_map_script(&owned(&["/bin", "/usr/bin"]));
    assert_eq!(probe_remote_exec_map(&config(), "/usr/bin:/bin"), script);
    assert_eq!(next(replies).unwrap().0, shell_with_command("/bin/ash", &script));
    let mut replies = shell();
    replies.push(replied(0, "/usr/bin:/bin\n", ""));
    replies.push(replied(0, "/bin|sh\n", ""));
    assert_eq!(next(replies).unwrap().0, shell_with_command("/bin/ash", &busybox_script()));
    let mut replies = shell();
    replies.push(replied(0, "/usr/bin:/bin\n", ""));
    replies.push(replied(0, "/bin|sh\n", ""));
    replies.push(replied(0, "yes\n", ""));
    match probe_remote_profile(&config(), &layout(), &None, &replies).unwrap() {
        ProbeAction::Done(profile) => {
            assert_eq!(profile.shell_path, "/bin/ash");
            assert_eq!(profile.shell_name, "ash");
            assert_eq!(profile.remote_path, owned(&["/usr/bin", "/bin"]));
            assert_eq!(profile.exec_names_by_dir.get("/bin").unwrap().to_vec(), owned(&["sh"]));
            assert!(profile.busybox_like);
        }
        other => panic!("{other:?}"),
    }
}

#[test]
fn probes_that_fail() {
    let silent = || replied(1, "", "");
    assert_eq!(
        next(vec![silent(), silent(), silent(), silent(), silent(), silent()]).unwrap_err(),
        Error::NoRemoteShell
    );
    assert_eq!(
        next(vec![replied(0, "", ""), replied(2, "x", " gone ")]).unwrap_err(),
        Error::ProbeFailed("gone".to_string())
    );
    assert_eq!(
        next(vec![replied(0, "", ""), replied(0, "", ""), replied(1, "", "no")]).unwrap_err(),
        Error::ProbeFailed("no".to_string())
    );
}
