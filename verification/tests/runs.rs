use teleport_box::config::{
    Cli, CodexArgs, Commands, ConnectionArgs, DoctorArgs, ExecArgs, LaunchMode, LaunchSpec,
    RemoteProfile, RuntimeLayout, ShellArgs, TeleportConfig,
};
use teleport_box::error::Error;
use teleport_box::names::ExecIndex;
use teleport_box::os_text::{OsText, PathSet};
use teleport_box::probe::wrapped_command_names;
use teleport_box::runtime::{
    codex_package_dir, codex_package_root_from_binary, dispatch, doctor_mode, launch_spec,
    lazy_unmount, mount_remote_root, mounted, preflight, prepare_codex_args, resolve_local_binary,
    resolve_optional_local_binary, run_doctor, ssh_master_started, start_ssh_master, unmounted,
    Request, UNMOUNT_PROGRAMS,
};
use teleport_box::session::{Phase, Purpose, Session};
use teleport_box::staging::{
    build_exec_overlay_dirs, copied_dir, copy_dir_recursive, create_wrapper_symlinks,
    local_codex_home, local_known_hosts_path, persist_ssh_material, prepare_runtime, set_file_mode,
    stage_codex_home, stage_ssh_material, write_sshfs_command, ActionOf, CopyStep, Step,
};
use teleport_box::util::ProcessStatus;
use teleport_box::wrapper::CommandLine;

fn os(s: &str) -> OsText {
    OsText::from_text(s)
}

fn owned(list: &[&str]) -> Vec<String> {
    list.iter().map(|s| s.to_string()).collect()
}

fn set(paths: &[&str]) -> PathSet {
    let mut out = PathSet::new();
    for p in paths {
        out.insert(os(p));
    }
    out
}

fn config() -> TeleportConfig {
    TeleportConfig {
        host: "host".to_string(),
        user: Some("root".to_string()),
        port: Some(2222),
        identity_file: Some(os("/home/me/id")),
        ssh_options: owned(&["Compression=yes"]),
        batch_mode: true,
        remote_cwd: "/root".to_string(),
        remote_home: "/root".to_string(),
        remote_shell: None,
        remote_bin_dirs: vec![],
        shared_dir: None,
    }
}

fn layout() -> RuntimeLayout {
    prepare_runtime(&os("/tmp/run"), &os("/usr/bin/teleport-box")).0
}

fn profile(programs: &[(&str, &str)]) -> RemoteProfile {
    let mut exec_names_by_dir = ExecIndex::new();
    for (dir, name) in programs {
        exec_names_by_dir.add(dir, name);
    }
    RemoteProfile {
        shell_path: "/bin/ash".to_string(),
        shell_name: "ash".to_string(),
        remote_path: owned(&["/usr/bin", "/bin"]),
        exec_names_by_dir,
        busybox_like: true,
    }
}

fn connection() -> ConnectionArgs {
    ConnectionArgs {
        target: Some("host".to_string()),
        host: None,
        user: None,
        port: None,
        identity_file: None,
        ssh_option: vec![],
        batch_mode: false,
        remote_cwd: "/root".to_string(),
        remote_home: "/root".to_string(),
        remote_shell: None,
        remote_bin_dir: vec![],
        shared_dir: None,
    }
}

fn shown(command: CommandLine) -> (String, Vec<String>) {
    let args = command.args.into_vec().iter().map(|t| t.shown()).collect();
    (command.program.shown(), args)
}

fn step(action: ActionOf<String, OsText>, context: &str) -> Step {
    Step { action, context: context.to_string() }
}

fn ended(code: i32) -> ProcessStatus {
    ProcessStatus { code: Some(code), signal: None }
}

#[test]
fn codex_args_get_bypass_flag_by_default() {
    let args = prepare_codex_args(vec![
        "exec".to_string(),
        "-C".to_string(),
        "/root".to_string(),
    ]);
    assert_eq!(args[0], "--dangerously-bypass-approvals-and-sandbox");
}

#[test]
fn codex_args_do_not_duplicate_bypass_flag() {
    let args = prepare_codex_args(vec![
        "--dangerously-bypass-approvals-and-sandbox".to_string(),
        "exec".to_string(),
    ]);
    assert_eq!(
        args.iter()
            .filter(|arg| arg.as_str() == "--dangerously-bypass-approvals-and-sandbox")
            .count(),
        1
    );
}

#[test]
fn preparing_codex_args_twice_changes_nothing() {
    let once = prepare_codex_args(owned(&["exec", "-C", "/root"]));
    assert_eq!(
        once,
        owned(&["--dangerously-bypass-approvals-and-sandbox", "exec", "-C", "/root"])
    );
    assert_eq!(prepare_codex_args(once.clone()), once);
}

#[test]
fn command_lines_become_requests() {
    let cli = |command| Cli { command };
    let (args, request) = dispatch(cli(Commands::Doctor(DoctorArgs { connection: connection() })));
    assert_eq!(args.target.as_deref(), Some("host"));
    assert!(matches!(request, Request::Doctor));
    let shell = ShellArgs { connection: connection(), shell_args: owned(&["-l"]) };
    assert!(matches!(dispatch(cli(Commands::Shell(shell))).1, Request::Shell(a) if a == ["-l"]));
    let exec = ExecArgs { connection: connection(), command: owned(&["ls", "-l"]) };
    assert!(matches!(dispatch(cli(Commands::Exec(exec))).1, Request::Exec(a) if a == ["ls", "-l"]));
    let codex = CodexArgs {
        connection: connection(),
        codex_binary: Some(os("/opt/codex")),
        codex_args: owned(&["exec"]),
    };
    match dispatch(cli(Commands::Codex(codex))).1 {
        Request::Codex(binary, args) => {
            assert_eq!(binary, Some(os("/opt/codex")));
            assert_eq!(args, ["--dangerously-bypass-approvals-and-sandbox", "exec"]);
        }
        other => panic!("{other:?}"),
    }
    assert!(matches!(doctor_mode(), LaunchMode::Arbitrary(c) if c == ["true"]));
}

#[test]
fn local_programs_are_resolved() {
    let path = Some(os("/bin:/usr/bin"));
    let found = set(&["/usr/bin/ssh"]);
    let missing = "could not find local `ssh` binary";
    assert_eq!(
        resolve_local_binary(&Some(os("rel/ssh")), "ssh", missing, &path, &found).unwrap(),
        os("rel/ssh")
    );
    assert_eq!(
        resolve_local_binary(&None, "ssh", missing, &path, &found).unwrap(),
        os("/usr/bin/ssh")
    );
    assert_eq!(
        resolve_local_binary(&None, "ssh", missing, &None, &found).unwrap_err(),
        Error::LocalBinaryMissing(missing.to_string())
    );
    assert_eq!(resolve_optional_local_binary("ssh", &path, &found), Some(os("/usr/bin/ssh")));
    assert_eq!(resolve_optional_local_binary("apply_patch", &path, &found), None);
}

#[test]
fn codex_packages_are_found_next_to_the_binary() {
    let present = set(&["/npm/codex/package.json"]);
    let root = |binary: &str| codex_package_root_from_binary(&os(binary), &present);
    assert_eq!(root("/npm/codex/bin/codex.js").unwrap(), os("/npm/codex"));
    assert_eq!(root("/npm/codex/codex.js").unwrap(), os("/npm/codex"));
    assert_eq!(
        root("/npm/codex/sbin/codex.js").unwrap_err(),
        Error::CodexRootNotFound(os("/npm/codex/sbin/codex.js"))
    );
    assert_eq!(root("/").unwrap_err(), Error::CodexBinaryWithoutParent);
    assert_eq!(
        codex_package_dir(&os("bin/codex")).unwrap(),
        (os(""), os("package.json"))
    );
}

#[test]
fn everything_must_be_there() {
    let path = Some(os("/b"));
    let all = ["/b/ssh", "/b/sshfs", "/b/bwrap", "/b/fusermount"];
    let check = |mode: &LaunchMode, executable: &[&str], present: &[&str]| {
        preflight(&config(), mode, &path, &set(executable), &set(present))
    };
    let mode = doctor_mode();
    let not_found = |name: &str| Error::BinaryNotFound(name.to_string());
    assert_eq!(check(&mode, &[], &[]).unwrap_err(), not_found("ssh"));
    assert_eq!(check(&mode, &all[..1], &[]).unwrap_err(), not_found("sshfs"));
    assert_eq!(check(&mode, &all[..2], &[]).unwrap_err(), not_found("bwrap"));
    assert_eq!(check(&mode, &all[..3], &[]).unwrap_err(), not_found("fusermount"));
    assert_eq!(
        check(&mode, &all, &[]).unwrap_err(),
        Error::IdentityFileMissing(os("/home/me/id"))
    );
    assert!(check(&mode, &all, &["/home/me/id"]).is_ok());
    let newer = ["/b/ssh", "/b/sshfs", "/b/bwrap", "/b/fusermount3"];
    assert!(check(&mode, &newer, &["/home/me/id"]).is_ok());
    let codex = LaunchMode::Codex {
        codex_package_root: os("/npm"),
        node_binary: os("/node"),
        apply_patch_binary: None,
        codex_args: vec![],
    };
    assert_eq!(
        check(&codex, &all, &["/home/me/id"]).unwrap_err(),
        Error::CodexRootMissing(os("/npm"))
    );
    assert_eq!(
        check(&codex, &all, &["/home/me/id", "/npm"]).unwrap_err(),
        Error::NodeMissing(os("/node"))
    );
    assert!(check(&codex, &all, &["/home/me/id", "/npm", "/node"]).is_ok());
}

#[test]
fn what_is_launched() {
    let profile = profile(&[]);
    let patch = Some(os("/usr/bin/apply_patch"));
    match launch_spec(LaunchMode::Shell(owned(&["-l"])), &profile, patch.clone()).unwrap() {
        LaunchSpec::Arbitrary { program, args, apply_patch_binary } => {
            assert_eq!(program, "ash");
            assert_eq!(args, ["-l"]);
            assert_eq!(apply_patch_binary, patch);
        }
        other => panic!("{other:?}"),
    }
    match launch_spec(LaunchMode::Arbitrary(owned(&["ls", "-l", "x"])), &profile, None).unwrap() {
        LaunchSpec::Arbitrary { program, args, apply_patch_binary } => {
            assert_eq!(program, "ls");
            assert_eq!(args, ["-l", "x"]);
            assert_eq!(apply_patch_binary, None);
        }
        other => panic!("{other:?}"),
    }
    assert_eq!(
        launch_spec(LaunchMode::Arbitrary(vec![]), &profile, None).unwrap_err(),
        Error::MissingCommand
    );
    let codex = LaunchMode::Codex {
        codex_package_root: os("/npm"),
        node_binary: os("/node"),
        apply_patch_binary: None,
        codex_args: owned(&["x"]),
    };
    match launch_spec(codex, &profile, patch).unwrap() {
        LaunchSpec::Codex { codex_package_root, node_binary, apply_patch_binary, codex_args } => {
            assert_eq!(codex_package_root, os("/npm"));
            assert_eq!(node_binary, os("/node"));
            assert_eq!(apply_patch_binary, None);
            assert_eq!(codex_args, ["x"]);
        }
        other => panic!("{other:?}"),
    }
}

#[test]
fn the_report_on_a_remote_host() {
    let profile = profile(&[("/usr/bin", "ls"), ("/bin", "ash")]);
    assert_eq!(
        run_doctor(&config(), &profile),
        [
            "destination=root@host",
            "shell_path=/bin/ash",
            "shell_name=ash",
            "busybox_like=true",
            "remote_path=/usr/bin:/bin",
            "remote_exec_dirs=/bin:/usr/bin",
            "wrapped_commands_count=4",
            "sshfs_mount=ok",
        ]
    );
}

#[test]
fn mounting_and_unmounting() {
    let (program, args) = shown(mount_remote_root(&config(), &layout().remote_root_mount));
    assert_eq!(program, "sshfs");
    assert_eq!(
        args,
        [
            "root@host:/",
            "/tmp/run/remote-root",
            "-o",
            "ssh_command=/tmp/run/ssh/sshfs-ssh",
            "-o",
            "reconnect",
            "-o",
            "ServerAliveInterval=15",
            "-o",
            "ServerAliveCountMax=3",
        ]
    );
    assert_eq!(mounted(&os("/m"), ended(0), "").unwrap().mountpoint, os("/m"));
    assert_eq!(
        mounted(&os("/m"), ended(1), "exit status: 1").unwrap_err(),
        Error::MountFailed("exit status: 1".to_string())
    );
    assert_eq!(UNMOUNT_PROGRAMS, ["fusermount3", "fusermount"]);
    let (program, args) = shown(lazy_unmount(&os("/m"), "fusermount3"));
    assert_eq!(program, "fusermount3");
    assert_eq!(args, ["-u", "-z", "/m"]);
    assert!(unmounted("fusermount", ended(0), "exit status: 0").is_ok());
    assert!(unmounted("fusermount", ended(1), "x: No such file or directory").is_ok());
    assert!(unmounted("fusermount", ended(1), "entry not found in /etc/mtab").is_ok());
    assert_eq!(
        unmounted("fusermount", ended(1), "exit status: 1").unwrap_err(),
        Error::UnmountFailed("fusermount".to_string(), "exit status: 1".to_string())
    );
}

#[test]
fn the_shared_connection() {
    let (program, args) = shown(start_ssh_master(&config(), &layout(), &Some(os("/bin/ssh"))));
    assert_eq!(program, "/bin/ssh");
    let end = [
        "-o",
        "Compression=yes",
        "root@host",
        "-o",
        "ControlMaster=yes",
        "-o",
        "ControlPath=/tmp/run/ssh-control/control.sock",
        "-o",
        "ControlPersist=no",
        "-N",
        "-f",
    ];
    assert_eq!(args[args.len() - end.len()..], end);
    assert_eq!(
        ssh_master_started(&config(), &layout(), ended(255), "exit status: 255").unwrap_err(),
        Error::SshMasterFailed("exit status: 255".to_string())
    );
    let guard = ssh_master_started(&config(), &layout(), ended(0), "").unwrap();
    let (program, args) = shown(guard.exit_command(&None));
    assert_eq!(program, "ssh");
    assert_eq!(
        args,
        [
            "-F",
            "/dev/null",
            "-i",
            "/tmp/run/ssh/id_ed25519",
            "-p",
            "2222",
            "-o",
            "BatchMode=yes",
            "-o",
            "StrictHostKeyChecking=accept-new",
            "-o",
            "UserKnownHostsFile=/tmp/run/ssh/known_hosts",
            "-S",
            "/tmp/run/ssh-control/control.sock",
            "-o",
            "Compression=yes",
            "-O",
            "exit",
            "root@host",
        ]
    );
}

#[test]
fn runs_are_laid_out() {
    let (layout, steps) = prepare_runtime(&os("/tmp/run"), &os("/usr/bin/teleport-box"));
    assert_eq!(layout.self_binary, os("/usr/bin/teleport-box"));
    assert_eq!(layout.remote_root_mount, os("/tmp/run/remote-root"));
    assert_eq!(layout.codex_home, os("/tmp/run/codex-home"));
    assert_eq!(layout.wrapper_dir, os("/tmp/run/wrappers"));
    assert_eq!(layout.exec_overlay_root, os("/tmp/run/exec-overlay"));
    assert_eq!(layout.ssh_control_dir, os("/tmp/run/ssh-control"));
    assert_eq!(layout.ssh_control_socket, os("/tmp/run/ssh-control/control.sock"));
    assert_eq!(layout.sandbox_identity_file, os("/tmp/run/ssh/id_ed25519"));
    assert_eq!(layout.sandbox_known_hosts, os("/tmp/run/ssh/known_hosts"));
    assert_eq!(layout.sshfs_ssh_command, os("/tmp/run/ssh/sshfs-ssh"));
    let dirs = ["remote-root", "codex-home", "wrappers", "exec-overlay", "ssh", "ssh-control"];
    let expected: Vec<Step> = dirs
        .iter()
        .map(|d| step(ActionOf::CreateDirs(os(&format!("/tmp/run/{d}"))), ""))
        .collect();
    assert_eq!(steps, expected);
}

#[test]
fn ssh_material_is_staged_and_brought_back() {
    let home = Some(os("/home/me"));
    let staged = os("/tmp/run/ssh/known_hosts");
    let local = os("/home/me/.ssh/known_hosts");
    assert_eq!(
        stage_ssh_material(&config(), &layout(), &home, true),
        [
            step(
                ActionOf::Copy(os("/home/me/id"), os("/tmp/run/ssh/id_ed25519")),
                "failed to copy identity file into runtime dir: /home/me/id",
            ),
            set_file_mode(&os("/tmp/run/ssh/id_ed25519"), 0o600),
            step(
                ActionOf::Copy(local.clone(), staged.clone()),
                "failed to copy local known_hosts into runtime dir: /home/me/.ssh/known_hosts",
            ),
            step(
                ActionOf::SetMode(staged.clone(), 0o600),
                "failed to set permissions on /tmp/run/ssh/known_hosts",
            ),
        ]
    );
    let mut plain = config();
    plain.identity_file = None;
    let empty = step(
        ActionOf::Write(staged.clone(), String::new()),
        "failed to create known_hosts file",
    );
    assert_eq!(stage_ssh_material(&plain, &layout(), &home, false)[0], empty);
    assert_eq!(stage_ssh_material(&plain, &layout(), &None, true)[0], empty);
    assert_eq!(
        persist_ssh_material(&layout(), &home),
        [
            step(
                ActionOf::CreateDirs(os("/home/me/.ssh")),
                "failed to create parent directory for /home/me/.ssh/known_hosts",
            ),
            step(
                ActionOf::Copy(staged, local.clone()),
                "failed to persist runtime known_hosts to /home/me/.ssh/known_hosts",
            ),
            set_file_mode(&local, 0o600),
        ]
    );
    assert!(persist_ssh_material(&layout(), &None).is_empty());
    assert_eq!(local_known_hosts_path(&home), Some(local));
    assert_eq!(local_codex_home(&home), Some(os("/home/me/.codex")));
    assert_eq!(local_codex_home(&None), None);
}

#[test]
fn sshfs_calls_ssh_through_a_script() {
    let helper = os("/tmp/run/ssh/sshfs-ssh");
    let script = "#!/bin/sh\nexec '/usr/bin/ssh' '-F' '/dev/null' '-S' '/tmp/run/ssh-control/control.sock' '-o' 'ControlMaster=auto' '-o' 'ControlPersist=no' '-i' '/tmp/run/ssh/id_ed25519' '-p' '2222' '-o' 'BatchMode=yes' '-o' 'StrictHostKeyChecking=accept-new' '-o' 'UserKnownHostsFile=/tmp/run/ssh/known_hosts' '-o' 'Compression=yes' \"$@\"\n";
    assert_eq!(
        write_sshfs_command(&config(), &layout(), &os("/usr/bin/ssh")),
        [
            step(
                ActionOf::Write(helper.clone(), script.to_string()),
                "failed to write sshfs ssh helper /tmp/run/ssh/sshfs-ssh",
            ),
            set_file_mode(&helper, 0o700),
        ]
    );
}

#[test]
fn the_home_directory_of_the_sandbox() {
    let (steps, copied) = stage_codex_home(&layout(), &Some(os("/home/me")), true);
    assert_eq!(
        steps,
        [
            step(
                ActionOf::CreateDirs(os("/tmp/run/codex-home/.codex/shell_snapshots")),
                "failed to create /tmp/run/codex-home/.codex/shell_snapshots",
            ),
            step(
                ActionOf::CreateDirs(os("/tmp/run/codex-home/.codex/sessions")),
                "failed to create /tmp/run/codex-home/.codex/sessions",
            ),
        ]
    );
    assert_eq!(copied, Some((os("/home/me/.codex"), os("/tmp/run/codex-home/.codex"))));
    assert_eq!(stage_codex_home(&layout(), &Some(os("/home/me")), false).1, None);
    assert_eq!(stage_codex_home(&layout(), &None, true).1, None);
    assert_eq!(
        copied_dir(&os("/t")),
        step(ActionOf::CreateDirs(os("/t")), "failed to create /t")
    );
    assert_eq!(
        copy_dir_recursive(&os("/s"), &os("/t"), &os("a"), false),
        CopyStep::Copy(step(ActionOf::Copy(os("/s/a"), os("/t/a")), "failed to copy /s/a to /t/a"))
    );
    assert_eq!(
        copy_dir_recursive(&os("/s"), &os("/t"), &os("a"), true),
        CopyStep::Descend(os("/s/a"), os("/t/a"))
    );
}

#[test]
fn programs_become_links_to_the_tool() {
    let tool = os("/codex/bin/teleport-box");
    let profile = profile(&[("/usr/bin", "ls"), ("/usr/bin", "awk")]);
    let link = |p: &str, words: &str| {
        step(ActionOf::Link(tool.clone(), os(p)), &format!("{words}{p}"))
    };
    let wrapped = wrapped_command_names(&profile);
    let words = "failed to create wrapper symlink: ";
    assert_eq!(
        create_wrapper_symlinks(&os("/w"), &wrapped),
        [
            link("/w/ash", words),
            link("/w/awk", words),
            link("/w/ls", words),
            link("/w/teleport-pull", words),
            link("/w/teleport-push", words),
        ]
    );
    let mut config = config();
    config.remote_bin_dirs = owned(&["/opt/bin"]);
    let dir = |p: &str| {
        step(
            ActionOf::CreateDirs(os(p)),
            &format!("failed to create synthetic exec dir {p}"),
        )
    };
    let words = "failed to create synthetic exec symlink ";
    assert_eq!(
        build_exec_overlay_dirs(&layout(), &config, &profile),
        [
            dir("/tmp/run/exec-overlay/opt/bin"),
            dir("/tmp/run/exec-overlay/usr/bin"),
            link("/tmp/run/exec-overlay/usr/bin/awk", words),
            link("/tmp/run/exec-overlay/usr/bin/ls", words),
        ]
    );
}

fn course(purpose: Purpose, failing: &[Phase]) -> (Vec<Phase>, Result<u8, Phase>) {
    let mut session = Session::new(purpose);
    let mut phases = vec![];
    while session.phase != Phase::Done {
        let phase = session.phase;
        phases.push(phase);
        let outcome = if failing.contains(&phase) {
            Err(phase)
        } else if phase == Phase::Body {
            Ok(3)
        } else {
            Ok(0)
        };
        session = session.step(outcome);
    }
    (phases, session.result)
}

#[test]
fn runs_that_go_well() {
    let (phases, result) = course(Purpose::Launch, &[]);
    assert_eq!(
        phases,
        [
            Phase::Preflight,
            Phase::PrepareRuntime,
            Phase::StageSsh,
            Phase::StageHome,
            Phase::StartMaster,
            Phase::Probe,
            Phase::LinkWrappers,
            Phase::BuildOverlay,
            Phase::Mount,
            Phase::Body,
            Phase::Unmount,
            Phase::Persist,
            Phase::StopMaster,
            Phase::RemoveRuntime,
        ]
    );
    assert_eq!(result, Ok(3));
    let (phases, result) = course(Purpose::Doctor, &[]);
    assert!(!phases.contains(&Phase::LinkWrappers) && !phases.contains(&Phase::BuildOverlay));
    assert_eq!(phases.len(), 12);
    assert_eq!(result, Ok(3));
}

#[test]
fn runs_that_fail_clean_up() {
    let end = [Phase::Persist, Phase::StopMaster, Phase::RemoveRuntime];
    assert_eq!(course(Purpose::Launch, &[Phase::Preflight]).0, [Phase::Preflight]);
    for failing in [Phase::StageSsh, Phase::StageHome, Phase::StartMaster] {
        let (phases, result) = course(Purpose::Launch, &[failing]);
        assert_eq!(phases[phases.len() - 2..], [failing, Phase::RemoveRuntime]);
        assert_eq!(result, Err(failing));
    }
    for failing in [Phase::Probe, Phase::LinkWrappers, Phase::BuildOverlay, Phase::Mount] {
        let (phases, result) = course(Purpose::Launch, &[failing]);
        assert_eq!(phases[phases.len() - 3..], end);
        assert!(!phases.contains(&Phase::Unmount));
        assert_eq!(result, Err(failing));
        assert_eq!(
            course(Purpose::Launch, &[failing, Phase::Persist]).1,
            Err(Phase::Persist)
        );
    }
    let (phases, result) = course(Purpose::Launch, &[Phase::Body, Phase::Unmount]);
    assert_eq!(phases[phases.len() - 4], Phase::Unmount);
    assert_eq!(result, Err(Phase::Body));
    assert_eq!(course(Purpose::Launch, &[Phase::Persist]).1, Err(Phase::Persist));
    let taken_down = [Phase::Unmount, Phase::StopMaster, Phase::RemoveRuntime];
    assert_eq!(course(Purpose::Launch, &taken_down).1, Ok(3));
}
