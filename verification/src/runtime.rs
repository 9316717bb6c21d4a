//! A run from its request to its end: what is asked for, what must be there, which commands set
//! the connection up and take it down, and in which order things happen.
use vstd::prelude::*;
use vstd::utf8::encode_utf8;
use crate::config::{
    Cli, Commands, ConnectionArgs, LaunchMode, LaunchSpec, MountGuard, RemoteProfile, RuntimeLayout,
    TeleportConfig,
};
use crate::decimal;
use crate::error::{Error, ErrorView};
use crate::os_text;
use crate::os_text::{ArgList, OsText, PathSet};
use crate::path;
use crate::probe;
use crate::staging;
use crate::text;
use crate::util;
use crate::util::ProcessStatus;
use crate::wrapper;
use crate::wrapper::CommandLine;

verus! {

/// What is to be done over a connection.
#[derive(Debug)]
pub enum Request {
    /// Probe the remote host and report.
    Doctor,
    /// Run the remote shell with arguments.
    Shell(Vec<String>),
    /// Run a command.
    Exec(Vec<String>),
    /// Run the local Codex, from this binary or the one on the search path, with arguments.
    Codex(Option<OsText>, Vec<String>),
}

/// The argument that tells Codex not to ask and not to isolate: the sandbox does that.
pub const BYPASS_FLAG: &'static str = "--dangerously-bypass-approvals-and-sandbox";

/// Arguments of Codex with the bypass flag, at the front where it was not given.
pub open spec fn codex_arguments(args: Seq<Seq<char>>) -> Seq<Seq<char>> {
    if args.contains(BYPASS_FLAG@) {
        args
    } else {
        seq![BYPASS_FLAG@] + args
    }
}

/// Arguments of Codex with the bypass flag, at the front where it was not given.
pub fn prepare_codex_args(user_args: Vec<String>) -> (r: Vec<String>)
    ensures
        text::views(r@) == codex_arguments(text::views(user_args@)),
{
    if text::has_text(&user_args, BYPASS_FLAG) {
        return user_args;
    }
    let mut args: Vec<String> = Vec::new();
    let mut more = user_args;
    args.push(BYPASS_FLAG.to_string());
    args.append(&mut more);
    assert(text::views(args@) =~= seq![BYPASS_FLAG@] + text::views(user_args@));
    args
}

/// However it is called, Codex gets the bypass flag, and what was given keeps its order behind
/// it; preparing arguments that were prepared changes nothing.
pub proof fn codex_always_gets_the_bypass_flag(args: Seq<Seq<char>>)
    ensures
        codex_arguments(args).contains(BYPASS_FLAG@),
        codex_arguments(codex_arguments(args)) == codex_arguments(args),
        args.is_suffix_of(codex_arguments(args)),
        args.contains(BYPASS_FLAG@) ==> codex_arguments(args) == args,
{
    let out = codex_arguments(args);
    if !args.contains(BYPASS_FLAG@) {
        assert(out[0] == BYPASS_FLAG@);
        assert(out.subrange(1, out.len() as int) =~= args);
    } else {
        assert(out.subrange(0, out.len() as int) =~= args);
    }
}

/// Splits a command line into the connection and what is to be done over it.
pub fn dispatch(cli: Cli) -> (r: (ConnectionArgs, Request))
    ensures
        match cli.command {
            Commands::Doctor(args) => r.0 == args.connection && r.1 is Doctor,
            Commands::Shell(args) => r == (args.connection, Request::Shell(args.shell_args)),
            Commands::Exec(args) => r == (args.connection, Request::Exec(args.command)),
            Commands::Codex(args) => {
                &&& r.0 == args.connection
                &&& r.1 matches Request::Codex(binary, prepared) && binary == args.codex_binary
                    && text::views(prepared@) == codex_arguments(text::views(args.codex_args@))
            },
        },
{
    match cli.command {
        Commands::Doctor(args) => (args.connection, Request::Doctor),
        Commands::Shell(args) => (args.connection, Request::Shell(args.shell_args)),
        Commands::Exec(args) => (args.connection, Request::Exec(args.command)),
        Commands::Codex(args) => (
            args.connection,
            Request::Codex(args.codex_binary, prepare_codex_args(args.codex_args)),
        ),
    }
}

/// What a probe of the remote host is taken for where programs are checked.
pub fn doctor_mode() -> (r: LaunchMode)
    ensures
        r matches LaunchMode::Arbitrary(command) && text::views(command@) == seq!["true"@],
{
    let mut command: Vec<String> = Vec::new();
    command.push("true".to_string());
    assert(text::views(command@) =~= seq!["true"@]);
    LaunchMode::Arbitrary(command)
}

/// The path of a local program before links in it are resolved: one that was given, or the first
/// on the search path.
pub open spec fn local_binary(
    explicit: Option<Seq<u8>>,
    name: Seq<char>,
    message: Seq<char>,
    search_path: Option<Seq<u8>>,
    executable: Set<Seq<u8>>,
) -> Result<Seq<u8>, ErrorView> {
    match explicit {
        Some(p) => Ok(p),
        None => match util::first_in(
            util::candidates(encode_utf8(name), search_path),
            executable,
        ) {
            Some(p) => Ok(p),
            None => Err(ErrorView::LocalBinaryMissing(message)),
        },
    }
}

/// The path of a local program before links in it are resolved.
pub fn resolve_local_binary(
    explicit: &Option<OsText>,
    name: &str,
    message: &str,
    search_path: &Option<OsText>,
    executable: &PathSet,
) -> (r: Result<OsText, Error>)
    ensures
        ({
            let wanted = local_binary(
                util::opt_bytes(*explicit),
                name@,
                message@,
                util::opt_bytes(*search_path),
                executable@,
            );
            match r {
                Ok(p) => wanted == Ok::<_, ErrorView>(p@),
                Err(e) => wanted == Err::<Seq<u8>, _>(e@),
            }
        }),
{
    if let Some(p) = explicit {
        return Ok(p.clone());
    }
    match util::find_in_path(name, search_path, executable) {
        Some(p) => Ok(p),
        None => Err(Error::LocalBinaryMissing(message.to_string())),
    }
}

/// Where a local program is that need not be there.
pub fn resolve_optional_local_binary(
    name: &str,
    search_path: &Option<OsText>,
    executable: &PathSet,
) -> (r: Option<OsText>)
    ensures
        util::opt_bytes(r) == util::first_in(
            util::candidates(encode_utf8(name@), util::opt_bytes(*search_path)),
            executable@,
        ),
{
    util::find_in_path(name, search_path, executable)
}

/// The directory of the package that a Codex binary belongs to: the one that it lies in, or the
/// one above where that is called `bin`.
pub open spec fn package_dir(codex_binary: Seq<u8>) -> Result<Seq<u8>, ErrorView> {
    match path::parent_of(codex_binary) {
        None => Err(ErrorView::CodexBinaryWithoutParent),
        Some(dir) => if path::final_name(dir) == Some(os_text::bytes_of("bin")) {
            match path::parent_of(dir) {
                None => Err(ErrorView::CodexBinaryWithoutRoot),
                Some(root) => Ok(root),
            }
        } else {
            Ok(dir)
        },
    }
}

/// The file that marks a package.
pub open spec fn package_marker(dir: Seq<u8>) -> Seq<u8> {
    path::joined(dir, os_text::bytes_of("package.json"))
}

/// The directory of the package that a Codex binary belongs to, which must hold the file that
/// marks a package.
pub open spec fn package_root(codex_binary: Seq<u8>, present: Set<Seq<u8>>) -> Result<
    Seq<u8>,
    ErrorView,
> {
    match package_dir(codex_binary) {
        Err(e) => Err(e),
        Ok(dir) => if present.contains(package_marker(dir)) {
            Ok(dir)
        } else {
            Err(ErrorView::CodexRootNotFound(codex_binary))
        },
    }
}

/// The directory of the package that a Codex binary belongs to, and the file that marks it.
pub fn codex_package_dir(codex_binary: &OsText) -> (r: Result<(OsText, OsText), Error>)
    ensures
        match r {
            Ok((dir, marker)) => package_dir(codex_binary@) == Ok::<_, ErrorView>(dir@) && marker@
                == package_marker(dir@),
            Err(e) => package_dir(codex_binary@) == Err::<Seq<u8>, _>(e@),
        },
{
    let mut dir = match path::parent(codex_binary) {
        Some(dir) => dir,
        None => return Err(Error::CodexBinaryWithoutParent),
    };
    let in_bin = match path::file_name(&dir) {
        Some(name) => name.same(&OsText::from_text("bin")),
        None => false,
    };
    if in_bin {
        dir = match path::parent(&dir) {
            Some(root) => root,
            None => return Err(Error::CodexBinaryWithoutRoot),
        };
    }
    let marker = path::join_text(&dir, "package.json");
    Ok((dir, marker))
}

/// The directory of the package that a Codex binary belongs to.
pub fn codex_package_root_from_binary(codex_binary: &OsText, present: &PathSet) -> (r: Result<
    OsText,
    Error,
>)
    ensures
        match r {
            Ok(dir) => package_root(codex_binary@, present@) == Ok::<_, ErrorView>(dir@),
            Err(e) => package_root(codex_binary@, present@) == Err::<Seq<u8>, _>(e@),
        },
{
    match codex_package_dir(codex_binary) {
        Err(e) => Err(e),
        Ok((dir, marker)) => if present.contains(&marker) {
            Ok(dir)
        } else {
            Err(Error::CodexRootNotFound(codex_binary.clone()))
        },
    }
}

/// Whether a program is on the search path.
pub open spec fn on_path(
    name: &str,
    search_path: Option<Seq<u8>>,
    executable: Set<Seq<u8>>,
) -> bool {
    util::first_in(util::candidates(os_text::bytes_of(name), search_path), executable) is Some
}

/// What is missing for a run, if anything; the first thing decides.
pub open spec fn missing(
    config: &TeleportConfig,
    mode: &LaunchMode,
    search_path: Option<Seq<u8>>,
    executable: Set<Seq<u8>>,
    present: Set<Seq<u8>>,
) -> Option<ErrorView> {
    if !on_path("ssh", search_path, executable) {
        Some(ErrorView::BinaryNotFound("ssh"@))
    } else if !on_path("sshfs", search_path, executable) {
        Some(ErrorView::BinaryNotFound("sshfs"@))
    } else if !on_path("bwrap", search_path, executable) {
        Some(ErrorView::BinaryNotFound("bwrap"@))
    } else if !on_path("fusermount3", search_path, executable) && !on_path(
        "fusermount",
        search_path,
        executable,
    ) {
        Some(ErrorView::BinaryNotFound("fusermount"@))
    } else if config.identity_file matches Some(file) && !present.contains(file@) {
        Some(ErrorView::IdentityFileMissing(config.identity_file->0@))
    } else {
        match *mode {
            LaunchMode::Codex { codex_package_root, node_binary, .. } => if !present.contains(
                codex_package_root@,
            ) {
                Some(ErrorView::CodexRootMissing(codex_package_root@))
            } else if !present.contains(node_binary@) {
                Some(ErrorView::NodeMissing(node_binary@))
            } else {
                None
            },
            _ => None,
        }
    }
}

fn require_binary(name: &str, search_path: &Option<OsText>, executable: &PathSet) -> (r: Result<
    (),
    Error,
>)
    ensures
        match r {
            Ok(_) => on_path(name, util::opt_bytes(*search_path), executable@),
            Err(e) => !on_path(name, util::opt_bytes(*search_path), executable@) && e@
                == ErrorView::BinaryNotFound(name@),
        },
{
    util::ensure_binary_exists(name, &util::find_in_path(name, search_path, executable))
}

/// Checks that everything that a run needs is there.
pub fn preflight(
    config: &TeleportConfig,
    mode: &LaunchMode,
    search_path: &Option<OsText>,
    executable: &PathSet,
    present: &PathSet,
) -> (r: Result<(), Error>)
    ensures
        ({
            let wrong = missing(
                config,
                mode,
                util::opt_bytes(*search_path),
                executable@,
                present@,
            );
            match r {
                Ok(_) => wrong is None,
                Err(e) => wrong == Some(e@),
            }
        }),
{
    if let Err(e) = require_binary("ssh", search_path, executable) {
        return Err(e);
    }
    if let Err(e) = require_binary("sshfs", search_path, executable) {
        return Err(e);
    }
    if let Err(e) = require_binary("bwrap", search_path, executable) {
        return Err(e);
    }
    if require_binary("fusermount3", search_path, executable).is_err() {
        if let Err(e) = require_binary("fusermount", search_path, executable) {
            return Err(e);
        }
    }
    if let Some(file) = &config.identity_file {
        if !present.contains(file) {
            return Err(Error::IdentityFileMissing(file.clone()));
        }
    }
    if let LaunchMode::Codex { codex_package_root, node_binary, .. } = mode {
        if !present.contains(codex_package_root) {
            return Err(Error::CodexRootMissing(codex_package_root.clone()));
        }
        if !present.contains(node_binary) {
            return Err(Error::NodeMissing(node_binary.clone()));
        }
    }
    Ok(())
}

/// What is run in the sandbox for what was asked for. `apply_patch` is the local program that
/// applies patches, where there is one.
pub fn launch_spec(mode: LaunchMode, profile: &RemoteProfile, apply_patch: Option<OsText>) -> (r:
    Result<LaunchSpec, Error>)
    ensures
        match mode {
            LaunchMode::Shell(shell_args) => r matches Ok(
                LaunchSpec::Arbitrary { program, args, apply_patch_binary },
            ) && program@ == profile.shell_name@ && args == shell_args && apply_patch_binary
                == apply_patch,
            LaunchMode::Arbitrary(command) => if command@.len() == 0 {
                r matches Err(e) && e@ == ErrorView::MissingCommand
            } else {
                r matches Ok(LaunchSpec::Arbitrary { program, args, apply_patch_binary })
                    && program@ == command@[0]@ && text::views(args@) == text::views(command@).skip(
                    1,
                ) && apply_patch_binary == apply_patch
            },
            LaunchMode::Codex {
                codex_package_root,
                node_binary,
                apply_patch_binary,
                codex_args,
            } => r == Ok::<_, Error>(
                LaunchSpec::Codex {
                    codex_package_root,
                    node_binary,
                    apply_patch_binary,
                    codex_args,
                },
            ),
        },
{
    match mode {
        LaunchMode::Shell(shell_args) => Ok(
            LaunchSpec::Arbitrary {
                program: profile.shell_name.clone(),
                args: shell_args,
                apply_patch_binary: apply_patch,
            },
        ),
        LaunchMode::Arbitrary(command) => {
            if command.len() == 0 {
                return Err(Error::MissingCommand);
            }
            let mut args = command;
            let program = args.remove(0);
            assert(text::views(args@) =~= text::views(command@).skip(1));
            Ok(LaunchSpec::Arbitrary { program, args, apply_patch_binary: apply_patch })
        },
        LaunchMode::Codex { codex_package_root, node_binary, apply_patch_binary, codex_args } => Ok(
            LaunchSpec::Codex { codex_package_root, node_binary, apply_patch_binary, codex_args },
        ),
    }
}

/// What is reported of a remote host that was probed and mounted, line by line.
pub open spec fn report(config: &TeleportConfig, profile: &RemoteProfile) -> Seq<Seq<char>> {
    seq![
        "destination="@ + config.destination(),
        "shell_path="@ + profile.shell_path@,
        "shell_name="@ + profile.shell_name@,
        "busybox_like="@ + (if profile.busybox_like {
            "true"@
        } else {
            "false"@
        }),
        "remote_path="@ + text::join(text::views(profile.remote_path@), ":"@),
        "remote_exec_dirs="@ + text::join(profile.exec_names_by_dir.dirs(), ":"@),
        "wrapped_commands_count="@ + decimal::decimal(
            probe::wrapped_names(profile.shell_name@, profile.exec_names_by_dir@).len(),
        ),
        "sshfs_mount=ok"@,
    ]
}

fn push_line(lines: &mut Vec<String>, name: &str, value: &str)
    ensures
        text::views(final(lines)@) == text::views(old(lines)@).push(name@ + value@),
{
    let line = name.to_string().concat(value);
    proof {
        text::lemma_views_push(lines@, line);
    }
    lines.push(line);
}

/// What is reported of a remote host that was probed and mounted, line by line.
pub fn run_doctor(config: &TeleportConfig, profile: &RemoteProfile) -> (r: Vec<String>)
    requires
        profile.exec_names_by_dir.wf(),
    ensures
        text::views(r@) == report(config, profile),
{
    let mut lines: Vec<String> = Vec::new();
    assert(text::views(lines@) =~= seq![]);
    let count: usize = probe::wrapped_command_names(profile).len();
    push_line(&mut lines, "destination=", config.ssh_destination().as_str());
    push_line(&mut lines, "shell_path=", profile.shell_path.as_str());
    push_line(&mut lines, "shell_name=", profile.shell_name.as_str());
    push_line(
        &mut lines,
        "busybox_like=",
        if profile.busybox_like {
            "true"
        } else {
            "false"
        },
    );
    push_line(&mut lines, "remote_path=", text::join_texts(&profile.remote_path, ":").as_str());
    push_line(
        &mut lines,
        "remote_exec_dirs=",
        text::join_texts(&profile.exec_names_by_dir.keys(), ":").as_str(),
    );
    push_line(
        &mut lines,
        "wrapped_commands_count=",
        decimal::decimal_text(count as u64).as_str(),
    );
    push_line(&mut lines, "sshfs_mount=", "ok");
    proof {
        reveal_strlit("sshfs_mount=");
        reveal_strlit("ok");
        reveal_strlit("sshfs_mount=ok");
        assert("sshfs_mount="@ + "ok"@ =~= "sshfs_mount=ok"@);
    }
    assert(text::views(lines@) =~= report(config, profile));
    lines
}

/// The script with which sshfs calls ssh, next to the mountpoint.
pub open spec fn mount_helper(mountpoint: Seq<u8>) -> Seq<u8> {
    path::joined(
        path::joined(path::parent_of(mountpoint)->0, os_text::bytes_of("ssh")),
        os_text::bytes_of("sshfs-ssh"),
    )
}

/// The arguments with which sshfs mounts the root of the remote host.
pub open spec fn mount_args(source: Seq<char>, mountpoint: Seq<u8>) -> Seq<Seq<u8>> {
    seq![
        encode_utf8(source),
        mountpoint,
        os_text::bytes_of("-o"),
        encode_utf8("ssh_command="@ + os_text::shown(mount_helper(mountpoint))),
        os_text::bytes_of("-o"),
        os_text::bytes_of("reconnect"),
        os_text::bytes_of("-o"),
        os_text::bytes_of("ServerAliveInterval=15"),
        os_text::bytes_of("-o"),
        os_text::bytes_of("ServerAliveCountMax=3"),
    ]
}

/// The command that mounts the root of the remote host.
pub fn mount_remote_root(config: &TeleportConfig, mountpoint: &OsText) -> (r: CommandLine)
    requires
        path::parent_of(mountpoint@) is Some,
    ensures
        r.program@ == os_text::bytes_of("sshfs"),
        r.args@ == mount_args(config.remote_root(), mountpoint@),
{
    let dir = match path::parent(mountpoint) {
        Some(dir) => dir,
        None => OsText::from_text(""),
    };
    let helper = path::join_text(&path::join_text(&dir, "ssh"), "sshfs-ssh");
    let mut args = ArgList::new();
    args.push_text(config.sshfs_source_root().as_str());
    args.push_os(mountpoint);
    args.push_pair("-o", "ssh_command=".to_string().concat(helper.shown().as_str()).as_str());
    args.push_pair("-o", "reconnect");
    args.push_pair("-o", "ServerAliveInterval=15");
    args.push_pair("-o", "ServerAliveCountMax=3");
    assert(args@ =~= mount_args(config.remote_root(), mountpoint@));
    CommandLine { program: OsText::from_text("sshfs"), args }
}

/// What follows from the end of the mount. `status_text` says how it ended.
pub fn mounted(mountpoint: &OsText, status: ProcessStatus, status_text: &str) -> (r: Result<
    MountGuard,
    Error,
>)
    ensures
        match r {
            Ok(guard) => status.code == Some(0i32) && guard.mountpoint@ == mountpoint@,
            Err(e) => status.code != Some(0i32) && e@ == ErrorView::MountFailed(status_text@),
        },
{
    if status.success() {
        Ok(MountGuard { mountpoint: mountpoint.clone() })
    } else {
        Err(Error::MountFailed(status_text.to_string()))
    }
}

/// The programs that unmount, each of which is tried.
pub const UNMOUNT_PROGRAMS: [&'static str; 2] = ["fusermount3", "fusermount"];

/// The command that unmounts, at once or as soon as nothing uses the mount.
pub fn lazy_unmount(mountpoint: &OsText, fusermount: &str) -> (r: CommandLine)
    ensures
        r.program@ == encode_utf8(fusermount@),
        r.args@ == seq![os_text::bytes_of("-u"), os_text::bytes_of("-z"), mountpoint@],
{
    let mut args = ArgList::new();
    args.push_pair("-u", "-z");
    args.push_os(mountpoint);
    assert(args@ =~= seq![os_text::bytes_of("-u"), os_text::bytes_of("-z"), mountpoint@]);
    CommandLine { program: OsText::from_text(fusermount), args }
}

/// Whether what is said of an end means that nothing was mounted.
pub open spec fn nothing_mounted(status_text: Seq<char>) -> bool {
    text::holds(status_text, "No such file"@) || text::holds(
        status_text,
        "not found in /etc/mtab"@,
    )
}

/// What follows from the end of an unmount. `status_text` says how it ended.
pub fn unmounted(fusermount: &str, status: ProcessStatus, status_text: &str) -> (r: Result<
    (),
    Error,
>)
    ensures
        match r {
            Ok(_) => status.code == Some(0i32) || nothing_mounted(status_text@),
            Err(e) => status.code != Some(0i32) && !nothing_mounted(status_text@) && e@
                == ErrorView::UnmountFailed(fusermount@, status_text@),
        },
{
    if status.success() || text::has_part(status_text, "No such file") || text::has_part(
        status_text,
        "not found in /etc/mtab",
    ) {
        Ok(())
    } else {
        Err(Error::UnmountFailed(fusermount.to_string(), status_text.to_string()))
    }
}

/// The arguments with which the shared connection is set up.
pub open spec fn master_args(config: &TeleportConfig, layout: &RuntimeLayout) -> Seq<Seq<u8>> {
    wrapper::connection_args(
        config.destination(),
        config.port,
        wrapper::staged_identity(config, layout),
        Some(layout.sandbox_known_hosts@),
        None,
        config.batch_mode,
        text::views(config.ssh_options@),
    ) + seq![
        os_text::bytes_of("-o"),
        os_text::bytes_of("ControlMaster=yes"),
        os_text::bytes_of("-o"),
        encode_utf8("ControlPath="@ + os_text::shown(layout.ssh_control_socket@)),
        os_text::bytes_of("-o"),
        os_text::bytes_of("ControlPersist=no"),
        os_text::bytes_of("-N"),
        os_text::bytes_of("-f"),
    ]
}

/// The command that sets the shared connection up.
pub fn start_ssh_master(
    config: &TeleportConfig,
    layout: &RuntimeLayout,
    found_ssh: &Option<OsText>,
) -> (r: CommandLine)
    ensures
        r.program@ == wrapper::host_ssh_program(util::opt_bytes(*found_ssh)),
        r.args@ == master_args(config, layout),
{
    let mut command = wrapper::ssh_master_command(config, layout, found_ssh);
    command.args.push_pair("-o", "ControlMaster=yes");
    command.args.push_pair(
        "-o",
        "ControlPath=".to_string().concat(layout.ssh_control_socket.shown().as_str()).as_str(),
    );
    command.args.push_pair("-o", "ControlPersist=no");
    command.args.push_pair("-N", "-f");
    assert(command.args@ =~= master_args(config, layout));
    command
}

/// The shared connection, as it has to be known to take it down.
#[derive(Debug)]
pub struct SshMasterGuard {
    pub destination: String,
    pub port: Option<u16>,
    pub identity_file: Option<OsText>,
    pub known_hosts: OsText,
    pub control_socket: OsText,
    pub batch_mode: bool,
    pub ssh_options: Vec<String>,
}

/// The arguments with which the shared connection is taken down.
pub open spec fn exit_args(
    destination: Seq<char>,
    port: Option<u16>,
    identity_file: Option<Seq<u8>>,
    known_hosts: Seq<u8>,
    control_socket: Seq<u8>,
    batch_mode: bool,
    ssh_options: Seq<Seq<char>>,
) -> Seq<Seq<u8>> {
    seq![os_text::bytes_of("-F"), os_text::bytes_of("/dev/null")] + wrapper::flag_args(
        os_text::bytes_of("-i"),
        identity_file,
    ) + wrapper::flag_args(os_text::bytes_of("-p"), wrapper::port_bytes(port))
        + wrapper::batch_args(batch_mode) + wrapper::known_hosts_args(Some(known_hosts)) + seq![
        os_text::bytes_of("-S"),
        control_socket,
    ] + wrapper::option_args(ssh_options) + seq![
        os_text::bytes_of("-O"),
        os_text::bytes_of("exit"),
        encode_utf8(destination),
    ]
}

/// What follows from the end of the command that sets the shared connection up. `status_text`
/// says how it ended.
pub fn ssh_master_started(
    config: &TeleportConfig,
    layout: &RuntimeLayout,
    status: ProcessStatus,
    status_text: &str,
) -> (r: Result<SshMasterGuard, Error>)
    ensures
        match r {
            Ok(guard) => {
                &&& status.code == Some(0i32)
                &&& guard.destination@ == config.destination()
                &&& guard.port == config.port
                &&& util::opt_bytes(guard.identity_file) == wrapper::staged_identity(config, layout)
                &&& guard.known_hosts@ == layout.sandbox_known_hosts@
                &&& guard.control_socket@ == layout.ssh_control_socket@
                &&& guard.batch_mode == config.batch_mode
                &&& text::views(guard.ssh_options@) == text::views(config.ssh_options@)
            },
            Err(e) => status.code != Some(0i32) && e@ == ErrorView::SshMasterFailed(status_text@),
        },
{
    if !status.success() {
        return Err(Error::SshMasterFailed(status_text.to_string()));
    }
    Ok(
        SshMasterGuard {
            destination: config.ssh_destination(),
            port: config.port,
            identity_file: wrapper::identity_for(config, layout),
            known_hosts: layout.sandbox_known_hosts.clone(),
            control_socket: layout.ssh_control_socket.clone(),
            batch_mode: config.batch_mode,
            ssh_options: text::copy_texts(&config.ssh_options),
        },
    )
}

impl SshMasterGuard {
    /// The command that takes the shared connection down.
    pub fn exit_command(&self, found_ssh: &Option<OsText>) -> (r: CommandLine)
        ensures
            r.program@ == wrapper::host_ssh_program(util::opt_bytes(*found_ssh)),
            r.args@ == exit_args(
                self.destination@,
                self.port,
                util::opt_bytes(self.identity_file),
                self.known_hosts@,
                self.control_socket@,
                self.batch_mode,
                text::views(self.ssh_options@),
            ),
    {
        let mut args = ArgList::new();
        args.push_pair("-F", "/dev/null");
        wrapper::push_flag(&mut args, "-i", &self.identity_file);
        wrapper::push_port(&mut args, self.port);
        wrapper::push_batch(&mut args, self.batch_mode);
        wrapper::push_known_hosts(&mut args, &Some(self.known_hosts.clone()));
        args.push_text("-S");
        args.push_os(&self.control_socket);
        wrapper::push_options(&mut args, &self.ssh_options);
        args.push_triple("-O", "exit", self.destination.as_str());
        assert(args@ =~= exit_args(
            self.destination@,
            self.port,
            util::opt_bytes(self.identity_file),
            self.known_hosts@,
            self.control_socket@,
            self.batch_mode,
            text::views(self.ssh_options@),
        ));
        CommandLine { program: wrapper::host_ssh(found_ssh), args }
    }
}

proof fn lemma_plain_name(name: Seq<char>)
    requires
        vstd::utf8::is_ascii_chars(name),
        name.len() > 1,
        !name.contains('/'),
    ensures
        !encode_utf8(name).contains(path::SLASH),
        path::counts(encode_utf8(name)),
{
    let bytes = encode_utf8(name);
    vstd::utf8::is_ascii_chars_encode_utf8(name);
    assert(bytes.len() != path::here().len());
    assert forall|i: int| 0 <= i < bytes.len() implies bytes[i] != path::SLASH by {
        assert(bytes[i] == name[i] as u8);
        assert(name[i] != '/');
    }
}

/// sshfs is told of the very script that was written for it, and what is mounted has a place next
/// to it.
pub proof fn the_mount_uses_its_helper(
    layout: &RuntimeLayout,
    tempdir: Seq<u8>,
    self_binary: Seq<u8>,
)
    requires
        staging::laid_out(layout, tempdir, self_binary),
    ensures
        path::parent_of(layout.remote_root_mount@) is Some,
        path::components_of(mount_helper(layout.remote_root_mount@)) == path::components_of(
            layout.sshfs_ssh_command@,
        ),
{
    let mount = layout.remote_root_mount@;
    reveal_strlit("remote-root");
    lemma_plain_name("remote-root"@);
    reveal_strlit("ssh");
    lemma_plain_name("ssh"@);
    reveal_strlit("sshfs-ssh");
    lemma_plain_name("sshfs-ssh"@);
    path::joining_adds_a_component(tempdir, os_text::bytes_of("remote-root"));
    let parts = path::components_of(tempdir);
    assert(path::components_of(mount).last() == os_text::bytes_of("remote-root"));
    assert(os_text::bytes_of("remote-root") != path::root()) by {
        if os_text::bytes_of("remote-root") == path::root() {
            assert(path::root()[0] == path::SLASH);
            assert(os_text::bytes_of("remote-root").contains(path::SLASH));
        }
    }
    path::parent_drops_the_last_component(mount);
    let dir = path::parent_of(mount)->0;
    assert(path::components_of(mount).drop_last() =~= parts);
    path::joining_adds_a_component(dir, os_text::bytes_of("ssh"));
    path::joining_adds_a_component(tempdir, os_text::bytes_of("ssh"));
    path::joining_adds_a_component(
        path::joined(dir, os_text::bytes_of("ssh")),
        os_text::bytes_of("sshfs-ssh"),
    );
    path::joining_adds_a_component(
        path::joined(tempdir, os_text::bytes_of("ssh")),
        os_text::bytes_of("sshfs-ssh"),
    );
}

/// Codex gets every argument that it was given, at its place; where the bypass flag was not among
/// them it stands before them, once.
pub proof fn codex_gets_every_argument(args: Seq<Seq<char>>, i: int)
    ensures
        ({
            let flag = "--dangerously-bypass-approvals-and-sandbox"@;
            let out = codex_arguments(args);
            let n: int = if args.contains(flag) {
                0
            } else {
                1
            };
            &&& out.len() == n + args.len()
            &&& n == 1 ==> out[0] == flag
            &&& 0 <= i < args.len() ==> out[n + i] == args[i]
        }),
{
}

/// A local program is the one that was given, and otherwise the first of its name on the search
/// path; where there is none, that is said in the words for it.
pub proof fn local_programs_are_given_or_found(
    explicit: Option<Seq<u8>>,
    name: Seq<char>,
    message: Seq<char>,
    search_path: Option<Seq<u8>>,
    executable: Set<Seq<u8>>,
    i: int,
)
    ensures
        ({
            let found = local_binary(explicit, name, message, search_path, executable);
            let list = util::candidates(encode_utf8(name), search_path);
            &&& explicit matches Some(p) ==> found == Ok::<_, ErrorView>(p)
            &&& explicit is None && 0 <= i < list.len() && executable.contains(list[i]) && (forall|
                j: int,
            |
                0 <= j < i ==> !executable.contains(#[trigger] list[j])) ==> found == Ok::<
                _,
                ErrorView,
            >(list[i])
            &&& explicit is None && (forall|j: int|
                0 <= j < list.len() ==> !executable.contains(#[trigger] list[j])) ==> found
                == Err::<Seq<u8>, _>(ErrorView::LocalBinaryMissing(message))
        }),
{
    let list = util::candidates(encode_utf8(name), search_path);
    util::the_first_is_found(list, executable);
    if explicit is None && 0 <= i < list.len() && executable.contains(list[i]) && (forall|j: int|
        0 <= j < i ==> !executable.contains(#[trigger] list[j])) {
        lemma_first(list, executable, i);
    }
}

proof fn lemma_first(list: Seq<Seq<u8>>, set: Set<Seq<u8>>, i: int)
    requires
        0 <= i < list.len(),
        set.contains(list[i]),
        forall|j: int| 0 <= j < i ==> !set.contains(#[trigger] list[j]),
    ensures
        util::first_in(list, set) == Some(list[i]),
    decreases list.len(),
{
    if i > 0 {
        let rest = list.drop_first();
        assert(!set.contains(list[0]));
        assert forall|j: int| 0 <= j < i - 1 implies !set.contains(#[trigger] rest[j]) by {
            assert(rest[j] == list[j + 1]);
        }
        assert(rest[i - 1] == list[i]);
        lemma_first(rest, set, i - 1);
    }
}

/// A Codex binary `dir/name` belongs to the package in `dir`, and `dir/bin/name` to that in `dir`
/// too; without the file that marks a package it belongs to none.
pub proof fn packages_hold_their_binaries(codex_binary: Seq<u8>, present: Set<Seq<u8>>)
    ensures
        path::parent_of(codex_binary) is None ==> package_root(codex_binary, present) == Err::<
            Seq<u8>,
            _,
        >(ErrorView::CodexBinaryWithoutParent),
        path::parent_of(codex_binary) matches Some(dir) ==> {
            let marked = |root: Seq<u8>|
                if present.contains(path::joined(root, encode_utf8("package.json"@))) {
                    Ok::<_, ErrorView>(root)
                } else {
                    Err(ErrorView::CodexRootNotFound(codex_binary))
                };
            let found = package_root(codex_binary, present);
            &&& path::final_name(dir) != Some(encode_utf8("bin"@)) ==> found == marked(dir)
            &&& path::final_name(dir) == Some(encode_utf8("bin"@)) ==> {
                &&& path::parent_of(dir) matches Some(root) ==> found == marked(root)
                &&& path::parent_of(dir) is None ==> found == Err::<Seq<u8>, _>(
                    ErrorView::CodexBinaryWithoutRoot,
                )
            }
        },
{
}

/// A run goes ahead if, and only if, nothing that it needs is missing: ssh, sshfs, bwrap, one of
/// the two programs that unmount, the identity file, and for Codex its package and its runtime.
pub proof fn runs_need_their_programs_and_files(
    config: &TeleportConfig,
    mode: &LaunchMode,
    search_path: Option<Seq<u8>>,
    executable: Set<Seq<u8>>,
    present: Set<Seq<u8>>,
)
    ensures
        missing(config, mode, search_path, executable, present) is None <==> {
            &&& on_path("ssh", search_path, executable)
            &&& on_path("sshfs", search_path, executable)
            &&& on_path("bwrap", search_path, executable)
            &&& on_path("fusermount3", search_path, executable) || on_path(
                "fusermount",
                search_path,
                executable,
            )
            &&& config.identity_file matches Some(file) ==> present.contains(file@)
            &&& mode matches LaunchMode::Codex { codex_package_root, node_binary, .. }
                ==> present.contains(codex_package_root@) && present.contains(node_binary@)
        },
{
}

/// What is said to be missing is missing, and what is looked for before it is not.
pub proof fn the_first_missing_thing_is_named(
    config: &TeleportConfig,
    mode: &LaunchMode,
    search_path: Option<Seq<u8>>,
    executable: Set<Seq<u8>>,
    present: Set<Seq<u8>>,
)
    ensures
        ({
            let wrong = missing(config, mode, search_path, executable, present);
            let ssh = on_path("ssh", search_path, executable);
            let sshfs = on_path("sshfs", search_path, executable);
            let bwrap = on_path("bwrap", search_path, executable);
            let fuse = on_path("fusermount3", search_path, executable) || on_path(
                "fusermount",
                search_path,
                executable,
            );
            let identity = config.identity_file matches Some(file) ==> present.contains(file@);
            let programs = ssh && sshfs && bwrap && fuse;
            &&& !ssh ==> wrong == Some(ErrorView::BinaryNotFound("ssh"@))
            &&& ssh && !sshfs ==> wrong == Some(ErrorView::BinaryNotFound("sshfs"@))
            &&& ssh && sshfs && !bwrap ==> wrong == Some(ErrorView::BinaryNotFound("bwrap"@))
            &&& ssh && sshfs && bwrap && !fuse ==> wrong == Some(
                ErrorView::BinaryNotFound("fusermount"@),
            )
            &&& programs && !identity ==> wrong == Some(
                ErrorView::IdentityFileMissing(config.identity_file->0@),
            )
            &&& programs && identity ==> (mode matches LaunchMode::Codex {
                codex_package_root,
                node_binary,
                ..
            } ==> {
                &&& !present.contains(codex_package_root@) ==> wrong == Some(
                    ErrorView::CodexRootMissing(codex_package_root@),
                )
                &&& present.contains(codex_package_root@) && !present.contains(node_binary@)
                    ==> wrong == Some(ErrorView::NodeMissing(node_binary@))
            })
        }),
{
}

/// A program is on the search path if, and only if, one of its directories holds it.
pub proof fn programs_are_found_on_the_search_path(
    name: &str,
    search_path: Option<Seq<u8>>,
    executable: Set<Seq<u8>>,
)
    ensures
        on_path(name, search_path, executable) <==> exists|p: Seq<u8>| #[trigger]
            executable.contains(p) && util::candidates(encode_utf8(name@), search_path).contains(p),
{
    let list = util::candidates(encode_utf8(name@), search_path);
    util::the_first_is_found(list, executable);
    if exists|p: Seq<u8>| #[trigger] executable.contains(p) && list.contains(p) {
        let p = choose|p: Seq<u8>| #[trigger] executable.contains(p) && list.contains(p);
        let i = choose|i: int| 0 <= i < list.len() && list[i] == p;
        assert(executable.contains(list[i]));
    }
}

/// What is reported of a remote host, line by line. The two search paths can be read back from it
/// where no directory holds a colon.
pub proof fn reports_say_what_was_found(config: &TeleportConfig, profile: &RemoteProfile)
    ensures
        ({
            let lines = report(config, profile);
            &&& lines.len() == 8
            &&& lines[0] == "destination="@ + config.destination()
            &&& lines[1] == "shell_path="@ + profile.shell_path@
            &&& lines[2] == "shell_name="@ + profile.shell_name@
            &&& profile.busybox_like ==> lines[3] == "busybox_like=true"@
            &&& !profile.busybox_like ==> lines[3] == "busybox_like=false"@
            &&& lines[4].take(12) == "remote_path="@
            &&& profile.remote_path@.len() > 0 && (forall|i: int|
                0 <= i < profile.remote_path@.len() ==> !(#[trigger] profile.remote_path@[i])@.contains(
                    ':',
                )) ==> text::split(lines[4].skip(12), ':') == text::views(profile.remote_path@)
            &&& lines[5].take(17) == "remote_exec_dirs="@
            &&& profile.exec_names_by_dir.dirs().len() > 0 && (forall|i: int|
                0 <= i < profile.exec_names_by_dir.dirs().len() ==> !(
                #[trigger] profile.exec_names_by_dir.dirs()[i]).contains(':')) ==> text::split(
                lines[5].skip(17),
                ':',
            ) == profile.exec_names_by_dir.dirs()
            &&& lines[6] == "wrapped_commands_count="@ + decimal::decimal(
                probe::wrapped_names(profile.shell_name@, profile.exec_names_by_dir@).len(),
            )
            &&& lines[7] == "sshfs_mount=ok"@
        }),
{
    let lines = report(config, profile);
    reveal_strlit("busybox_like=");
    reveal_strlit("busybox_like=true");
    reveal_strlit("busybox_like=false");
    reveal_strlit("true");
    reveal_strlit("false");
    reveal_strlit("remote_path=");
    reveal_strlit("remote_exec_dirs=");
    reveal_strlit(":");
    assert(":"@ =~= seq![':']);
    assert("busybox_like="@ + "true"@ =~= "busybox_like=true"@);
    assert("busybox_like="@ + "false"@ =~= "busybox_like=false"@);
    let dirs = text::views(profile.remote_path@);
    let found = profile.exec_names_by_dir.dirs();
    assert(lines[4].take(12) =~= "remote_path="@);
    assert(lines[4].skip(12) =~= text::join(dirs, seq![':']));
    assert(lines[5].take(17) =~= "remote_exec_dirs="@);
    assert(lines[5].skip(17) =~= text::join(found, seq![':']));
    if dirs.len() > 0 && (forall|i: int|
        0 <= i < profile.remote_path@.len() ==> !(#[trigger] profile.remote_path@[i])@.contains(':')) {
        assert forall|i: int| 0 <= i < dirs.len() implies !(#[trigger] dirs[i]).contains(':') by {
            assert(dirs[i] == profile.remote_path@[i]@);
        }
        text::split_undoes_join(dirs, ':');
    }
    if found.len() > 0 && (forall|i: int|
        0 <= i < found.len() ==> !(#[trigger] found[i]).contains(':')) {
        text::split_undoes_join(found, ':');
    }
}

/// sshfs is told what to mount and where, the script that it calls ssh with, and to keep the mount
/// alive; nothing else.
pub proof fn mounts_are_kept_alive(source: Seq<char>, mountpoint: Seq<u8>)
    ensures
        ({
            let args = mount_args(source, mountpoint);
            let dir = path::parent_of(mountpoint)->0;
            let helper = path::joined(
                path::joined(dir, encode_utf8("ssh"@)),
                encode_utf8("sshfs-ssh"@),
            );
            &&& args.len() == 10
            &&& args[0] == encode_utf8(source)
            &&& args[1] == mountpoint
            &&& args[2] == encode_utf8("-o"@)
            &&& args[3] == encode_utf8("ssh_command="@ + os_text::shown(helper))
            &&& args[4] == encode_utf8("-o"@)
            &&& args[5] == encode_utf8("reconnect"@)
            &&& args[6] == encode_utf8("-o"@)
            &&& args[7] == encode_utf8("ServerAliveInterval=15"@)
            &&& args[8] == encode_utf8("-o"@)
            &&& args[9] == encode_utf8("ServerAliveCountMax=3"@)
        }),
{
}

/// The shared connection is set up with all that was asked for, and then waits in the background at
/// its socket.
pub proof fn the_shared_connection_is_set_up(config: &TeleportConfig, layout: &RuntimeLayout)
    ensures
        ({
            let args = master_args(config, layout);
            let n = args.len() - 8;
            &&& n >= 0
            &&& args.take(n) == wrapper::connection_args(
                config.destination(),
                config.port,
                if config.identity_file is Some {
                    Some(layout.sandbox_identity_file@)
                } else {
                    None
                },
                Some(layout.sandbox_known_hosts@),
                None,
                config.batch_mode,
                text::views(config.ssh_options@),
            )
            &&& args[n] == encode_utf8("-o"@)
            &&& args[n + 1] == encode_utf8("ControlMaster=yes"@)
            &&& args[n + 2] == encode_utf8("-o"@)
            &&& args[n + 3] == encode_utf8(
                "ControlPath="@ + os_text::shown(layout.ssh_control_socket@),
            )
            &&& args[n + 4] == encode_utf8("-o"@)
            &&& args[n + 5] == encode_utf8("ControlPersist=no"@)
            &&& args[n + 6] == encode_utf8("-N"@)
            &&& args[n + 7] == encode_utf8("-f"@)
        }),
{
    let args = master_args(config, layout);
    assert(args.take(args.len() - 8) =~= wrapper::connection_args(
        config.destination(),
        config.port,
        wrapper::staged_identity(config, layout),
        Some(layout.sandbox_known_hosts@),
        None,
        config.batch_mode,
        text::views(config.ssh_options@),
    ));
}

/// The shared connection is taken down with all that it was set up with, each at its place and
/// nothing else.
pub proof fn the_shared_connection_is_taken_down(
    destination: Seq<char>,
    port: Option<u16>,
    identity_file: Option<Seq<u8>>,
    known_hosts: Seq<u8>,
    control_socket: Seq<u8>,
    batch_mode: bool,
    ssh_options: Seq<Seq<char>>,
    i: int,
)
    ensures
        ({
            let args = exit_args(
                destination,
                port,
                identity_file,
                known_hosts,
                control_socket,
                batch_mode,
                ssh_options,
            );
            let at_port: int = 2 + (if identity_file is Some {
                2int
            } else {
                0
            });
            let at_batch: int = at_port + (if port is Some {
                2int
            } else {
                0
            });
            let at_hosts: int = at_batch + (if batch_mode {
                2int
            } else {
                0
            });
            let at_options = at_hosts + 6;
            let n = args.len();
            &&& n == at_options + 2 * ssh_options.len() + 3
            &&& args[0] == encode_utf8("-F"@)
            &&& args[1] == encode_utf8("/dev/null"@)
            &&& identity_file matches Some(file) ==> args[2] == encode_utf8("-i"@) && args[3]
                == file
            &&& port matches Some(p) ==> args[at_port] == encode_utf8("-p"@) && args[at_port + 1]
                == encode_utf8(decimal::decimal(p as nat))
            &&& batch_mode ==> args[at_batch] == encode_utf8("-o"@) && args[at_batch + 1]
                == encode_utf8("BatchMode=yes"@)
            &&& args[at_hosts] == encode_utf8("-o"@)
            &&& args[at_hosts + 1] == encode_utf8("StrictHostKeyChecking=accept-new"@)
            &&& args[at_hosts + 2] == encode_utf8("-o"@)
            &&& args[at_hosts + 3] == encode_utf8(
                "UserKnownHostsFile="@ + os_text::shown(known_hosts),
            )
            &&& args[at_hosts + 4] == encode_utf8("-S"@)
            &&& args[at_hosts + 5] == control_socket
            &&& 0 <= i < ssh_options.len() ==> args[at_options + 2 * i] == encode_utf8("-o"@)
                && args[at_options + 2 * i + 1] == encode_utf8(ssh_options[i])
            &&& args[n - 3] == encode_utf8("-O"@)
            &&& args[n - 2] == encode_utf8("exit"@)
            &&& args[n - 1] == encode_utf8(destination)
        }),
{
    wrapper::every_option_is_passed_on(ssh_options, i);
    let front = seq![os_text::bytes_of("-F"), os_text::bytes_of("/dev/null")] + wrapper::flag_args(
        os_text::bytes_of("-i"),
        identity_file,
    ) + wrapper::flag_args(os_text::bytes_of("-p"), wrapper::port_bytes(port))
        + wrapper::batch_args(batch_mode) + wrapper::known_hosts_args(Some(known_hosts)) + seq![
        os_text::bytes_of("-S"),
        control_socket,
    ];
    let options = wrapper::option_args(ssh_options);
    let back = seq![
        os_text::bytes_of("-O"),
        os_text::bytes_of("exit"),
        encode_utf8(destination),
    ];
    let args = front + options + back;
    if 0 <= i < ssh_options.len() {
        assert(args[front.len() + 2 * i] == options[2 * i]);
        assert(args[front.len() + 2 * i + 1] == options[2 * i + 1]);
    }
}

/// That nothing was mounted is read from what is said of an end: from either of two phrases,
/// wherever it stands in it, and from nothing else.
pub proof fn phrases_tell_that_nothing_was_mounted(said: Seq<char>)
    ensures
        nothing_mounted(said) <==> {
            ||| exists|a: Seq<char>, b: Seq<char>| said == #[trigger] (a + "No such file"@ + b)
            ||| exists|a: Seq<char>, b: Seq<char>|
                said == #[trigger] (a + "not found in /etc/mtab"@ + b)
        },
{
    text::held_texts_have_something_around(said, "No such file"@);
    text::held_texts_have_something_around(said, "not found in /etc/mtab"@);
}

} // verus!
