//! The command that starts the sandbox.
use vstd::prelude::*;
use vstd::utf8::encode_utf8;
use crate::config;
use crate::config::{LaunchSpec, RemoteProfile, RuntimeLayout, TeleportConfig};
use crate::decimal;
use crate::error::ErrorView;
use crate::os_text;
use crate::os_text::{ArgList, OsText, PathSet};
use crate::path;
use crate::probe;
use crate::sandbox;
use crate::text;
use crate::util;
use crate::wrapper;
use crate::wrapper::{CommandLine, EnvView, ValueView};

verus! {

/// What was seen on the local host: which paths are there, where ssh is, and what kind of
/// terminal there is.
#[derive(Debug)]
pub struct HostFacts {
    pub present: PathSet,
    pub ssh_binary: OsText,
    pub term: Option<OsText>,
}

/// The directories of the local system that the sandbox shows.
pub const SYSTEM_DIRS: [&'static str; 6] = ["/usr", "/bin", "/sbin", "/lib", "/lib64", "/etc"];

/// The directories that the sandbox has of its own.
pub const OWN_DIRS: [&'static str; 8] = [
    "/codex/bin",
    "/codex/home",
    "/codex/wrappers",
    "/codex/host-bin",
    "/codex/ssh",
    "/codex/ssh-control",
    "/remote-root",
    "/shared",
];

/// Variables of the local host that the sandbox does not get.
pub const DROPPED_VARIABLES: [&'static str; 7] = [
    "SSH_AUTH_SOCK",
    "GIT_DIR",
    "GIT_WORK_TREE",
    "GIT_INDEX_FILE",
    "PYTHONPATH",
    "VIRTUAL_ENV",
    "PIP_REQUIRE_VIRTUALENV",
];

/// The sandbox ends with its parent and has its own session, its own processes, devices and
/// temporary files.
pub open spec fn isolation_args() -> Seq<Seq<u8>> {
    seq![
        os_text::bytes_of("--die-with-parent"),
        os_text::bytes_of("--new-session"),
        os_text::bytes_of("--proc"),
        os_text::bytes_of("/proc"),
        os_text::bytes_of("--dev"),
        os_text::bytes_of("/dev"),
        os_text::bytes_of("--tmpfs"),
        os_text::bytes_of("/tmp"),
    ]
}

/// The arguments that drop variables.
pub open spec fn unset_args(variables: Seq<&'static str>) -> Seq<Seq<u8>>
    decreases variables.len(),
{
    if variables.len() == 0 {
        seq![]
    } else {
        unset_args(variables.drop_last()) + seq![
            os_text::bytes_of("--unsetenv"),
            os_text::bytes_of(variables.last()),
        ]
    }
}

/// The arguments that show directories of the local system, read-only, where they are there.
pub open spec fn system_args(dirs: Seq<&'static str>, present: Set<Seq<u8>>) -> Seq<Seq<u8>>
    decreases dirs.len(),
{
    if dirs.len() == 0 {
        seq![]
    } else {
        system_args(dirs.drop_last(), present) + util::ro_bind_args(
            os_text::bytes_of(dirs.last()),
            os_text::bytes_of(dirs.last()),
            present,
        )
    }
}

/// The arguments that create directories.
pub open spec fn own_dir_args(dirs: Seq<&'static str>) -> Seq<Seq<u8>>
    decreases dirs.len(),
{
    if dirs.len() == 0 {
        seq![]
    } else {
        own_dir_args(dirs.drop_last()) + util::dir_args(
            path::components_of(os_text::bytes_of(dirs.last())),
        )
    }
}

/// The arguments that mount a path of the local host at a place of the sandbox.
pub open spec fn mount_args(flag: &str, source: Seq<u8>, place: &str) -> Seq<Seq<u8>> {
    seq![os_text::bytes_of(flag), source, os_text::bytes_of(place)]
}

/// The arguments that create what is above a place, and mount a path there.
pub open spec fn mount_below_args(flag: &str, source: Seq<u8>, place: &str) -> Seq<Seq<u8>> {
    util::parent_dir_args(os_text::bytes_of(place)) + mount_args(flag, source, place)
}

/// The programs and files of the tool itself.
pub open spec fn tool_args(layout: &RuntimeLayout, ssh_binary: Seq<u8>) -> Seq<Seq<u8>> {
    mount_below_args("--ro-bind", layout.self_binary@, "/codex/bin/teleport-box")
        + mount_below_args("--ro-bind", ssh_binary, "/codex/host-bin/ssh") + mount_args(
        "--bind",
        layout.codex_home@,
        "/codex/home",
    ) + mount_args("--ro-bind", layout.wrapper_dir@, "/codex/wrappers") + mount_below_args(
        "--bind",
        layout.sandbox_known_hosts@,
        "/codex/ssh/known_hosts",
    )
}

/// The identity file, where there is one.
pub open spec fn identity_args(
    config: &TeleportConfig,
    layout: &RuntimeLayout,
    present: Set<Seq<u8>>,
) -> Seq<Seq<u8>> {
    if config.identity_file is Some && present.contains(layout.sandbox_identity_file@) {
        mount_below_args("--bind", layout.sandbox_identity_file@, "/codex/ssh/id_ed25519")
    } else {
        seq![]
    }
}

/// The shared directory, or an empty one.
pub open spec fn shared_args(shared_dir: Option<Seq<u8>>) -> Seq<Seq<u8>> {
    match shared_dir {
        Some(dir) => mount_args("--bind", dir, "/shared"),
        None => seq![os_text::bytes_of("--tmpfs"), os_text::bytes_of("/shared")],
    }
}

/// The arguments that mount a source at a directory, where the source is there.
pub open spec fn present_args(
    flag: &str,
    source: Seq<u8>,
    target: Seq<char>,
    present: Set<Seq<u8>>,
) -> Seq<Seq<u8>> {
    if present.contains(source) {
        util::dir_args(path::components_of(encode_utf8(target))) + seq![
            os_text::bytes_of(flag),
            source,
            encode_utf8(target),
        ]
    } else {
        seq![]
    }
}

/// The directories of the remote host.
pub open spec fn remote_args(
    mount: Seq<u8>,
    targets: Seq<Seq<char>>,
    present: Set<Seq<u8>>,
) -> Seq<Seq<u8>>
    decreases targets.len(),
{
    if targets.len() == 0 {
        seq![]
    } else {
        remote_args(mount, targets.drop_last(), present) + present_args(
            "--bind",
            sandbox::remote_source(mount, targets.last()),
            targets.last(),
            present,
        )
    }
}

/// The directories whose programs are replaced, over those of the remote host.
pub open spec fn overlay_args(
    root: Seq<u8>,
    targets: Seq<Seq<char>>,
    present: Set<Seq<u8>>,
) -> Seq<Seq<u8>>
    decreases targets.len(),
{
    if targets.len() == 0 {
        seq![]
    } else {
        overlay_args(root, targets.drop_last(), present) + present_args(
            "--ro-bind",
            sandbox::overlay_source(root, targets.last()),
            targets.last(),
            present,
        )
    }
}

/// Whether a directory is one that the sandbox has from the local system.
pub open spec fn is_local(dir: Seq<char>) -> bool {
    exists|i: int|
        0 <= i < SYSTEM_DIRS@.len() && path::within(
            encode_utf8(dir),
            os_text::bytes_of(#[trigger] SYSTEM_DIRS@[i]),
        )
}

/// Whether a path goes up somewhere. What lies at it need not lie in what it begins with.
pub open spec fn goes_up(dir: Seq<char>) -> bool {
    path::components_of(encode_utf8(dir)).contains(path::above())
}

/// Whether a directory of the remote host is mounted at a directory or above it.
pub open spec fn is_remote(
    mount: Seq<u8>,
    targets: Seq<Seq<char>>,
    dir: Seq<char>,
    present: Set<Seq<u8>>,
) -> bool {
    !goes_up(dir) && exists|i: int|
        0 <= i < targets.len() && util::under(dir, #[trigger] targets[i]) && present.contains(
            sandbox::remote_source(mount, targets[i]),
        )
}

/// Whether replaced programs are mounted at a directory.
pub open spec fn is_replaced(
    root: Seq<u8>,
    overlays: Seq<Seq<char>>,
    dir: Seq<char>,
    present: Set<Seq<u8>>,
) -> bool {
    overlays.contains(dir) && present.contains(sandbox::overlay_source(root, dir))
}

/// The arguments that hide a directory of the local system behind an empty one, where it is there
/// and nothing else takes its place.
pub open spec fn hidden_dir_args(
    layout: &RuntimeLayout,
    targets: Seq<Seq<char>>,
    overlays: Seq<Seq<char>>,
    dir: Seq<char>,
    present: Set<Seq<u8>>,
) -> Seq<Seq<u8>> {
    if is_local(dir) && present.contains(encode_utf8(dir)) && !is_remote(
        layout.remote_root_mount@,
        targets,
        dir,
        present,
    ) && !is_replaced(layout.exec_overlay_root@, overlays, dir, present) {
        seq![os_text::bytes_of("--tmpfs"), encode_utf8(dir)]
    } else {
        seq![]
    }
}

/// The arguments that hide directories of the local system.
pub open spec fn hidden_args(
    layout: &RuntimeLayout,
    targets: Seq<Seq<char>>,
    overlays: Seq<Seq<char>>,
    dirs: Seq<Seq<char>>,
    present: Set<Seq<u8>>,
) -> Seq<Seq<u8>>
    decreases dirs.len(),
{
    if dirs.len() == 0 {
        seq![]
    } else {
        hidden_args(layout, targets, overlays, dirs.drop_last(), present) + hidden_dir_args(
            layout,
            targets,
            overlays,
            dirs.last(),
            present,
        )
    }
}

/// The arguments that set one variable.
pub open spec fn set_args(name: &str, value: Seq<char>) -> Seq<Seq<u8>> {
    seq![os_text::bytes_of("--setenv"), os_text::bytes_of(name), encode_utf8(value)]
}

/// The kind of terminal.
pub open spec fn terminal(term: Option<Seq<u8>>) -> Seq<char> {
    match wrapper::var_text(term) {
        Some(term) => term,
        None => "xterm-256color"@,
    }
}

/// The variables of the sandbox itself: wrapped commands come first on the search path, and the
/// shell is a wrapped one.
pub open spec fn own_env_args(profile: &RemoteProfile, term: Option<Seq<u8>>) -> Seq<Seq<u8>> {
    set_args(
        "PATH",
        "/codex/wrappers:"@ + text::join(text::views(profile.remote_path@), ":"@),
    ) + set_args("HOME", "/codex/home"@) + set_args(
        "SHELL",
        "/codex/wrappers/"@ + profile.shell_name@,
    ) + set_args("TERM", terminal(term)) + set_args("TMPDIR", "/tmp"@)
}

/// What wrapped commands are told of the connection, in the order of
/// `wrapper::WRAPPER_VARIABLES`.
pub open spec fn wrapper_values(config: &TeleportConfig, profile: &RemoteProfile) -> Seq<
    Seq<char>,
> {
    seq![
        config.destination(),
        match config.port {
            Some(port) => decimal::decimal(port as nat),
            None => seq![],
        },
        config.remote_cwd@,
        config.remote_home@,
        profile.shell_path@,
        text::join(text::views(profile.remote_path@), ":"@),
        if config.identity_file is Some {
            "/codex/ssh/id_ed25519"@
        } else {
            ""@
        },
        "/codex/ssh/known_hosts"@,
        "/codex/host-bin/ssh"@,
        "/codex/ssh-control/control.sock"@,
        if config.batch_mode {
            "1"@
        } else {
            "0"@
        },
        text::join(text::views(config.ssh_options@), "\n"@),
        if config.shared_dir is Some {
            "/shared"@
        } else {
            ""@
        },
    ]
}

/// The arguments that set variables to values.
pub open spec fn set_all_args(names: Seq<&'static str>, values: Seq<Seq<char>>) -> Seq<Seq<u8>>
    decreases names.len(),
{
    if names.len() == 0 {
        seq![]
    } else {
        set_all_args(names.drop_last(), values) + set_args(names.last(), values[names.len() - 1])
    }
}

/// The directory to start in.
pub open spec fn start_args(start_dir: Seq<char>) -> Seq<Seq<u8>> {
    util::dir_args(path::components_of(encode_utf8(start_dir))) + seq![
        os_text::bytes_of("--chdir"),
        encode_utf8(start_dir),
    ]
}

/// The program that applies patches, where there is one.
pub open spec fn apply_patch_args(binary: Option<Seq<u8>>) -> Seq<Seq<u8>> {
    match binary {
        Some(binary) => mount_below_args("--ro-bind", binary, "/codex/bin/apply_patch"),
        None => seq![],
    }
}

/// What is run.
pub open spec fn launch_args(launch: &LaunchSpec) -> Seq<Seq<u8>> {
    match *launch {
        LaunchSpec::Arbitrary { program, args, apply_patch_binary } => apply_patch_args(
            util::opt_bytes(apply_patch_binary),
        ) + seq![os_text::bytes_of("--"), encode_utf8(program@)] + os_text::encoded(
            text::views(args@),
        ),
        LaunchSpec::Codex {
            codex_package_root,
            node_binary,
            apply_patch_binary,
            codex_args,
        } => util::dir_args(path::components_of(os_text::bytes_of("/codex/npm/codex")))
            + mount_args("--ro-bind", codex_package_root@, "/codex/npm/codex") + mount_below_args(
            "--ro-bind",
            node_binary@,
            "/codex/bin/node",
        ) + apply_patch_args(util::opt_bytes(apply_patch_binary)) + seq![
            os_text::bytes_of("--"),
            os_text::bytes_of("/codex/bin/node"),
            os_text::bytes_of("/codex/npm/codex/bin/codex.js"),
        ] + os_text::encoded(text::views(codex_args@)),
    }
}

/// What is mounted from the local host.
pub open spec fn local_args(
    config: &TeleportConfig,
    layout: &RuntimeLayout,
    present: Set<Seq<u8>>,
    ssh_binary: Seq<u8>,
) -> Seq<Seq<u8>> {
    isolation_args() + unset_args(DROPPED_VARIABLES@) + system_args(SYSTEM_DIRS@, present)
        + own_dir_args(OWN_DIRS@) + tool_args(layout, ssh_binary) + identity_args(
        config,
        layout,
        present,
    ) + mount_args("--bind", layout.ssh_control_dir@, "/codex/ssh-control") + mount_args(
        "--bind",
        layout.remote_root_mount@,
        "/remote-root",
    ) + shared_args(util::opt_bytes(config.shared_dir))
}

/// The directories of the remote host that are mounted.
pub open spec fn remote_targets(config: &TeleportConfig, profile: &RemoteProfile) -> Seq<Seq<char>> {
    sandbox::bind_targets(
        config.remote_cwd@,
        profile.exec_names_by_dir.dirs(),
        text::views(config.remote_bin_dirs@),
    )
}

/// The directories whose programs are replaced.
pub open spec fn replaced_targets(config: &TeleportConfig, profile: &RemoteProfile) -> Seq<
    Seq<char>,
> {
    sandbox::overlay_targets(
        profile.exec_names_by_dir.dirs(),
        text::views(config.remote_bin_dirs@),
    )
}

/// All that is mounted before the environment is set: what comes from the local host, then what
/// hides those of its directories that are on the remote search path, then the directories of the
/// remote host, then those with replaced programs.
pub open spec fn view_args(
    config: &TeleportConfig,
    layout: &RuntimeLayout,
    profile: &RemoteProfile,
    present: Set<Seq<u8>>,
    ssh_binary: Seq<u8>,
) -> Seq<Seq<u8>> {
    local_args(config, layout, present, ssh_binary) + hidden_args(
        layout,
        remote_targets(config, profile),
        replaced_targets(config, profile),
        text::views(profile.remote_path@),
        present,
    ) + remote_args(layout.remote_root_mount@, remote_targets(config, profile), present)
        + overlay_args(layout.exec_overlay_root@, replaced_targets(config, profile), present)
}

/// The arguments of the sandbox: what it shows, then its environment, then what is run in it.
pub open spec fn bwrap_args(
    config: &TeleportConfig,
    layout: &RuntimeLayout,
    profile: &RemoteProfile,
    launch: &LaunchSpec,
    present: Set<Seq<u8>>,
    ssh_binary: Seq<u8>,
    term: Option<Seq<u8>>,
) -> Seq<Seq<u8>> {
    view_args(config, layout, profile, present, ssh_binary) + own_env_args(profile, term)
        + set_all_args(wrapper::WRAPPER_VARIABLES@, wrapper_values(config, profile)) + start_args(
        config.remote_cwd@,
    ) + launch_args(launch)
}

fn push_isolation(args: &mut ArgList)
    ensures
        final(args)@ == old(args)@ + isolation_args(),
{
    let ghost start = args@;
    args.push_pair("--die-with-parent", "--new-session");
    args.push_pair("--proc", "/proc");
    args.push_pair("--dev", "/dev");
    args.push_pair("--tmpfs", "/tmp");
    assert(args@ =~= start + isolation_args());
}

fn push_unset(args: &mut ArgList)
    ensures
        final(args)@ == old(args)@ + unset_args(DROPPED_VARIABLES@),
{
    let ghost start = args@;
    let ghost all = DROPPED_VARIABLES@;
    assert(start + unset_args(all.take(0)) =~= start);
    for i in 0..DROPPED_VARIABLES.len()
        invariant
            all == DROPPED_VARIABLES@,
            args@ == start + unset_args(all.take(i as int)),
    {
        proof {
            assert(all.take(i + 1).drop_last() =~= all.take(i as int));
            assert(all.take(i + 1).last() == all[i as int]);
            let more = seq![os_text::bytes_of("--unsetenv"), os_text::bytes_of(all[i as int])];
            assert(start + (unset_args(all.take(i as int)) + more) =~= start + unset_args(
                all.take(i as int),
            ) + more);
        }
        args.push_pair("--unsetenv", DROPPED_VARIABLES[i]);
    }
    assert(all.take(all.len() as int) =~= all);
}

fn push_system(args: &mut ArgList, present: &PathSet)
    ensures
        final(args)@ == old(args)@ + system_args(SYSTEM_DIRS@, present@),
{
    let ghost start = args@;
    let ghost all = SYSTEM_DIRS@;
    assert(start + system_args(all.take(0), present@) =~= start);
    for i in 0..SYSTEM_DIRS.len()
        invariant
            all == SYSTEM_DIRS@,
            args@ == start + system_args(all.take(i as int), present@),
    {
        proof {
            assert(all.take(i + 1).drop_last() =~= all.take(i as int));
            assert(all.take(i + 1).last() == all[i as int]);
            let dir = os_text::bytes_of(all[i as int]);
            let more = util::ro_bind_args(dir, dir, present@);
            assert(start + (system_args(all.take(i as int), present@) + more) =~= start
                + system_args(all.take(i as int), present@) + more);
        }
        util::add_ro_bind_if_exists(args, SYSTEM_DIRS[i], SYSTEM_DIRS[i], present);
    }
    assert(all.take(all.len() as int) =~= all);
}

fn push_own_dirs(args: &mut ArgList)
    ensures
        final(args)@ == old(args)@ + own_dir_args(OWN_DIRS@),
{
    let ghost start = args@;
    let ghost all = OWN_DIRS@;
    assert(start + own_dir_args(all.take(0)) =~= start);
    for i in 0..OWN_DIRS.len()
        invariant
            all == OWN_DIRS@,
            args@ == start + own_dir_args(all.take(i as int)),
    {
        proof {
            assert(all.take(i + 1).drop_last() =~= all.take(i as int));
            assert(all.take(i + 1).last() == all[i as int]);
            let more = util::dir_args(path::components_of(os_text::bytes_of(all[i as int])));
            assert(start + (own_dir_args(all.take(i as int)) + more) =~= start + own_dir_args(
                all.take(i as int),
            ) + more);
        }
        util::prepare_bind_dir(args, &OsText::from_text(OWN_DIRS[i]));
    }
    assert(all.take(all.len() as int) =~= all);
}

fn push_mount(args: &mut ArgList, flag: &str, source: &OsText, place: &str)
    ensures
        final(args)@ == old(args)@ + mount_args(flag, source@, place),
{
    let ghost start = args@;
    args.push_text(flag);
    args.push_os(source);
    args.push_text(place);
    assert(args@ =~= start + mount_args(flag, source@, place));
}

fn push_mount_below(args: &mut ArgList, flag: &str, source: &OsText, place: &str)
    ensures
        final(args)@ == old(args)@ + mount_below_args(flag, source@, place),
{
    let ghost start = args@;
    util::prepare_bind_parent(args, &OsText::from_text(place));
    push_mount(args, flag, source, place);
    assert(args@ =~= start + mount_below_args(flag, source@, place));
}

fn push_tools(args: &mut ArgList, layout: &RuntimeLayout, ssh_binary: &OsText)
    ensures
        final(args)@ == old(args)@ + tool_args(layout, ssh_binary@),
{
    let ghost start = args@;
    push_mount_below(args, "--ro-bind", &layout.self_binary, "/codex/bin/teleport-box");
    push_mount_below(args, "--ro-bind", ssh_binary, "/codex/host-bin/ssh");
    push_mount(args, "--bind", &layout.codex_home, "/codex/home");
    push_mount(args, "--ro-bind", &layout.wrapper_dir, "/codex/wrappers");
    push_mount_below(args, "--bind", &layout.sandbox_known_hosts, "/codex/ssh/known_hosts");
    assert(args@ =~= start + tool_args(layout, ssh_binary@));
}

fn push_identity(
    args: &mut ArgList,
    config: &TeleportConfig,
    layout: &RuntimeLayout,
    present: &PathSet,
)
    ensures
        final(args)@ == old(args)@ + identity_args(config, layout, present@),
{
    let ghost start = args@;
    if config.identity_file.is_some() && present.contains(&layout.sandbox_identity_file) {
        push_mount_below(args, "--bind", &layout.sandbox_identity_file, "/codex/ssh/id_ed25519");
    } else {
        assert(start + Seq::<Seq<u8>>::empty() =~= start);
    }
}

fn push_shared(args: &mut ArgList, shared_dir: &Option<OsText>)
    ensures
        final(args)@ == old(args)@ + shared_args(util::opt_bytes(*shared_dir)),
{
    if let Some(dir) = shared_dir {
        push_mount(args, "--bind", dir, "/shared");
    } else {
        args.push_pair("--tmpfs", "/shared");
    }
}

fn push_present(args: &mut ArgList, flag: &str, source: &OsText, target: &str, present: &PathSet)
    ensures
        final(args)@ == old(args)@ + present_args(flag, source@, target@, present@),
{
    let ghost start = args@;
    if present.contains(source) {
        util::prepare_bind_dir(args, &OsText::from_text(target));
        push_mount(args, flag, source, target);
        assert(args@ =~= start + present_args(flag, source@, target@, present@));
    } else {
        assert(start + Seq::<Seq<u8>>::empty() =~= start);
    }
}

fn push_remote(args: &mut ArgList, mount: &OsText, targets: &Vec<String>, present: &PathSet)
    ensures
        final(args)@ == old(args)@ + remote_args(mount@, text::views(targets@), present@),
{
    let ghost start = args@;
    let ghost all = text::views(targets@);
    assert(start + remote_args(mount@, all.take(0), present@) =~= start);
    for i in 0..targets.len()
        invariant
            all == text::views(targets@),
            args@ == start + remote_args(mount@, all.take(i as int), present@),
    {
        let source = sandbox::source_for_remote_target(mount, targets[i].as_str());
        proof {
            assert(all.take(i + 1).drop_last() =~= all.take(i as int));
            assert(all.take(i + 1).last() == targets@[i as int]@);
            let front = remote_args(mount@, all.take(i as int), present@);
            let more = present_args("--bind", source@, targets@[i as int]@, present@);
            assert(start + (front + more) =~= start + front + more);
        }
        push_present(args, "--bind", &source, targets[i].as_str(), present);
    }
    assert(all.take(all.len() as int) =~= all);
}

fn push_overlay(args: &mut ArgList, root: &OsText, targets: &Vec<String>, present: &PathSet)
    ensures
        final(args)@ == old(args)@ + overlay_args(root@, text::views(targets@), present@),
{
    let ghost start = args@;
    let ghost all = text::views(targets@);
    assert(start + overlay_args(root@, all.take(0), present@) =~= start);
    for i in 0..targets.len()
        invariant
            all == text::views(targets@),
            args@ == start + overlay_args(root@, all.take(i as int), present@),
    {
        let source = sandbox::overlay_source_dir(root, targets[i].as_str());
        proof {
            assert(all.take(i + 1).drop_last() =~= all.take(i as int));
            assert(all.take(i + 1).last() == targets@[i as int]@);
            let front = overlay_args(root@, all.take(i as int), present@);
            let more = present_args("--ro-bind", source@, targets@[i as int]@, present@);
            assert(start + (front + more) =~= start + front + more);
        }
        push_present(args, "--ro-bind", &source, targets[i].as_str(), present);
    }
    assert(all.take(all.len() as int) =~= all);
}

fn is_local_dir(dir: &str) -> (r: bool)
    ensures
        r == is_local(dir@),
{
    let bytes = OsText::from_text(dir);
    for i in 0..SYSTEM_DIRS.len()
        invariant
            bytes@ == encode_utf8(dir@),
            forall|k: int|
                0 <= k < i ==> !path::within(bytes@, os_text::bytes_of(#[trigger] SYSTEM_DIRS@[k])),
    {
        if path::starts_with(&bytes, &OsText::from_text(SYSTEM_DIRS[i])) {
            assert(path::within(bytes@, os_text::bytes_of(SYSTEM_DIRS@[i as int])));
            return true;
        }
    }
    false
}

fn has_step_up(dir: &str) -> (r: bool)
    ensures
        r == goes_up(dir@),
{
    let parts = path::components(&OsText::from_text(dir));
    let up = OsText::from_text("..");
    let ghost all = os_text::os_views(parts@);
    proof {
        reveal_strlit("..");
        vstd::utf8::is_ascii_chars_encode_utf8(".."@);
        assert(up@ =~= path::above());
    }
    for i in 0..parts.len()
        invariant
            all == os_text::os_views(parts@),
            all == path::components_of(encode_utf8(dir@)),
            up@ == path::above(),
            forall|k: int| 0 <= k < i ==> all[k] != path::above(),
    {
        assert(all[i as int] == parts@[i as int]@);
        if parts[i].same(&up) {
            return true;
        }
    }
    false
}

fn is_remote_dir(mount: &OsText, targets: &Vec<String>, dir: &str, present: &PathSet) -> (r: bool)
    ensures
        r == is_remote(mount@, text::views(targets@), dir@, present@),
{
    if has_step_up(dir) {
        return false;
    }
    let ghost all = text::views(targets@);
    for i in 0..targets.len()
        invariant
            all == text::views(targets@),
            !goes_up(dir@),
            forall|k: int|
                0 <= k < i ==> !(util::under(dir@, #[trigger] all[k]) && present@.contains(
                    sandbox::remote_source(mount@, all[k]),
                )),
    {
        assert(all[i as int] == targets@[i as int]@);
        if util::path_is_under(dir, targets[i].as_str()) && present.contains(
            &sandbox::source_for_remote_target(mount, targets[i].as_str()),
        ) {
            assert(util::under(dir@, all[i as int]));
            return true;
        }
    }
    false
}

fn is_replaced_dir(root: &OsText, overlays: &Vec<String>, dir: &str, present: &PathSet) -> (r: bool)
    ensures
        r == is_replaced(root@, text::views(overlays@), dir@, present@),
{
    text::has_text(overlays, dir) && present.contains(&sandbox::overlay_source_dir(root, dir))
}

fn push_hidden_dir(
    args: &mut ArgList,
    layout: &RuntimeLayout,
    targets: &Vec<String>,
    overlays: &Vec<String>,
    dir: &str,
    present: &PathSet,
)
    ensures
        final(args)@ == old(args)@ + hidden_dir_args(
            layout,
            text::views(targets@),
            text::views(overlays@),
            dir@,
            present@,
        ),
{
    let ghost start = args@;
    if is_local_dir(dir) && present.contains(&OsText::from_text(dir)) && !is_remote_dir(
        &layout.remote_root_mount,
        targets,
        dir,
        present,
    ) && !is_replaced_dir(&layout.exec_overlay_root, overlays, dir, present) {
        args.push_pair("--tmpfs", dir);
    } else {
        assert(start + Seq::<Seq<u8>>::empty() =~= start);
    }
}

fn push_hidden(
    args: &mut ArgList,
    layout: &RuntimeLayout,
    targets: &Vec<String>,
    overlays: &Vec<String>,
    dirs: &Vec<String>,
    present: &PathSet,
)
    ensures
        final(args)@ == old(args)@ + hidden_args(
            layout,
            text::views(targets@),
            text::views(overlays@),
            text::views(dirs@),
            present@,
        ),
{
    let ghost start = args@;
    let ghost all = text::views(dirs@);
    let ghost t = text::views(targets@);
    let ghost o = text::views(overlays@);
    assert(start + hidden_args(layout, t, o, all.take(0), present@) =~= start);
    for i in 0..dirs.len()
        invariant
            all == text::views(dirs@),
            t == text::views(targets@),
            o == text::views(overlays@),
            args@ == start + hidden_args(layout, t, o, all.take(i as int), present@),
    {
        proof {
            assert(all.take(i + 1).drop_last() =~= all.take(i as int));
            assert(all.take(i + 1).last() == dirs@[i as int]@);
            let front = hidden_args(layout, t, o, all.take(i as int), present@);
            let more = hidden_dir_args(layout, t, o, dirs@[i as int]@, present@);
            assert(start + (front + more) =~= start + front + more);
        }
        push_hidden_dir(args, layout, targets, overlays, dirs[i].as_str(), present);
    }
    assert(all.take(all.len() as int) =~= all);
}

fn push_own_env(args: &mut ArgList, profile: &RemoteProfile, term: &Option<OsText>)
    ensures
        final(args)@ == old(args)@ + own_env_args(profile, util::opt_bytes(*term)),
{
    let ghost start = args@;
    let search_path = text::join_texts(&profile.remote_path, ":");
    let kind = match term {
        Some(bytes) => match bytes.to_text() {
            Some(text) => text,
            None => "xterm-256color".to_string(),
        },
        None => "xterm-256color".to_string(),
    };
    args.push_triple(
        "--setenv",
        "PATH",
        "/codex/wrappers:".to_string().concat(search_path.as_str()).as_str(),
    );
    args.push_triple("--setenv", "HOME", "/codex/home");
    args.push_triple(
        "--setenv",
        "SHELL",
        "/codex/wrappers/".to_string().concat(profile.shell_name.as_str()).as_str(),
    );
    args.push_triple("--setenv", "TERM", kind.as_str());
    args.push_triple("--setenv", "TMPDIR", "/tmp");
    assert(args@ =~= start + own_env_args(profile, util::opt_bytes(*term)));
}

/// What wrapped commands are told of the connection, in the order of
/// `wrapper::WRAPPER_VARIABLES`.
pub fn wrapper_environment(config: &TeleportConfig, profile: &RemoteProfile) -> (r: Vec<String>)
    ensures
        text::views(r@) == wrapper_values(config, profile),
{
    let port = match config.port {
        Some(port) => decimal::decimal_text(port as u64),
        None => String::new(),
    };
    let mut out: Vec<String> = Vec::new();
    out.push(config.ssh_destination());
    out.push(port);
    out.push(config.remote_cwd.clone());
    out.push(config.remote_home.clone());
    out.push(profile.shell_path.clone());
    out.push(text::join_texts(&profile.remote_path, ":"));
    out.push(
        if config.identity_file.is_some() {
            "/codex/ssh/id_ed25519".to_string()
        } else {
            "".to_string()
        },
    );
    out.push("/codex/ssh/known_hosts".to_string());
    out.push("/codex/host-bin/ssh".to_string());
    out.push("/codex/ssh-control/control.sock".to_string());
    out.push(
        if config.batch_mode {
            "1".to_string()
        } else {
            "0".to_string()
        },
    );
    out.push(text::join_texts(&config.ssh_options, "\n"));
    out.push(
        if config.shared_dir.is_some() {
            "/shared".to_string()
        } else {
            "".to_string()
        },
    );
    assert(text::views(out@) =~= wrapper_values(config, profile));
    out
}

fn push_wrapper_env(args: &mut ArgList, config: &TeleportConfig, profile: &RemoteProfile)
    ensures
        final(args)@ == old(args)@ + set_all_args(
            wrapper::WRAPPER_VARIABLES@,
            wrapper_values(config, profile),
        ),
{
    let values = wrapper_environment(config, profile);
    let ghost start = args@;
    let ghost all = wrapper::WRAPPER_VARIABLES@;
    let ghost given = wrapper_values(config, profile);
    assert(text::views(values@).len() == 13);
    assert(start + set_all_args(all.take(0), given) =~= start);
    for i in 0..wrapper::WRAPPER_VARIABLES.len()
        invariant
            all == wrapper::WRAPPER_VARIABLES@,
            given == text::views(values@),
            values@.len() == 13,
            args@ == start + set_all_args(all.take(i as int), given),
    {
        proof {
            assert(all.take(i + 1).drop_last() =~= all.take(i as int));
            assert(all.take(i + 1).last() == all[i as int]);
            assert(given[i as int] == values@[i as int]@);
            let front = set_all_args(all.take(i as int), given);
            let more = set_args(all[i as int], given[i as int]);
            assert(start + (front + more) =~= start + front + more);
        }
        args.push_triple("--setenv", wrapper::WRAPPER_VARIABLES[i], values[i].as_str());
    }
    assert(all.take(all.len() as int) =~= all);
}

fn push_start(args: &mut ArgList, start_dir: &str)
    ensures
        final(args)@ == old(args)@ + start_args(start_dir@),
{
    let ghost start = args@;
    util::prepare_bind_dir(args, &OsText::from_text(start_dir));
    args.push_pair("--chdir", start_dir);
    assert(args@ =~= start + start_args(start_dir@));
}

fn push_apply_patch(args: &mut ArgList, binary: &Option<OsText>)
    ensures
        final(args)@ == old(args)@ + apply_patch_args(util::opt_bytes(*binary)),
{
    let ghost start = args@;
    if let Some(binary) = binary {
        push_mount_below(args, "--ro-bind", binary, "/codex/bin/apply_patch");
    } else {
        assert(start + Seq::<Seq<u8>>::empty() =~= start);
    }
}

fn push_launch(args: &mut ArgList, launch: &LaunchSpec)
    ensures
        final(args)@ == old(args)@ + launch_args(launch),
{
    let ghost start = args@;
    match launch {
        LaunchSpec::Arbitrary { program, args: list, apply_patch_binary } => {
            push_apply_patch(args, apply_patch_binary);
            args.push_pair("--", program.as_str());
            args.push_texts(list);
        },
        LaunchSpec::Codex { codex_package_root, node_binary, apply_patch_binary, codex_args } => {
            util::prepare_bind_dir(args, &OsText::from_text("/codex/npm/codex"));
            push_mount(args, "--ro-bind", codex_package_root, "/codex/npm/codex");
            push_mount_below(args, "--ro-bind", node_binary, "/codex/bin/node");
            push_apply_patch(args, apply_patch_binary);
            args.push_triple("--", "/codex/bin/node", "/codex/npm/codex/bin/codex.js");
            args.push_texts(codex_args);
        },
    }
    assert(args@ =~= start + launch_args(launch));
}

fn local_list(config: &TeleportConfig, layout: &RuntimeLayout, host: &HostFacts) -> (r: ArgList)
    ensures
        r@ == local_args(config, layout, host.present@, host.ssh_binary@),
{
    let mut args = ArgList::new();
    push_isolation(&mut args);
    assert(args@ =~= isolation_args());
    push_unset(&mut args);
    push_system(&mut args, &host.present);
    push_own_dirs(&mut args);
    push_tools(&mut args, layout, &host.ssh_binary);
    push_identity(&mut args, config, layout, &host.present);
    push_mount(&mut args, "--bind", &layout.ssh_control_dir, "/codex/ssh-control");
    push_mount(&mut args, "--bind", &layout.remote_root_mount, "/remote-root");
    push_shared(&mut args, &config.shared_dir);
    args
}

fn view_list(
    config: &TeleportConfig,
    layout: &RuntimeLayout,
    profile: &RemoteProfile,
    host: &HostFacts,
) -> (r: ArgList)
    requires
        profile.exec_names_by_dir.wf(),
    ensures
        r@ == view_args(config, layout, profile, host.present@, host.ssh_binary@),
{
    let mut args = local_list(config, layout, host);
    let targets = sandbox::remote_bind_targets(config, profile);
    let overlays = sandbox::overlay_target_dirs(config, profile);
    push_hidden(&mut args, layout, &targets, &overlays, &profile.remote_path, &host.present);
    push_remote(&mut args, &layout.remote_root_mount, &targets, &host.present);
    push_overlay(&mut args, &layout.exec_overlay_root, &overlays, &host.present);
    args
}

/// The command that starts the sandbox.
pub fn run_inside_bwrap(
    config: &TeleportConfig,
    layout: &RuntimeLayout,
    profile: &RemoteProfile,
    launch: &LaunchSpec,
    host: &HostFacts,
) -> (r: CommandLine)
    requires
        profile.exec_names_by_dir.wf(),
    ensures
        r.program@ == os_text::bytes_of("bwrap"),
        r.args@ == bwrap_args(
            config,
            layout,
            profile,
            launch,
            host.present@,
            host.ssh_binary@,
            util::opt_bytes(host.term),
        ),
        match *launch {
            LaunchSpec::Arbitrary { program, args, .. } => {
                let n = r.args@.len() - args@.len();
                &&& n >= 2
                &&& r.args@[n - 2] == encode_utf8("--"@)
                &&& r.args@[n - 1] == encode_utf8(program@)
                &&& forall|i: int|
                    0 <= i < args@.len() ==> r.args@[n + i] == encode_utf8((#[trigger] args@[i])@)
            },
            LaunchSpec::Codex { codex_args, .. } => {
                let n = r.args@.len() - codex_args@.len();
                &&& n >= 3
                &&& r.args@[n - 3] == encode_utf8("--"@)
                &&& r.args@[n - 2] == encode_utf8("/codex/bin/node"@)
                &&& r.args@[n - 1] == encode_utf8("/codex/npm/codex/bin/codex.js"@)
                &&& forall|i: int|
                    0 <= i < codex_args@.len() ==> r.args@[n + i] == encode_utf8(
                        (#[trigger] codex_args@[i])@,
                    )
            },
        },
{
    let mut args = view_list(config, layout, profile, host);
    push_own_env(&mut args, profile, &host.term);
    push_wrapper_env(&mut args, config, profile);
    push_start(&mut args, sandbox::start_dir_for_bwrap(config).as_str());
    let ghost before = args@;
    push_launch(&mut args, launch);
    proof {
        lemma_launch_last(before, launch);
    }
    CommandLine { program: OsText::from_text("bwrap"), args }
}

/// The sources of mounted directories.
pub open spec fn remote_sources(mount: Seq<u8>, targets: Seq<Seq<char>>) -> Seq<Seq<u8>> {
    targets.map_values(|target: Seq<char>| sandbox::remote_source(mount, target))
}

/// The sources of replaced programs.
pub open spec fn overlay_sources(root: Seq<u8>, targets: Seq<Seq<char>>) -> Seq<Seq<u8>> {
    targets.map_values(|target: Seq<char>| sandbox::overlay_source(root, target))
}

/// The paths of the local host whose presence decides what is mounted.
pub open spec fn looked_at(
    config: &TeleportConfig,
    layout: &RuntimeLayout,
    profile: &RemoteProfile,
) -> Seq<Seq<u8>> {
    os_text::encoded(config::literals(SYSTEM_DIRS@)) + seq![layout.sandbox_identity_file@]
        + remote_sources(layout.remote_root_mount@, remote_targets(config, profile))
        + overlay_sources(layout.exec_overlay_root@, replaced_targets(config, profile))
        + os_text::encoded(text::views(profile.remote_path@))
}

/// The paths of the local host whose presence decides what is mounted.
pub fn paths_to_look_at(
    config: &TeleportConfig,
    layout: &RuntimeLayout,
    profile: &RemoteProfile,
) -> (r: Vec<OsText>)
    requires
        profile.exec_names_by_dir.wf(),
    ensures
        os_text::os_views(r@) == looked_at(config, layout, profile),
{
    let mut out = ArgList::new();
    let ghost system = os_text::encoded(config::literals(SYSTEM_DIRS@));
    assert(system.take(0) =~= seq![]);
    for i in 0..SYSTEM_DIRS.len()
        invariant
            system == os_text::encoded(config::literals(SYSTEM_DIRS@)),
            out@ == system.take(i as int),
    {
        assert(system[i as int] == os_text::bytes_of(SYSTEM_DIRS@[i as int]));
        assert(system.take(i + 1) =~= system.take(i as int).push(system[i as int]));
        out.push_text(SYSTEM_DIRS[i]);
    }
    assert(system.take(system.len() as int) =~= system);
    out.push_os(&layout.sandbox_identity_file);
    let ghost start = out@;
    let targets = sandbox::remote_bind_targets(config, profile);
    let ghost remote = remote_sources(layout.remote_root_mount@, text::views(targets@));
    assert(start + remote.take(0) =~= start);
    for i in 0..targets.len()
        invariant
            remote == remote_sources(layout.remote_root_mount@, text::views(targets@)),
            out@ == start + remote.take(i as int),
    {
        let source = sandbox::source_for_remote_target(
            &layout.remote_root_mount,
            targets[i].as_str(),
        );
        assert(text::views(targets@)[i as int] == targets@[i as int]@);
        assert(remote[i as int] == source@);
        assert(start + remote.take(i + 1) =~= (start + remote.take(i as int)).push(source@));
        out.push(source);
    }
    assert(remote.take(remote.len() as int) =~= remote);
    let ghost middle = out@;
    let overlays = sandbox::overlay_target_dirs(config, profile);
    let ghost overlay = overlay_sources(layout.exec_overlay_root@, text::views(overlays@));
    assert(middle + overlay.take(0) =~= middle);
    for i in 0..overlays.len()
        invariant
            overlay == overlay_sources(layout.exec_overlay_root@, text::views(overlays@)),
            out@ == middle + overlay.take(i as int),
    {
        let source = sandbox::overlay_source_dir(&layout.exec_overlay_root, overlays[i].as_str());
        assert(text::views(overlays@)[i as int] == overlays@[i as int]@);
        assert(overlay[i as int] == source@);
        assert(middle + overlay.take(i + 1) =~= (middle + overlay.take(i as int)).push(source@));
        out.push(source);
    }
    assert(overlay.take(overlay.len() as int) =~= overlay);
    out.push_texts(&profile.remote_path);
    assert(out@ =~= looked_at(config, layout, profile));
    out.into_vec()
}

/// Whether two sets have the same of the paths of a list.
pub open spec fn agree(list: Seq<Seq<u8>>, a: Set<Seq<u8>>, b: Set<Seq<u8>>) -> bool {
    forall|i: int| 0 <= i < list.len() ==> a.contains(#[trigger] list[i]) == b.contains(list[i])
}

proof fn lemma_system_args(dirs: Seq<&'static str>, a: Set<Seq<u8>>, b: Set<Seq<u8>>)
    requires
        agree(os_text::encoded(config::literals(dirs)), a, b),
    ensures
        system_args(dirs, a) == system_args(dirs, b),
    decreases dirs.len(),
{
    if dirs.len() > 0 {
        let all = os_text::encoded(config::literals(dirs));
        let init = os_text::encoded(config::literals(dirs.drop_last()));
        assert forall|i: int| 0 <= i < init.len() implies a.contains(#[trigger] init[i])
            == b.contains(init[i]) by {
            assert(init[i] == all[i]);
        }
        lemma_system_args(dirs.drop_last(), a, b);
        assert(all[dirs.len() - 1] == os_text::bytes_of(dirs.last()));
    }
}

proof fn lemma_remote_args(
    mount: Seq<u8>,
    targets: Seq<Seq<char>>,
    a: Set<Seq<u8>>,
    b: Set<Seq<u8>>,
)
    requires
        agree(remote_sources(mount, targets), a, b),
    ensures
        remote_args(mount, targets, a) == remote_args(mount, targets, b),
    decreases targets.len(),
{
    if targets.len() > 0 {
        let all = remote_sources(mount, targets);
        let init = remote_sources(mount, targets.drop_last());
        assert forall|i: int| 0 <= i < init.len() implies a.contains(#[trigger] init[i])
            == b.contains(init[i]) by {
            assert(init[i] == all[i]);
        }
        lemma_remote_args(mount, targets.drop_last(), a, b);
        assert(all[targets.len() - 1] == sandbox::remote_source(mount, targets.last()));
    }
}

proof fn lemma_overlay_args(
    root: Seq<u8>,
    targets: Seq<Seq<char>>,
    a: Set<Seq<u8>>,
    b: Set<Seq<u8>>,
)
    requires
        agree(overlay_sources(root, targets), a, b),
    ensures
        overlay_args(root, targets, a) == overlay_args(root, targets, b),
    decreases targets.len(),
{
    if targets.len() > 0 {
        let all = overlay_sources(root, targets);
        let init = overlay_sources(root, targets.drop_last());
        assert forall|i: int| 0 <= i < init.len() implies a.contains(#[trigger] init[i])
            == b.contains(init[i]) by {
            assert(init[i] == all[i]);
        }
        lemma_overlay_args(root, targets.drop_last(), a, b);
        assert(all[targets.len() - 1] == sandbox::overlay_source(root, targets.last()));
    }
}

proof fn lemma_is_remote(
    mount: Seq<u8>,
    targets: Seq<Seq<char>>,
    dir: Seq<char>,
    a: Set<Seq<u8>>,
    b: Set<Seq<u8>>,
)
    requires
        agree(remote_sources(mount, targets), a, b),
        is_remote(mount, targets, dir, a),
    ensures
        is_remote(mount, targets, dir, b),
{
    let i = choose|i: int|
        0 <= i < targets.len() && util::under(dir, #[trigger] targets[i]) && a.contains(
            sandbox::remote_source(mount, targets[i]),
        );
    assert(remote_sources(mount, targets)[i] == sandbox::remote_source(mount, targets[i]));
    assert(util::under(dir, targets[i]));
}

proof fn lemma_hidden_args(
    layout: &RuntimeLayout,
    targets: Seq<Seq<char>>,
    overlays: Seq<Seq<char>>,
    dirs: Seq<Seq<char>>,
    a: Set<Seq<u8>>,
    b: Set<Seq<u8>>,
)
    requires
        agree(remote_sources(layout.remote_root_mount@, targets), a, b),
        agree(overlay_sources(layout.exec_overlay_root@, overlays), a, b),
        agree(os_text::encoded(dirs), a, b),
    ensures
        hidden_args(layout, targets, overlays, dirs, a) == hidden_args(
            layout,
            targets,
            overlays,
            dirs,
            b,
        ),
    decreases dirs.len(),
{
    if dirs.len() > 0 {
        let dir = dirs.last();
        let mount = layout.remote_root_mount@;
        let root = layout.exec_overlay_root@;
        let all = os_text::encoded(dirs);
        let init = os_text::encoded(dirs.drop_last());
        assert forall|i: int| 0 <= i < init.len() implies a.contains(#[trigger] init[i])
            == b.contains(init[i]) by {
            assert(init[i] == all[i]);
        }
        lemma_hidden_args(layout, targets, overlays, dirs.drop_last(), a, b);
        assert(all[dirs.len() - 1] == encode_utf8(dir));
        if is_remote(mount, targets, dir, a) {
            lemma_is_remote(mount, targets, dir, a, b);
        }
        if is_remote(mount, targets, dir, b) {
            lemma_is_remote(mount, targets, dir, b, a);
        }
        if overlays.contains(dir) {
            let i = choose|i: int| 0 <= i < overlays.len() && overlays[i] == dir;
            assert(overlay_sources(root, overlays)[i] == sandbox::overlay_source(root, dir));
        }
    }
}

proof fn lemma_agree_part(
    front: Seq<Seq<u8>>,
    list: Seq<Seq<u8>>,
    back: Seq<Seq<u8>>,
    a: Set<Seq<u8>>,
    b: Set<Seq<u8>>,
)
    requires
        agree(front + list + back, a, b),
    ensures
        agree(list, a, b),
{
    let all = front + list + back;
    assert forall|i: int| 0 <= i < list.len() implies a.contains(#[trigger] list[i]) == b.contains(
        list[i],
    ) by {
        assert(all[front.len() + i] == list[i]);
    }
}

/// The sandbox depends on no other path of the local host than those that are looked at.
pub proof fn only_these_paths_matter(
    config: &TeleportConfig,
    layout: &RuntimeLayout,
    profile: &RemoteProfile,
    launch: &LaunchSpec,
    a: Set<Seq<u8>>,
    b: Set<Seq<u8>>,
    ssh_binary: Seq<u8>,
    term: Option<Seq<u8>>,
)
    requires
        agree(looked_at(config, layout, profile), a, b),
    ensures
        bwrap_args(config, layout, profile, launch, a, ssh_binary, term) == bwrap_args(
            config,
            layout,
            profile,
            launch,
            b,
            ssh_binary,
            term,
        ),
{
    let system = os_text::encoded(config::literals(SYSTEM_DIRS@));
    let identity = seq![layout.sandbox_identity_file@];
    let targets = remote_targets(config, profile);
    let overlays = replaced_targets(config, profile);
    let dirs = text::views(profile.remote_path@);
    let remote = remote_sources(layout.remote_root_mount@, targets);
    let overlay = overlay_sources(layout.exec_overlay_root@, overlays);
    let searched = os_text::encoded(dirs);
    let all = looked_at(config, layout, profile);
    let none = Seq::<Seq<u8>>::empty();
    assert(all =~= none + system + (identity + remote + overlay + searched));
    assert(all =~= system + identity + (remote + overlay + searched));
    assert(all =~= system + identity + remote + (overlay + searched));
    assert(all =~= (system + identity + remote) + overlay + searched);
    assert(all =~= (system + identity + remote + overlay) + searched + none);
    lemma_agree_part(none, system, identity + remote + overlay + searched, a, b);
    lemma_agree_part(system, identity, remote + overlay + searched, a, b);
    lemma_agree_part(system + identity, remote, overlay + searched, a, b);
    lemma_agree_part(system + identity + remote, overlay, searched, a, b);
    lemma_agree_part(system + identity + remote + overlay, searched, none, a, b);
    lemma_system_args(SYSTEM_DIRS@, a, b);
    assert(a.contains(identity[0]) == b.contains(identity[0]));
    lemma_hidden_args(layout, targets, overlays, dirs, a, b);
    lemma_remote_args(layout.remote_root_mount@, targets, a, b);
    lemma_overlay_args(layout.exec_overlay_root@, overlays, a, b);
}

/// What a wrapped command is told of the connection, as the values of its variables. `quoted` says
/// how the system quotes each of them.
pub open spec fn wrapper_vars(
    config: &TeleportConfig,
    profile: &RemoteProfile,
    quoted: Seq<Seq<char>>,
) -> Seq<Option<ValueView>> {
    let values = wrapper_values(config, profile);
    Seq::new(
        values.len(),
        |i: int| Some(ValueView { bytes: encode_utf8(values[i]), quoted: quoted[i] }),
    )
}

/// The connection as a wrapped command is to see it: the same destination, port and options, and
/// the files where the sandbox has them.
pub open spec fn sandbox_env(config: &TeleportConfig, profile: &RemoteProfile) -> EnvView {
    EnvView {
        destination: config.destination(),
        port: config.port,
        identity_file: if config.identity_file is Some {
            Some("/codex/ssh/id_ed25519"@)
        } else {
            None
        },
        known_hosts: "/codex/ssh/known_hosts"@,
        control_path: Some("/codex/ssh-control/control.sock"@),
        host_ssh: "/codex/host-bin/ssh"@,
        batch_mode: config.batch_mode,
        ssh_options: text::views(config.ssh_options@),
        remote_cwd: config.remote_cwd@,
        remote_home: config.remote_home@,
        remote_shell: profile.shell_path@,
        remote_path: text::join(text::views(profile.remote_path@), ":"@),
        shared_dir: if config.shared_dir is Some {
            Some(os_text::bytes_of("/shared"))
        } else {
            None
        },
    }
}

proof fn lemma_joined_options(options: Seq<Seq<char>>)
    requires
        options.len() > 0,
        options != seq![Seq::<char>::empty()],
    ensures
        text::join(options, seq!['\n']).len() > 0,
{
    if options.len() == 1 {
        assert(options =~= seq![options[0]]);
        if options[0].len() == 0 {
            assert(options[0] =~= Seq::<char>::empty());
        }
    }
}

/// A wrapped command reads from its environment exactly the connection that the sandbox was
/// started for. The options go through one variable, one to a line, so none of them may hold a
/// line break, and they may not be a single empty one.
pub proof fn wrapped_commands_know_the_connection(
    config: &TeleportConfig,
    profile: &RemoteProfile,
    quoted: Seq<Seq<char>>,
)
    requires
        forall|i: int|
            0 <= i < config.ssh_options@.len() ==> !(#[trigger] config.ssh_options@[i])@.contains(
                '\n',
            ),
        text::views(config.ssh_options@) != seq![Seq::<char>::empty()],
    ensures
        wrapper::loaded(wrapper::vars_of(wrapper_vars(config, profile, quoted))) == Ok::<
            _,
            ErrorView,
        >(sandbox_env(config, profile)),
{
    let values = wrapper_values(config, profile);
    let vars = wrapper_vars(config, profile, quoted);
    assert forall|i: int| 0 <= i < values.len() implies wrapper::value_bytes(
        #[trigger] vars[i],
    ) == Some(encode_utf8(values[i])) && wrapper::var_text(wrapper::value_bytes(vars[i])) == Some(
        values[i],
    ) by {
        os_text::lemma_text_shown(values[i]);
    }
    let view = wrapper::vars_of(vars);
    assert(view.remote_destination == vars[0]);
    assert(view.remote_port == vars[1]);
    assert(view.remote_cwd == vars[2]);
    assert(view.remote_home == vars[3]);
    assert(view.remote_shell == vars[4]);
    assert(view.remote_path == vars[5]);
    assert(view.identity_file == vars[6]);
    assert(view.known_hosts == vars[7]);
    assert(view.host_ssh == vars[8]);
    assert(view.ssh_control_path == vars[9]);
    assert(view.batch_mode == vars[10]);
    assert(view.ssh_options == vars[11]);
    assert(view.shared_dir == vars[12]);
    reveal_strlit("");
    reveal_strlit("0");
    reveal_strlit("1");
    reveal_strlit("\n");
    reveal_strlit("/shared");
    reveal_strlit("/codex/ssh/id_ed25519");
    reveal_strlit("/codex/ssh-control/control.sock");
    if let Some(port) = config.port {
        decimal::decimal_reads_back(port);
    }
    assert("0"@[0] != "1"@[0]);
    assert("\n"@ =~= seq!['\n']);
    let options = text::views(config.ssh_options@);
    if options.len() > 0 {
        lemma_joined_options(options);
        assert forall|i: int| 0 <= i < options.len() implies !(#[trigger] options[i]).contains(
            '\n',
        ) by {
            assert(options[i] == config.ssh_options@[i]@);
        }
        text::split_undoes_join(options, '\n');
    } else {
        assert(options =~= seq![]);
    }
    assert(wrapper::options_var(view.ssh_options) == options);
    assert(wrapper::port_var(view.remote_port) == Ok::<_, ErrorView>(config.port));
    assert(wrapper::loaded(view)->Ok_0 =~= sandbox_env(config, profile));
}

/// Each variable is set to its value, in the order of the names.
pub proof fn every_variable_is_set(names: Seq<&'static str>, values: Seq<Seq<char>>, i: int)
    requires
        0 <= i < names.len(),
        names.len() <= values.len(),
    ensures
        set_all_args(names, values).len() == 3 * names.len(),
        set_all_args(names, values).subrange(3 * i, 3 * i + 3) == set_args(names[i], values[i]),
    decreases names.len(),
{
    let all = set_all_args(names, values);
    let init = names.drop_last();
    if init.len() > 0 {
        every_variable_is_set(
            init,
            values,
            if i < init.len() {
                i
            } else {
                0
            },
        );
    }
    assert(set_all_args(init, values).len() == 3 * init.len());
    if i < init.len() {
        assert(all.subrange(3 * i, 3 * i + 3) =~= set_all_args(init, values).subrange(
            3 * i,
            3 * i + 3,
        ));
    } else {
        assert(all.subrange(3 * i, 3 * i + 3) =~= set_args(names[i], values[i]));
    }
}

/// The search path of the sandbox: the wrapped commands, then the directories of the remote
/// search path.
pub proof fn wrapped_commands_come_first(output: Seq<char>)
    ensures
        text::split("/codex/wrappers:"@ + text::join(probe::path_dirs(output), ":"@), ':') == seq![
            "/codex/wrappers"@,
        ] + probe::path_dirs(output),
{
    let dirs = probe::path_dirs(output);
    let all = seq!["/codex/wrappers"@] + dirs;
    reveal_strlit("/codex/wrappers:");
    reveal_strlit("/codex/wrappers");
    reveal_strlit(":");
    assert(":"@ =~= seq![':']);
    probe::search_paths_join_again(output);
    probe::search_paths_are_never_empty(output);
    text::lemma_join_front("/codex/wrappers"@, dirs, seq![':']);
    assert("/codex/wrappers:"@ =~= "/codex/wrappers"@ + seq![':']);
    assert forall|i: int| 0 <= i < all.len() implies !(#[trigger] all[i]).contains(':') by {
        if i > 0 {
            assert(all[i] == dirs[i - 1]);
        }
    }
    text::split_undoes_join(all, ':');
}

proof fn lemma_overlay_mounted(
    root: Seq<u8>,
    targets: Seq<Seq<char>>,
    present: Set<Seq<u8>>,
    target: Seq<char>,
) -> (k: int)
    requires
        targets.contains(target),
        present.contains(sandbox::overlay_source(root, target)),
    ensures
        0 <= k,
        k + 3 <= overlay_args(root, targets, present).len(),
        overlay_args(root, targets, present).subrange(k, k + 3) == seq![
            os_text::bytes_of("--ro-bind"),
            sandbox::overlay_source(root, target),
            encode_utf8(target),
        ],
    decreases targets.len(),
{
    let all = overlay_args(root, targets, present);
    let front = overlay_args(root, targets.drop_last(), present);
    let source = sandbox::overlay_source(root, target);
    let mount = seq![os_text::bytes_of("--ro-bind"), source, encode_utf8(target)];
    if targets.last() == target {
        let dirs = util::dir_args(path::components_of(encode_utf8(target)));
        let k = (front.len() + dirs.len()) as int;
        assert(all =~= front + (dirs + mount));
        assert(all.subrange(k, k + 3) =~= mount);
        k
    } else {
        let i = choose|i: int| 0 <= i < targets.len() && targets[i] == target;
        assert(targets.drop_last()[i] == target);
        let k = lemma_overlay_mounted(root, targets.drop_last(), present, target);
        assert(all.subrange(k, k + 3) =~= front.subrange(k, k + 3));
        k
    }
}

/// A directory with replaced programs hides what the local host has at its place: it is mounted
/// there, and behind every mount of the local system and of the remote host.
pub proof fn replaced_directories_are_mounted_last(
    config: &TeleportConfig,
    layout: &RuntimeLayout,
    profile: &RemoteProfile,
    present: Set<Seq<u8>>,
    ssh_binary: Seq<u8>,
    target: Seq<char>,
)
    requires
        replaced_targets(config, profile).contains(target),
        present.contains(sandbox::overlay_source(layout.exec_overlay_root@, target)),
    ensures
        ({
            let args = view_args(config, layout, profile, present, ssh_binary);
            let overlays = overlay_args(
                layout.exec_overlay_root@,
                replaced_targets(config, profile),
                present,
            );
            exists|k: int|
                args.len() - overlays.len() <= k <= args.len() - 3 && #[trigger] args.subrange(
                    k,
                    k + 3,
                ) == seq![
                    os_text::bytes_of("--ro-bind"),
                    sandbox::overlay_source(layout.exec_overlay_root@, target),
                    encode_utf8(target),
                ]
        }),
{
    let args = view_args(config, layout, profile, present, ssh_binary);
    let targets = replaced_targets(config, profile);
    let overlays = overlay_args(layout.exec_overlay_root@, targets, present);
    let k = lemma_overlay_mounted(layout.exec_overlay_root@, targets, present, target);
    let front = local_args(config, layout, present, ssh_binary) + hidden_args(
        layout,
        remote_targets(config, profile),
        targets,
        text::views(profile.remote_path@),
        present,
    ) + remote_args(layout.remote_root_mount@, remote_targets(config, profile), present);
    lemma_stretch(front, overlays, Seq::empty(), k, 3);
    assert(args =~= front + overlays + Seq::<Seq<u8>>::empty());
    let m = front.len() + k;
    assert(args.subrange(m, m + 3) == overlays.subrange(k, k + 3));
}

proof fn lemma_remote_mounted(
    mount: Seq<u8>,
    targets: Seq<Seq<char>>,
    present: Set<Seq<u8>>,
    target: Seq<char>,
) -> (k: int)
    requires
        targets.contains(target),
        present.contains(sandbox::remote_source(mount, target)),
    ensures
        0 <= k,
        k + 3 <= remote_args(mount, targets, present).len(),
        remote_args(mount, targets, present).subrange(k, k + 3) == seq![
            os_text::bytes_of("--bind"),
            sandbox::remote_source(mount, target),
            encode_utf8(target),
        ],
    decreases targets.len(),
{
    let all = remote_args(mount, targets, present);
    let front = remote_args(mount, targets.drop_last(), present);
    let source = sandbox::remote_source(mount, target);
    let bind = seq![os_text::bytes_of("--bind"), source, encode_utf8(target)];
    if targets.last() == target {
        let dirs = util::dir_args(path::components_of(encode_utf8(target)));
        let k = (front.len() + dirs.len()) as int;
        assert(all =~= front + (dirs + bind));
        assert(all.subrange(k, k + 3) =~= bind);
        k
    } else {
        let i = choose|i: int| 0 <= i < targets.len() && targets[i] == target;
        assert(targets.drop_last()[i] == target);
        let k = lemma_remote_mounted(mount, targets.drop_last(), present, target);
        assert(all.subrange(k, k + 3) =~= front.subrange(k, k + 3));
        k
    }
}

proof fn lemma_hidden(
    layout: &RuntimeLayout,
    targets: Seq<Seq<char>>,
    overlays: Seq<Seq<char>>,
    dirs: Seq<Seq<char>>,
    present: Set<Seq<u8>>,
    dir: Seq<char>,
) -> (k: int)
    requires
        dirs.contains(dir),
        is_local(dir),
        present.contains(encode_utf8(dir)),
        !is_remote(layout.remote_root_mount@, targets, dir, present),
        !is_replaced(layout.exec_overlay_root@, overlays, dir, present),
    ensures
        0 <= k,
        k + 2 <= hidden_args(layout, targets, overlays, dirs, present).len(),
        hidden_args(layout, targets, overlays, dirs, present).subrange(k, k + 2) == seq![
            os_text::bytes_of("--tmpfs"),
            encode_utf8(dir),
        ],
    decreases dirs.len(),
{
    let all = hidden_args(layout, targets, overlays, dirs, present);
    let front = hidden_args(layout, targets, overlays, dirs.drop_last(), present);
    if dirs.last() == dir {
        let k = front.len() as int;
        assert(all.subrange(k, k + 2) =~= seq![os_text::bytes_of("--tmpfs"), encode_utf8(dir)]);
        k
    } else {
        let i = choose|i: int| 0 <= i < dirs.len() && dirs[i] == dir;
        assert(dirs.drop_last()[i] == dir);
        let k = lemma_hidden(layout, targets, overlays, dirs.drop_last(), present, dir);
        assert(all.subrange(k, k + 2) =~= front.subrange(k, k + 2));
        k
    }
}

/// A directory under one of the local system, as texts go, is one that the sandbox has from there.
pub proof fn directories_of_the_system_are_local(dir: Seq<char>, i: int)
    requires
        0 <= i < SYSTEM_DIRS@.len(),
        util::under(dir, SYSTEM_DIRS@[i]@),
    ensures
        is_local(dir),
{
    let system = SYSTEM_DIRS@[i]@;
    let base = encode_utf8(system);
    reveal_strlit("/usr");
    reveal_strlit("/bin");
    reveal_strlit("/sbin");
    reveal_strlit("/lib");
    reveal_strlit("/lib64");
    reveal_strlit("/etc");
    assert(system.len() > 0);
    if dir == system {
        let parts = path::components_of(base);
        assert(parts.subrange(0, parts.len() as int) =~= parts);
    } else {
        let front = system.push('/');
        let rest = dir.skip(front.len() as int);
        assert(dir.subrange(0, front.len() as int) =~= front);
        assert(dir =~= front + rest);
        assert(front =~= system + seq!['/']);
        os_text::lemma_encoded_add(front, rest);
        os_text::lemma_encoded_add(system, seq!['/']);
        vstd::utf8::is_ascii_chars_encode_utf8(seq!['/']);
        assert(encode_utf8(seq!['/']) =~= seq![path::SLASH]);
        assert(base + seq![path::SLASH] =~= base.push(path::SLASH));
        assert(base.len() > 0) by {
            if base.len() == 0 {
                vstd::utf8::encode_utf8_decode_utf8(system);
                vstd::utf8::encode_utf8_decode_utf8(seq![]);
                assert(base =~= encode_utf8(seq![]));
            }
        }
        path::going_on_stays_within(base, encode_utf8(rest));
    }
    assert(path::within(encode_utf8(dir), os_text::bytes_of(SYSTEM_DIRS@[i])));
}

/// Whether arguments, from the one at `k` on, put something else in the place of a directory of
/// the local system: an empty directory, links to the tool for the remote programs there, or the
/// directory of the remote host at it or above it.
pub open spec fn takes_the_place(
    args: Seq<Seq<u8>>,
    k: int,
    layout: &RuntimeLayout,
    dir: Seq<char>,
) -> bool {
    ||| k + 2 <= args.len() && args.subrange(k, k + 2) == seq![
        os_text::bytes_of("--tmpfs"),
        encode_utf8(dir),
    ]
    ||| k + 3 <= args.len() && args.subrange(k, k + 3) == seq![
        os_text::bytes_of("--ro-bind"),
        sandbox::overlay_source(layout.exec_overlay_root@, dir),
        encode_utf8(dir),
    ]
    ||| k + 3 <= args.len() && !goes_up(dir) && exists|target: Seq<char>| #[trigger]
        util::under(dir, target) && args.subrange(k, k + 3) == seq![
            os_text::bytes_of("--bind"),
            sandbox::remote_source(layout.remote_root_mount@, target),
            encode_utf8(target),
        ]
}

/// A stretch of one list is a stretch of the whole that the list is a part of.
proof fn lemma_stretch(front: Seq<Seq<u8>>, part: Seq<Seq<u8>>, back: Seq<Seq<u8>>, k: int, n: int)
    requires
        0 <= k,
        0 <= n,
        k + n <= part.len(),
    ensures
        front.len() + k + n <= (front + part + back).len(),
        (front + part + back).subrange(front.len() + k, front.len() + k + n) == part.subrange(
            k,
            k + n,
        ),
{
    assert((front + part + back).subrange(front.len() + k, front.len() + k + n) =~= part.subrange(
        k,
        k + n,
    ));
}

/// Behind whatever is mounted first, something takes the place of a local directory that is
/// searched.
proof fn lemma_denied(
    local: Seq<Seq<u8>>,
    layout: &RuntimeLayout,
    targets: Seq<Seq<char>>,
    overlays: Seq<Seq<char>>,
    dirs: Seq<Seq<char>>,
    present: Set<Seq<u8>>,
    dir: Seq<char>,
) -> (k: int)
    requires
        dirs.contains(dir),
        is_local(dir),
        present.contains(encode_utf8(dir)),
    ensures
        local.len() <= k,
        takes_the_place(
            local + hidden_args(layout, targets, overlays, dirs, present) + remote_args(
                layout.remote_root_mount@,
                targets,
                present,
            ) + overlay_args(layout.exec_overlay_root@, overlays, present),
            k,
            layout,
            dir,
        ),
{
    let mount = layout.remote_root_mount@;
    let root = layout.exec_overlay_root@;
    let hidden = hidden_args(layout, targets, overlays, dirs, present);
    let remote = remote_args(mount, targets, present);
    let overlay = overlay_args(root, overlays, present);
    let args = local + hidden + remote + overlay;
    let none = Seq::<Seq<u8>>::empty();
    if is_replaced(root, overlays, dir, present) {
        let k = lemma_overlay_mounted(root, overlays, present, dir);
        assert(args =~= (local + hidden + remote) + overlay + none);
        lemma_stretch(local + hidden + remote, overlay, none, k, 3);
        local.len() + hidden.len() + remote.len() + k
    } else if is_remote(mount, targets, dir, present) {
        let i = choose|i: int|
            0 <= i < targets.len() && util::under(dir, #[trigger] targets[i]) && present.contains(
                sandbox::remote_source(mount, targets[i]),
            );
        let k = lemma_remote_mounted(mount, targets, present, targets[i]);
        lemma_stretch(local + hidden, remote, overlay, k, 3);
        assert(util::under(dir, targets[i]));
        local.len() + hidden.len() + k
    } else {
        let k = lemma_hidden(layout, targets, overlays, dirs, present, dir);
        assert(args =~= local + hidden + (remote + overlay));
        lemma_stretch(local, hidden, remote + overlay, k, 2);
        local.len() + k
    }
}

/// Local programs are denied: each directory of the remote search path that the local system has
/// is taken the place of, behind everything that is mounted from the local host. So no program of
/// the local host is found there, also where the remote host has no program at all.
pub proof fn local_programs_are_denied(
    config: &TeleportConfig,
    layout: &RuntimeLayout,
    profile: &RemoteProfile,
    present: Set<Seq<u8>>,
    ssh_binary: Seq<u8>,
    dir: Seq<char>,
)
    requires
        text::views(profile.remote_path@).contains(dir),
        is_local(dir),
        present.contains(encode_utf8(dir)),
    ensures
        exists|k: int|
            local_args(config, layout, present, ssh_binary).len() <= k && #[trigger]
            takes_the_place(
                view_args(config, layout, profile, present, ssh_binary),
                k,
                layout,
                dir,
            ),
{
    let k = lemma_denied(
        local_args(config, layout, present, ssh_binary),
        layout,
        remote_targets(config, profile),
        replaced_targets(config, profile),
        text::views(profile.remote_path@),
        present,
        dir,
    );
    assert(takes_the_place(
        view_args(config, layout, profile, present, ssh_binary),
        k,
        layout,
        dir,
    ));
}

proof fn lemma_launch_last(before: Seq<Seq<u8>>, launch: &LaunchSpec)
    ensures
        ({
            let all = before + launch_args(launch);
            match *launch {
                LaunchSpec::Arbitrary { program, args, .. } => {
                    let n = all.len() - args@.len();
                    &&& n >= 2
                    &&& all[n - 2] == encode_utf8("--"@)
                    &&& all[n - 1] == encode_utf8(program@)
                    &&& forall|i: int|
                        0 <= i < args@.len() ==> all[n + i] == encode_utf8((#[trigger] args@[i])@)
                },
                LaunchSpec::Codex { codex_args, .. } => {
                    let n = all.len() - codex_args@.len();
                    &&& n >= 3
                    &&& all[n - 3] == encode_utf8("--"@)
                    &&& all[n - 2] == encode_utf8("/codex/bin/node"@)
                    &&& all[n - 1] == encode_utf8("/codex/npm/codex/bin/codex.js"@)
                    &&& forall|i: int|
                        0 <= i < codex_args@.len() ==> all[n + i] == encode_utf8(
                            (#[trigger] codex_args@[i])@,
                        )
                },
            }
        }),
{
    let all = before + launch_args(launch);
    match *launch {
        LaunchSpec::Arbitrary { program, args, .. } => {
            let list = os_text::encoded(text::views(args@));
            let n = all.len() - args@.len();
            assert forall|i: int| 0 <= i < args@.len() implies all[n + i] == encode_utf8(
                (#[trigger] args@[i])@,
            ) by {
                assert(all[n + i] == list[i]);
            }
        },
        LaunchSpec::Codex { codex_args, .. } => {
            let list = os_text::encoded(text::views(codex_args@));
            let n = all.len() - codex_args@.len();
            assert forall|i: int| 0 <= i < codex_args@.len() implies all[n + i] == encode_utf8(
                (#[trigger] codex_args@[i])@,
            ) by {
                assert(all[n + i] == list[i]);
            }
        },
    }
}

/// What is run comes last, behind `--`: the program, or Codex in its runtime, and then every
/// argument that was given, in order.
#[verifier::spinoff_prover]
#[verifier::rlimit(60)]
pub proof fn programs_are_run_as_given(
    config: &TeleportConfig,
    layout: &RuntimeLayout,
    profile: &RemoteProfile,
    launch: &LaunchSpec,
    present: Set<Seq<u8>>,
    ssh_binary: Seq<u8>,
    term: Option<Seq<u8>>,
    i: int,
)
    ensures
        ({
            let all = bwrap_args(config, layout, profile, launch, present, ssh_binary, term);
            match *launch {
                LaunchSpec::Arbitrary { program, args, .. } => {
                    let n = all.len() - args@.len();
                    &&& n >= 2
                    &&& all[n - 2] == encode_utf8("--"@)
                    &&& all[n - 1] == encode_utf8(program@)
                    &&& 0 <= i < args@.len() ==> all[n + i] == encode_utf8(args@[i]@)
                },
                LaunchSpec::Codex { codex_args, .. } => {
                    let n = all.len() - codex_args@.len();
                    &&& n >= 3
                    &&& all[n - 3] == encode_utf8("--"@)
                    &&& all[n - 2] == encode_utf8("/codex/bin/node"@)
                    &&& all[n - 1] == encode_utf8("/codex/npm/codex/bin/codex.js"@)
                    &&& 0 <= i < codex_args@.len() ==> all[n + i] == encode_utf8(codex_args@[i]@)
                },
            }
        }),
{
    let before = view_args(config, layout, profile, present, ssh_binary) + own_env_args(
        profile,
        term,
    ) + set_all_args(wrapper::WRAPPER_VARIABLES@, wrapper_values(config, profile)) + start_args(
        config.remote_cwd@,
    );
    lemma_launch_last(before, launch);
}

/// What is run brings its own files: the program that applies patches, where there is one, and
/// Codex with its runtime. Nothing else stands before it.
pub proof fn programs_bring_their_files(launch: &LaunchSpec)
    ensures
        ({
            let all = launch_args(launch);
            let patch = match *launch {
                LaunchSpec::Arbitrary { apply_patch_binary, .. } => apply_patch_binary,
                LaunchSpec::Codex { apply_patch_binary, .. } => apply_patch_binary,
            };
            let end = match *launch {
                LaunchSpec::Arbitrary { args, .. } => all.len() - args@.len() - 2,
                LaunchSpec::Codex { codex_args, .. } => all.len() - codex_args@.len() - 3,
            };
            let bin = util::parent_dir_args(encode_utf8("/codex/bin/apply_patch"@));
            let start = if patch is Some {
                end - 3 - bin.len()
            } else {
                end
            };
            &&& 0 <= start <= end <= all.len()
            &&& patch matches Some(binary) ==> {
                &&& all.subrange(end - 3, end) == seq![
                    encode_utf8("--ro-bind"@),
                    binary@,
                    encode_utf8("/codex/bin/apply_patch"@),
                ]
                &&& all.subrange(start, end - 3) == bin
            }
            &&& *launch is Arbitrary ==> start == 0
            &&& launch matches LaunchSpec::Codex { codex_package_root, node_binary, .. } ==> {
                let npm = util::dir_args(path::components_of(encode_utf8("/codex/npm/codex"@)));
                let node = util::parent_dir_args(encode_utf8("/codex/bin/node"@));
                let n = npm.len() as int;
                let m = n + 3 + node.len();
                &&& start == m + 3
                &&& all.subrange(0, n) == npm
                &&& all.subrange(n, n + 3) == seq![
                    encode_utf8("--ro-bind"@),
                    codex_package_root@,
                    encode_utf8("/codex/npm/codex"@),
                ]
                &&& all.subrange(n + 3, m) == node
                &&& all.subrange(m, m + 3) == seq![
                    encode_utf8("--ro-bind"@),
                    node_binary@,
                    encode_utf8("/codex/bin/node"@),
                ]
            }
        }),
{
    let all = launch_args(launch);
    let bin = util::parent_dir_args(encode_utf8("/codex/bin/apply_patch"@));
    match *launch {
        LaunchSpec::Arbitrary { args, apply_patch_binary, .. } => {
            let end = all.len() - args@.len() - 2;
            if let Some(binary) = apply_patch_binary {
                assert(all.subrange(end - 3, end) =~= seq![
                    encode_utf8("--ro-bind"@),
                    binary@,
                    encode_utf8("/codex/bin/apply_patch"@),
                ]);
                assert(all.subrange(0, end - 3) =~= bin);
            }
        },
        LaunchSpec::Codex { codex_package_root, node_binary, apply_patch_binary, codex_args } => {
            let npm = util::dir_args(path::components_of(encode_utf8("/codex/npm/codex"@)));
            let node = util::parent_dir_args(encode_utf8("/codex/bin/node"@));
            let n = npm.len() as int;
            let m = n + 3 + node.len();
            let end = all.len() - codex_args@.len() - 3;
            assert(all.subrange(0, n) =~= npm);
            assert(all.subrange(n, n + 3) =~= seq![
                encode_utf8("--ro-bind"@),
                codex_package_root@,
                encode_utf8("/codex/npm/codex"@),
            ]);
            assert(all.subrange(n + 3, m) =~= node);
            assert(all.subrange(m, m + 3) =~= seq![
                encode_utf8("--ro-bind"@),
                node_binary@,
                encode_utf8("/codex/bin/node"@),
            ]);
            if let Some(binary) = apply_patch_binary {
                assert(all.subrange(end - 3, end) =~= seq![
                    encode_utf8("--ro-bind"@),
                    binary@,
                    encode_utf8("/codex/bin/apply_patch"@),
                ]);
                assert(all.subrange(m + 3, end - 3) =~= bin);
            }
        },
    }
}

/// The variables that the sandbox itself sets: those of wrapped commands on the search path, its own
/// home, a wrapped shell, the kind of terminal, and where temporary files go.
pub proof fn the_sandbox_has_its_own_variables(profile: &RemoteProfile, term: Option<Seq<u8>>)
    ensures
        ({
            let own = own_env_args(profile, term);
            let set = encode_utf8("--setenv"@);
            &&& own.len() == 15
            &&& own.subrange(0, 3) == seq![
                set,
                encode_utf8("PATH"@),
                encode_utf8("/codex/wrappers:"@ + text::join(text::views(profile.remote_path@), ":"@)),
            ]
            &&& own.subrange(3, 6) == seq![set, encode_utf8("HOME"@), encode_utf8("/codex/home"@)]
            &&& own.subrange(6, 9) == seq![
                set,
                encode_utf8("SHELL"@),
                encode_utf8("/codex/wrappers/"@ + profile.shell_name@),
            ]
            &&& own.subrange(9, 11) == seq![set, encode_utf8("TERM"@)]
            &&& term is None ==> own[11] == encode_utf8("xterm-256color"@)
            &&& forall|kind: Seq<char>|
                term == Some(#[trigger] encode_utf8(kind)) ==> own[11] == encode_utf8(kind)
            &&& own.subrange(12, 15) == seq![set, encode_utf8("TMPDIR"@), encode_utf8("/tmp"@)]
        }),
{
    let own = own_env_args(profile, term);
    let path_value = "/codex/wrappers:"@ + text::join(text::views(profile.remote_path@), ":"@);
    assert(own.subrange(0, 3) =~= set_args("PATH", path_value));
    assert(own.subrange(3, 6) =~= set_args("HOME", "/codex/home"@));
    assert(own.subrange(6, 9) =~= set_args("SHELL", "/codex/wrappers/"@ + profile.shell_name@));
    assert(own.subrange(9, 11) =~= seq![encode_utf8("--setenv"@), encode_utf8("TERM"@)]);
    assert(own[11] == encode_utf8(terminal(term)));
    assert(own.subrange(12, 15) =~= set_args("TMPDIR", "/tmp"@));
    assert forall|kind: Seq<char>| term == Some(#[trigger] encode_utf8(kind)) implies own[11]
        == encode_utf8(kind) by {
        os_text::lemma_text_shown(kind);
    }
}

/// Wrapped commands are told each thing of the connection in a variable of its own.
pub proof fn every_thing_is_told(config: &TeleportConfig, profile: &RemoteProfile, i: int)
    requires
        0 <= i < 13,
    ensures
        ({
            let told = set_all_args(wrapper::WRAPPER_VARIABLES@, wrapper_values(config, profile));
            let names = seq![
                "TELEPORT_REMOTE_DESTINATION"@,
                "TELEPORT_REMOTE_PORT"@,
                "TELEPORT_REMOTE_CWD"@,
                "TELEPORT_REMOTE_HOME"@,
                "TELEPORT_REMOTE_SHELL"@,
                "TELEPORT_REMOTE_PATH"@,
                "TELEPORT_IDENTITY_FILE"@,
                "TELEPORT_KNOWN_HOSTS"@,
                "TELEPORT_HOST_SSH"@,
                "TELEPORT_SSH_CONTROL_PATH"@,
                "TELEPORT_BATCH_MODE"@,
                "TELEPORT_SSH_OPTIONS"@,
                "TELEPORT_SHARED_DIR"@,
            ];
            &&& told.len() == 39
            &&& told.subrange(3 * i, 3 * i + 3) == seq![
                encode_utf8("--setenv"@),
                encode_utf8(names[i]),
                encode_utf8(wrapper_values(config, profile)[i]),
            ]
        }),
{
    every_variable_is_set(wrapper::WRAPPER_VARIABLES@, wrapper_values(config, profile), i);
}

/// Behind what the sandbox shows stand its own variables, those that wrapped commands read, the
/// directory to start in, and what is run, and nothing else.
#[verifier::spinoff_prover]
#[verifier::rlimit(60)]
pub proof fn environments_come_behind_the_view(
    config: &TeleportConfig,
    layout: &RuntimeLayout,
    profile: &RemoteProfile,
    launch: &LaunchSpec,
    present: Set<Seq<u8>>,
    ssh_binary: Seq<u8>,
    term: Option<Seq<u8>>,
)
    ensures
        ({
            let view = view_args(config, layout, profile, present, ssh_binary);
            let all = bwrap_args(config, layout, profile, launch, present, ssh_binary, term);
            let n = view.len() as int;
            let dirs = util::dir_args(path::components_of(encode_utf8(config.remote_cwd@)));
            let m = n + 54 + dirs.len();
            &&& all.len() == m + 2 + launch_args(launch).len()
            &&& all.take(n) == view
            &&& all.subrange(n, n + 15) == own_env_args(profile, term)
            &&& all.subrange(n + 15, n + 54) == set_all_args(
                wrapper::WRAPPER_VARIABLES@,
                wrapper_values(config, profile),
            )
            &&& all.subrange(n + 54, m) == dirs
            &&& all[m] == encode_utf8("--chdir"@)
            &&& all[m + 1] == encode_utf8(config.remote_cwd@)
            &&& all.skip(m + 2) == launch_args(launch)
        }),
{
    let start = start_args(config.remote_cwd@);
    the_sandbox_has_its_own_variables(profile, term);
    every_thing_is_told(config, profile, 0);
    lemma_pieces(
        view_args(config, layout, profile, present, ssh_binary),
        own_env_args(profile, term),
        set_all_args(wrapper::WRAPPER_VARIABLES@, wrapper_values(config, profile)),
        start,
        launch_args(launch),
    );
    lemma_start(config.remote_cwd@);
}

proof fn lemma_start(dir: Seq<char>)
    ensures
        ({
            let start = start_args(dir);
            let dirs = util::dir_args(path::components_of(encode_utf8(dir)));
            &&& start.len() == dirs.len() + 2
            &&& start.take(dirs.len() as int) == dirs
            &&& start[dirs.len() as int] == encode_utf8("--chdir"@)
            &&& start[dirs.len() as int + 1] == encode_utf8(dir)
        }),
{
    let dirs = util::dir_args(path::components_of(encode_utf8(dir)));
    assert(start_args(dir).take(dirs.len() as int) =~= dirs);
}

/// Where the parts of a command of five parts stand, if the second has fifteen arguments and the
/// third thirty-nine.
proof fn lemma_pieces(
    a: Seq<Seq<u8>>,
    b: Seq<Seq<u8>>,
    c: Seq<Seq<u8>>,
    d: Seq<Seq<u8>>,
    e: Seq<Seq<u8>>,
)
    requires
        b.len() == 15,
        c.len() == 39,
        d.len() >= 2,
    ensures
        ({
            let all = a + b + c + d + e;
            let n = a.len() as int;
            let m = n + 54 + d.len() - 2;
            &&& all.len() == m + 2 + e.len()
            &&& all.take(n) == a
            &&& all.subrange(n, n + 15) == b
            &&& all.subrange(n + 15, n + 54) == c
            &&& all.subrange(n + 54, m) == d.take(d.len() - 2)
            &&& all[m] == d[d.len() - 2]
            &&& all[m + 1] == d[d.len() - 1]
            &&& all.skip(m + 2) == e
        }),
{
    let all = a + b + c + d + e;
    let n = a.len() as int;
    let m = n + 54 + d.len() - 2;
    assert(all.take(n) =~= a);
    assert(all.subrange(n, n + 15) =~= b);
    assert(all.subrange(n + 15, n + 54) =~= c);
    assert(all.subrange(n + 54, m) =~= d.take(d.len() - 2));
    assert(all.skip(m + 2) =~= e);
}

/// The directories of the remote host are mounted one by one: for two lists the arguments are those
/// for the first and then those for the second, and one directory is created and mounted where its
/// source is there, and not otherwise.
pub proof fn remote_directories_are_mounted_one_by_one(
    mount: Seq<u8>,
    a: Seq<Seq<char>>,
    b: Seq<Seq<char>>,
    target: Seq<char>,
    present: Set<Seq<u8>>,
)
    ensures
        remote_args(mount, a + b, present) == remote_args(mount, a, present) + remote_args(
            mount,
            b,
            present,
        ),
        remote_args(mount, seq![target], present) == (if present.contains(
            sandbox::remote_source(mount, target),
        ) {
            util::dir_args(path::components_of(encode_utf8(target))) + seq![
                encode_utf8("--bind"@),
                sandbox::remote_source(mount, target),
                encode_utf8(target),
            ]
        } else {
            seq![]
        }),
        remote_args(mount, seq![], present) == Seq::<Seq<u8>>::empty(),
    decreases b.len(),
{
    let none = Seq::<Seq<char>>::empty();
    assert(remote_args(mount, none, present) =~= seq![]);
    assert(seq![target].drop_last() =~= none);
    assert(remote_args(mount, seq![target], present) =~= present_args(
        "--bind",
        sandbox::remote_source(mount, target),
        target,
        present,
    ));
    if b.len() == 0 {
        assert(a + b =~= a);
        assert(remote_args(mount, a, present) + remote_args(mount, b, present) =~= remote_args(
            mount,
            a,
            present,
        ));
    } else {
        remote_directories_are_mounted_one_by_one(mount, a, b.drop_last(), target, present);
        assert((a + b).drop_last() =~= a + b.drop_last());
        assert(remote_args(mount, a + b, present) =~= remote_args(mount, a, present) + remote_args(
            mount,
            b,
            present,
        ));
    }
}

/// The directories with replaced programs are mounted one by one, read-only, each where it was laid
/// out, and not otherwise.
pub proof fn replaced_directories_are_mounted_one_by_one(
    root: Seq<u8>,
    a: Seq<Seq<char>>,
    b: Seq<Seq<char>>,
    target: Seq<char>,
    present: Set<Seq<u8>>,
)
    ensures
        overlay_args(root, a + b, present) == overlay_args(root, a, present) + overlay_args(
            root,
            b,
            present,
        ),
        overlay_args(root, seq![target], present) == (if present.contains(
            sandbox::overlay_source(root, target),
        ) {
            util::dir_args(path::components_of(encode_utf8(target))) + seq![
                encode_utf8("--ro-bind"@),
                sandbox::overlay_source(root, target),
                encode_utf8(target),
            ]
        } else {
            seq![]
        }),
        overlay_args(root, seq![], present) == Seq::<Seq<u8>>::empty(),
    decreases b.len(),
{
    let none = Seq::<Seq<char>>::empty();
    assert(overlay_args(root, none, present) =~= seq![]);
    assert(seq![target].drop_last() =~= none);
    assert(overlay_args(root, seq![target], present) =~= present_args(
        "--ro-bind",
        sandbox::overlay_source(root, target),
        target,
        present,
    ));
    if b.len() == 0 {
        assert(a + b =~= a);
        assert(overlay_args(root, a, present) + overlay_args(root, b, present) =~= overlay_args(
            root,
            a,
            present,
        ));
    } else {
        replaced_directories_are_mounted_one_by_one(root, a, b.drop_last(), target, present);
        assert((a + b).drop_last() =~= a + b.drop_last());
        assert(overlay_args(root, a + b, present) =~= overlay_args(root, a, present) + overlay_args(
            root,
            b,
            present,
        ));
    }
}

/// Local directories are hidden one by one: one that is there is hidden unless it is none of the
/// local system, or the remote host or replaced programs take its place.
pub proof fn local_directories_are_hidden_one_by_one(
    layout: &RuntimeLayout,
    targets: Seq<Seq<char>>,
    overlays: Seq<Seq<char>>,
    a: Seq<Seq<char>>,
    b: Seq<Seq<char>>,
    dir: Seq<char>,
    present: Set<Seq<u8>>,
)
    ensures
        hidden_args(layout, targets, overlays, a + b, present) == hidden_args(
            layout,
            targets,
            overlays,
            a,
            present,
        ) + hidden_args(layout, targets, overlays, b, present),
        hidden_args(layout, targets, overlays, seq![], present) == Seq::<Seq<u8>>::empty(),
        ({
            let hidden = hidden_args(layout, targets, overlays, seq![dir], present);
            let remote = exists|target: Seq<char>| #[trigger]
                targets.contains(target) && util::under(dir, target) && present.contains(
                    sandbox::remote_source(layout.remote_root_mount@, target),
                );
            let replaced = overlays.contains(dir) && present.contains(
                sandbox::overlay_source(layout.exec_overlay_root@, dir),
            );
            let stays = replaced || (remote && !path::components_of(encode_utf8(dir)).contains(
                seq![46u8, 46u8],
            ));
            &&& is_local(dir) && present.contains(encode_utf8(dir)) && !stays ==> hidden == seq![
                encode_utf8("--tmpfs"@),
                encode_utf8(dir),
            ]
            &&& !is_local(dir) || !present.contains(encode_utf8(dir)) || stays ==> hidden
                == Seq::<Seq<u8>>::empty()
        }),
    decreases b.len(),
{
    let none = Seq::<Seq<char>>::empty();
    assert(hidden_args(layout, targets, overlays, none, present) =~= seq![]);
    assert(seq![dir].drop_last() =~= none);
    assert(hidden_args(layout, targets, overlays, seq![dir], present) =~= hidden_dir_args(
        layout,
        targets,
        overlays,
        dir,
        present,
    ));
    let mount = layout.remote_root_mount@;
    assert(path::above() =~= seq![46u8, 46u8]);
    let remote = exists|target: Seq<char>| #[trigger]
        targets.contains(target) && util::under(dir, target) && present.contains(
            sandbox::remote_source(mount, target),
        );
    if remote {
        let target = choose|target: Seq<char>| #[trigger]
            targets.contains(target) && util::under(dir, target) && present.contains(
                sandbox::remote_source(mount, target),
            );
        let i = choose|i: int| 0 <= i < targets.len() && targets[i] == target;
        assert(util::under(dir, targets[i]));
    }
    if is_remote(mount, targets, dir, present) {
        let i = choose|i: int|
            0 <= i < targets.len() && util::under(dir, #[trigger] targets[i]) && present.contains(
                sandbox::remote_source(mount, targets[i]),
            );
        assert(targets.contains(targets[i]));
    }
    if b.len() == 0 {
        assert(a + b =~= a);
        assert(hidden_args(layout, targets, overlays, a, present) + hidden_args(
            layout,
            targets,
            overlays,
            b,
            present,
        ) =~= hidden_args(layout, targets, overlays, a, present));
    } else {
        local_directories_are_hidden_one_by_one(
            layout,
            targets,
            overlays,
            a,
            b.drop_last(),
            dir,
            present,
        );
        assert((a + b).drop_last() =~= a + b.drop_last());
        assert(hidden_args(layout, targets, overlays, a + b, present) =~= hidden_args(
            layout,
            targets,
            overlays,
            a,
            present,
        ) + hidden_args(layout, targets, overlays, b, present));
    }
}

/// Whether a list of arguments holds others, one next to the other.
pub open spec fn holds(args: Seq<Seq<u8>>, part: Seq<Seq<u8>>) -> bool {
    exists|k: int|
        0 <= k && k + part.len() <= args.len() && #[trigger] args.subrange(
            k,
            k + part.len() as int,
        ) == part
}

proof fn lemma_holds_itself(part: Seq<Seq<u8>>)
    ensures
        holds(part, part),
{
    assert(part.subrange(0, 0 + part.len() as int) =~= part);
}

proof fn lemma_holds(a: Seq<Seq<u8>>, b: Seq<Seq<u8>>, part: Seq<Seq<u8>>)
    ensures
        holds(a, part) || holds(b, part) ==> holds(a + b, part),
{
    let n = part.len() as int;
    if holds(a, part) {
        let k = choose|k: int|
            0 <= k && k + part.len() <= a.len() && #[trigger] a.subrange(
                k,
                k + part.len() as int,
            ) == part;
        assert((a + b).subrange(k, k + n) =~= a.subrange(k, k + n));
    } else if holds(b, part) {
        let k = choose|k: int|
            0 <= k && k + part.len() <= b.len() && #[trigger] b.subrange(
                k,
                k + part.len() as int,
            ) == part;
        let m = a.len() + k;
        assert((a + b).subrange(m, m + n) =~= b.subrange(k, k + n));
    }
}

#[verifier::spinoff_prover]
#[verifier::rlimit(60)]
proof fn lemma_local_holds(
    config: &TeleportConfig,
    layout: &RuntimeLayout,
    present: Set<Seq<u8>>,
    ssh_binary: Seq<u8>,
    part: Seq<Seq<u8>>,
)
    ensures
        holds(system_args(SYSTEM_DIRS@, present), part) || holds(own_dir_args(OWN_DIRS@), part)
            || holds(tool_args(layout, ssh_binary), part) || holds(
            identity_args(config, layout, present),
            part,
        ) || holds(mount_args("--bind", layout.ssh_control_dir@, "/codex/ssh-control"), part)
            || holds(mount_args("--bind", layout.remote_root_mount@, "/remote-root"), part) || holds(
            shared_args(util::opt_bytes(config.shared_dir)),
            part,
        ) ==> holds(local_args(config, layout, present, ssh_binary), part),
{
    let a = isolation_args() + unset_args(DROPPED_VARIABLES@);
    let b = a + system_args(SYSTEM_DIRS@, present);
    let c = b + own_dir_args(OWN_DIRS@);
    let d = c + tool_args(layout, ssh_binary);
    let e = d + identity_args(config, layout, present);
    let f = e + mount_args("--bind", layout.ssh_control_dir@, "/codex/ssh-control");
    let g = f + mount_args("--bind", layout.remote_root_mount@, "/remote-root");
    lemma_holds(a, system_args(SYSTEM_DIRS@, present), part);
    lemma_holds(b, own_dir_args(OWN_DIRS@), part);
    lemma_holds(c, tool_args(layout, ssh_binary), part);
    lemma_holds(d, identity_args(config, layout, present), part);
    lemma_holds(e, mount_args("--bind", layout.ssh_control_dir@, "/codex/ssh-control"), part);
    lemma_holds(f, mount_args("--bind", layout.remote_root_mount@, "/remote-root"), part);
    lemma_holds(g, shared_args(util::opt_bytes(config.shared_dir)), part);
}

proof fn lemma_mounted_below(flag: &str, source: Seq<u8>, place: &str)
    ensures
        holds(mount_below_args(flag, source, place), mount_args(flag, source, place)),
{
    let mount = mount_args(flag, source, place);
    lemma_holds_itself(mount);
    lemma_holds(util::parent_dir_args(os_text::bytes_of(place)), mount, mount);
}

proof fn lemma_tools_hold(layout: &RuntimeLayout, ssh_binary: Seq<u8>, part: Seq<Seq<u8>>)
    requires
        part == mount_args("--ro-bind", layout.self_binary@, "/codex/bin/teleport-box") || part
            == mount_args("--ro-bind", ssh_binary, "/codex/host-bin/ssh") || part == mount_args(
            "--bind",
            layout.codex_home@,
            "/codex/home",
        ) || part == mount_args("--ro-bind", layout.wrapper_dir@, "/codex/wrappers") || part
            == mount_args("--bind", layout.sandbox_known_hosts@, "/codex/ssh/known_hosts"),
    ensures
        holds(tool_args(layout, ssh_binary), part),
{
    let tool = mount_below_args("--ro-bind", layout.self_binary@, "/codex/bin/teleport-box");
    let ssh = mount_below_args("--ro-bind", ssh_binary, "/codex/host-bin/ssh");
    let home = mount_args("--bind", layout.codex_home@, "/codex/home");
    let wrappers = mount_args("--ro-bind", layout.wrapper_dir@, "/codex/wrappers");
    let hosts = mount_below_args("--bind", layout.sandbox_known_hosts@, "/codex/ssh/known_hosts");
    lemma_mounted_below("--ro-bind", layout.self_binary@, "/codex/bin/teleport-box");
    lemma_mounted_below("--ro-bind", ssh_binary, "/codex/host-bin/ssh");
    lemma_holds_itself(home);
    lemma_holds_itself(wrappers);
    lemma_mounted_below("--bind", layout.sandbox_known_hosts@, "/codex/ssh/known_hosts");
    lemma_holds(tool, ssh, part);
    lemma_holds(tool + ssh, home, part);
    lemma_holds(tool + ssh + home, wrappers, part);
    lemma_holds(tool + ssh + home + wrappers, hosts, part);
}

/// What the tool needs is mounted at its place: the tool, ssh, the home directory, the wrapped
/// commands, the known hosts, the directory of the connection, the mount of the remote host, and
/// the identity file where there is one.
#[verifier::spinoff_prover]
#[verifier::rlimit(60)]
pub proof fn tools_are_at_their_places(
    config: &TeleportConfig,
    layout: &RuntimeLayout,
    present: Set<Seq<u8>>,
    ssh_binary: Seq<u8>,
    part: Seq<Seq<u8>>,
)
    requires
        ({
            let bind = encode_utf8("--bind"@);
            let show = encode_utf8("--ro-bind"@);
            ||| part == seq![show, layout.self_binary@, encode_utf8("/codex/bin/teleport-box"@)]
            ||| part == seq![show, ssh_binary, encode_utf8("/codex/host-bin/ssh"@)]
            ||| part == seq![bind, layout.codex_home@, encode_utf8("/codex/home"@)]
            ||| part == seq![show, layout.wrapper_dir@, encode_utf8("/codex/wrappers"@)]
            ||| part == seq![
                bind,
                layout.sandbox_known_hosts@,
                encode_utf8("/codex/ssh/known_hosts"@),
            ]
            ||| part == seq![bind, layout.ssh_control_dir@, encode_utf8("/codex/ssh-control"@)]
            ||| part == seq![bind, layout.remote_root_mount@, encode_utf8("/remote-root"@)]
            ||| config.identity_file is Some && present.contains(layout.sandbox_identity_file@)
                && part == seq![
                bind,
                layout.sandbox_identity_file@,
                encode_utf8("/codex/ssh/id_ed25519"@),
            ]
        }),
    ensures
        holds(local_args(config, layout, present, ssh_binary), part),
{
    if part == mount_args("--bind", layout.ssh_control_dir@, "/codex/ssh-control") || part
        == mount_args("--bind", layout.remote_root_mount@, "/remote-root") {
        lemma_holds_itself(part);
        lemma_other_held(config, layout, present, ssh_binary, part);
    } else if config.identity_file is Some && present.contains(layout.sandbox_identity_file@) && part
        == mount_args("--bind", layout.sandbox_identity_file@, "/codex/ssh/id_ed25519") {
        lemma_mounted_below("--bind", layout.sandbox_identity_file@, "/codex/ssh/id_ed25519");
        lemma_identity_held(config, layout, present, ssh_binary, part);
    } else {
        lemma_tools_hold(layout, ssh_binary, part);
        lemma_tool_held(config, layout, present, ssh_binary, part);
    }
}

#[verifier::spinoff_prover]
#[verifier::rlimit(60)]
proof fn lemma_tool_held(
    config: &TeleportConfig,
    layout: &RuntimeLayout,
    present: Set<Seq<u8>>,
    ssh_binary: Seq<u8>,
    part: Seq<Seq<u8>>,
)
    requires
        holds(tool_args(layout, ssh_binary), part),
    ensures
        holds(local_args(config, layout, present, ssh_binary), part),
{
    lemma_local_holds(config, layout, present, ssh_binary, part);
}

#[verifier::spinoff_prover]
#[verifier::rlimit(60)]
proof fn lemma_identity_held(
    config: &TeleportConfig,
    layout: &RuntimeLayout,
    present: Set<Seq<u8>>,
    ssh_binary: Seq<u8>,
    part: Seq<Seq<u8>>,
)
    requires
        holds(identity_args(config, layout, present), part),
    ensures
        holds(local_args(config, layout, present, ssh_binary), part),
{
    lemma_local_holds(config, layout, present, ssh_binary, part);
}

#[verifier::spinoff_prover]
#[verifier::rlimit(60)]
proof fn lemma_other_held(
    config: &TeleportConfig,
    layout: &RuntimeLayout,
    present: Set<Seq<u8>>,
    ssh_binary: Seq<u8>,
    part: Seq<Seq<u8>>,
)
    requires
        holds(mount_args("--bind", layout.ssh_control_dir@, "/codex/ssh-control"), part) || holds(
            mount_args("--bind", layout.remote_root_mount@, "/remote-root"),
            part,
        ),
    ensures
        holds(local_args(config, layout, present, ssh_binary), part),
{
    lemma_local_holds(config, layout, present, ssh_binary, part);
}

/// No identity file is mounted where none was asked for, or none was laid out.
pub proof fn identity_files_are_mounted_where_they_are_there(
    config: &TeleportConfig,
    layout: &RuntimeLayout,
    present: Set<Seq<u8>>,
)
    ensures
        identity_args(config, layout, present).len() == 0 <==> config.identity_file is None
            || !present.contains(layout.sandbox_identity_file@),
{
}

/// Last of what is mounted from the local host comes the shared directory, or an empty one.
#[verifier::spinoff_prover]
#[verifier::rlimit(60)]
pub proof fn the_shared_directory_comes_last(
    config: &TeleportConfig,
    layout: &RuntimeLayout,
    present: Set<Seq<u8>>,
    ssh_binary: Seq<u8>,
)
    ensures
        ({
            let all = local_args(config, layout, present, ssh_binary);
            let n = all.len();
            &&& n >= 3
            &&& all[n - 1] == encode_utf8("/shared"@)
            &&& config.shared_dir matches Some(dir) ==> all[n - 3] == encode_utf8("--bind"@) && all[n
                - 2] == dir@
            &&& config.shared_dir is None ==> all[n - 2] == encode_utf8("--tmpfs"@) && all[n - 3]
                == encode_utf8("/remote-root"@)
        }),
{
    let root = mount_args("--bind", layout.remote_root_mount@, "/remote-root");
    let before = isolation_args() + unset_args(DROPPED_VARIABLES@) + system_args(
        SYSTEM_DIRS@,
        present,
    ) + own_dir_args(OWN_DIRS@) + tool_args(layout, ssh_binary) + identity_args(
        config,
        layout,
        present,
    ) + mount_args("--bind", layout.ssh_control_dir@, "/codex/ssh-control");
    lemma_ends(before, root, shared_args(util::opt_bytes(config.shared_dir)));
}

proof fn lemma_ends(a: Seq<Seq<u8>>, b: Seq<Seq<u8>>, c: Seq<Seq<u8>>)
    requires
        b.len() == 3,
        2 <= c.len() <= 3,
    ensures
        ({
            let all = a + b + c;
            let n = all.len();
            &&& n >= 3
            &&& all[n - 1] == c.last()
            &&& all[n - 2] == c[c.len() - 2]
            &&& c.len() == 3 ==> all[n - 3] == c[0]
            &&& c.len() == 2 ==> all[n - 3] == b[2]
        }),
{
}

/// The sandbox ends with its parent, has a session, processes, devices and temporary files of its
/// own, and does not get the variables that would lead out of it.
#[verifier::spinoff_prover]
#[verifier::rlimit(60)]
pub proof fn sandboxes_stand_alone(
    config: &TeleportConfig,
    layout: &RuntimeLayout,
    present: Set<Seq<u8>>,
    ssh_binary: Seq<u8>,
    i: int,
)
    ensures
        ({
            let all = local_args(config, layout, present, ssh_binary);
            let dropped = seq![
                "SSH_AUTH_SOCK"@,
                "GIT_DIR"@,
                "GIT_WORK_TREE"@,
                "GIT_INDEX_FILE"@,
                "PYTHONPATH"@,
                "VIRTUAL_ENV"@,
                "PIP_REQUIRE_VIRTUALENV"@,
            ];
            &&& all.len() >= 22
            &&& all.take(8) == seq![
                encode_utf8("--die-with-parent"@),
                encode_utf8("--new-session"@),
                encode_utf8("--proc"@),
                encode_utf8("/proc"@),
                encode_utf8("--dev"@),
                encode_utf8("/dev"@),
                encode_utf8("--tmpfs"@),
                encode_utf8("/tmp"@),
            ]
            &&& 0 <= i < 7 ==> all[8 + 2 * i] == encode_utf8("--unsetenv"@) && all[9 + 2 * i]
                == encode_utf8(dropped[i])
        }),
{
    lemma_unset(DROPPED_VARIABLES@, i);
    lemma_local_front(config, layout, present, ssh_binary);
    lemma_first_two(
        local_args(config, layout, present, ssh_binary),
        isolation_args(),
        unset_args(DROPPED_VARIABLES@),
        i,
    );
}

proof fn lemma_first_two(all: Seq<Seq<u8>>, a: Seq<Seq<u8>>, b: Seq<Seq<u8>>, i: int)
    requires
        all.len() >= 22,
        a.len() == 8,
        b.len() == 14,
        all.take(22) == a + b,
    ensures
        all.take(8) == a,
        0 <= i < 7 ==> all[8 + 2 * i] == b[2 * i] && all[9 + 2 * i] == b[2 * i + 1],
{
    let both = all.take(22);
    assert(all.take(8) =~= both.take(8));
    assert(both.take(8) =~= a);
    if 0 <= i < 7 {
        assert(both[8 + 2 * i] == all[8 + 2 * i]);
        assert(both[9 + 2 * i] == all[9 + 2 * i]);
    }
}

#[verifier::spinoff_prover]
#[verifier::rlimit(60)]
proof fn lemma_local_front(
    config: &TeleportConfig,
    layout: &RuntimeLayout,
    present: Set<Seq<u8>>,
    ssh_binary: Seq<u8>,
)
    ensures
        ({
            let all = local_args(config, layout, present, ssh_binary);
            &&& all.len() >= 22
            &&& all.take(22) == isolation_args() + unset_args(DROPPED_VARIABLES@)
        }),
{
    lemma_unset(DROPPED_VARIABLES@, 0);
    lemma_front(
        isolation_args() + unset_args(DROPPED_VARIABLES@),
        system_args(SYSTEM_DIRS@, present),
        own_dir_args(OWN_DIRS@),
        tool_args(layout, ssh_binary),
        identity_args(config, layout, present),
        mount_args("--bind", layout.ssh_control_dir@, "/codex/ssh-control"),
        mount_args("--bind", layout.remote_root_mount@, "/remote-root"),
        shared_args(util::opt_bytes(config.shared_dir)),
    );
}

proof fn lemma_front(
    a: Seq<Seq<u8>>,
    b: Seq<Seq<u8>>,
    c: Seq<Seq<u8>>,
    d: Seq<Seq<u8>>,
    e: Seq<Seq<u8>>,
    f: Seq<Seq<u8>>,
    g: Seq<Seq<u8>>,
    h: Seq<Seq<u8>>,
)
    ensures
        (a + b + c + d + e + f + g + h).len() >= a.len(),
        (a + b + c + d + e + f + g + h).take(a.len() as int) == a,
{
    assert((a + b + c + d + e + f + g + h).take(a.len() as int) =~= a);
}

proof fn lemma_unset(variables: Seq<&'static str>, i: int)
    ensures
        unset_args(variables).len() == 2 * variables.len(),
        0 <= i < variables.len() ==> unset_args(variables)[2 * i] == encode_utf8("--unsetenv"@)
            && unset_args(variables)[2 * i + 1] == encode_utf8(variables[i]@),
    decreases variables.len(),
{
    if variables.len() > 0 {
        lemma_unset(variables.drop_last(), i);
    }
}

/// Of the local system the sandbox shows the usual directories, read-only and at their own places,
/// each where it is there.
#[verifier::spinoff_prover]
#[verifier::rlimit(60)]
pub proof fn the_local_system_is_shown(
    config: &TeleportConfig,
    layout: &RuntimeLayout,
    present: Set<Seq<u8>>,
    ssh_binary: Seq<u8>,
    i: int,
)
    requires
        0 <= i < 6,
    ensures
        ({
            let dir = encode_utf8(
                seq!["/usr"@, "/bin"@, "/sbin"@, "/lib"@, "/lib64"@, "/etc"@][i],
            );
            present.contains(dir) ==> holds(
                local_args(config, layout, present, ssh_binary),
                seq![encode_utf8("--ro-bind"@), dir, dir],
            )
        }),
{
    let dir = encode_utf8(SYSTEM_DIRS@[i]@);
    let part = seq![encode_utf8("--ro-bind"@), dir, dir];
    if present.contains(dir) {
        lemma_system_shown(SYSTEM_DIRS@, present, i);
        lemma_local_holds(config, layout, present, ssh_binary, part);
    }
}

proof fn lemma_system_shown(dirs: Seq<&'static str>, present: Set<Seq<u8>>, i: int)
    requires
        0 <= i < dirs.len(),
        present.contains(encode_utf8(dirs[i]@)),
    ensures
        holds(
            system_args(dirs, present),
            seq![encode_utf8("--ro-bind"@), encode_utf8(dirs[i]@), encode_utf8(dirs[i]@)],
        ),
    decreases dirs.len(),
{
    let dir = encode_utf8(dirs[i]@);
    let part = seq![encode_utf8("--ro-bind"@), dir, dir];
    let init = dirs.drop_last();
    let last = os_text::bytes_of(dirs.last());
    let more = util::ro_bind_args(last, last, present);
    if i < init.len() {
        lemma_system_shown(init, present, i);
    } else {
        lemma_holds_itself(part);
        lemma_holds(util::dir_args(path::components_of(dir)), part, part);
    }
    lemma_holds(system_args(init, present), more, part);
}

/// What the local system has nothing of stays away: of directories that are not there nothing is
/// shown.
pub proof fn absent_directories_are_not_shown(dirs: Seq<&'static str>, present: Set<Seq<u8>>)
    requires
        forall|i: int| 0 <= i < dirs.len() ==> !present.contains(encode_utf8((#[trigger] dirs[i])@)),
    ensures
        system_args(dirs, present) == Seq::<Seq<u8>>::empty(),
    decreases dirs.len(),
{
    if dirs.len() > 0 {
        let init = dirs.drop_last();
        assert forall|i: int| 0 <= i < init.len() implies !present.contains(
            encode_utf8((#[trigger] init[i])@),
        ) by {
            assert(init[i] == dirs[i]);
        }
        absent_directories_are_not_shown(init, present);
        assert(!present.contains(encode_utf8(dirs[dirs.len() - 1]@)));
    }
    assert(system_args(dirs, present) =~= seq![]);
}

/// The sandbox has its own directories, with all those above them.
#[verifier::spinoff_prover]
#[verifier::rlimit(60)]
pub proof fn own_directories_are_created(
    config: &TeleportConfig,
    layout: &RuntimeLayout,
    present: Set<Seq<u8>>,
    ssh_binary: Seq<u8>,
    i: int,
)
    requires
        0 <= i < 8,
    ensures
        ({
            let places = seq![
                "/codex/bin"@,
                "/codex/home"@,
                "/codex/wrappers"@,
                "/codex/host-bin"@,
                "/codex/ssh"@,
                "/codex/ssh-control"@,
                "/remote-root"@,
                "/shared"@,
            ];
            holds(
                local_args(config, layout, present, ssh_binary),
                util::dir_args(path::components_of(encode_utf8(places[i]))),
            )
        }),
{
    let part = util::dir_args(path::components_of(encode_utf8(OWN_DIRS@[i]@)));
    lemma_own_created(OWN_DIRS@, i);
    lemma_local_holds(config, layout, present, ssh_binary, part);
}

proof fn lemma_own_created(dirs: Seq<&'static str>, i: int)
    requires
        0 <= i < dirs.len(),
    ensures
        holds(
            own_dir_args(dirs),
            util::dir_args(path::components_of(encode_utf8(dirs[i]@))),
        ),
    decreases dirs.len(),
{
    let part = util::dir_args(path::components_of(encode_utf8(dirs[i]@)));
    let init = dirs.drop_last();
    let more = util::dir_args(path::components_of(os_text::bytes_of(dirs.last())));
    if i < init.len() {
        lemma_own_created(init, i);
    } else {
        lemma_holds_itself(part);
    }
    lemma_holds(own_dir_args(init), more, part);
}

/// Every directory that is to come from the remote host, and that it has, is mounted at its own
/// place, behind everything that is mounted from the local host.
#[verifier::spinoff_prover]
#[verifier::rlimit(60)]
pub proof fn remote_directories_are_mounted(
    config: &TeleportConfig,
    layout: &RuntimeLayout,
    profile: &RemoteProfile,
    present: Set<Seq<u8>>,
    ssh_binary: Seq<u8>,
    target: Seq<char>,
)
    requires
        remote_targets(config, profile).contains(target),
        present.contains(sandbox::remote_source(layout.remote_root_mount@, target)),
    ensures
        ({
            let local = local_args(config, layout, present, ssh_binary);
            let all = view_args(config, layout, profile, present, ssh_binary);
            &&& all.take(local.len() as int) == local
            &&& holds(
                all.skip(local.len() as int),
                seq![
                    encode_utf8("--bind"@),
                    sandbox::remote_source(layout.remote_root_mount@, target),
                    encode_utf8(target),
                ],
            )
        }),
{
    let mount = layout.remote_root_mount@;
    let targets = remote_targets(config, profile);
    let overlays = replaced_targets(config, profile);
    let local = local_args(config, layout, present, ssh_binary);
    let hidden = hidden_args(layout, targets, overlays, text::views(profile.remote_path@), present);
    let remote = remote_args(mount, targets, present);
    let overlay = overlay_args(layout.exec_overlay_root@, overlays, present);
    let part = seq![
        encode_utf8("--bind"@),
        sandbox::remote_source(mount, target),
        encode_utf8(target),
    ];
    let k = lemma_remote_mounted(mount, targets, present, target);
    assert(remote.subrange(k, k + part.len() as int) == part);
    assert(holds(remote, part));
    lemma_holds(hidden, remote, part);
    lemma_holds(hidden + remote, overlay, part);
    lemma_behind(local, hidden, remote, overlay);
}

proof fn lemma_behind(a: Seq<Seq<u8>>, b: Seq<Seq<u8>>, c: Seq<Seq<u8>>, d: Seq<Seq<u8>>)
    ensures
        (a + b + c + d).take(a.len() as int) == a,
        (a + b + c + d).skip(a.len() as int) == b + c + d,
{
    assert((a + b + c + d).take(a.len() as int) =~= a);
    assert((a + b + c + d).skip(a.len() as int) =~= b + c + d);
}

/// A directory that the sandbox has from the local system lies in one of those that are shown of it.
pub proof fn local_directories_are_shown_ones(dir: Seq<char>)
    ensures
        is_local(dir) <==> {
            let p = encode_utf8(dir);
            ||| path::within(p, encode_utf8("/usr"@))
            ||| path::within(p, encode_utf8("/bin"@))
            ||| path::within(p, encode_utf8("/sbin"@))
            ||| path::within(p, encode_utf8("/lib"@))
            ||| path::within(p, encode_utf8("/lib64"@))
            ||| path::within(p, encode_utf8("/etc"@))
        },
{
    let p = encode_utf8(dir);
    assert(SYSTEM_DIRS@[0]@ == "/usr"@);
    assert(SYSTEM_DIRS@[1]@ == "/bin"@);
    assert(SYSTEM_DIRS@[2]@ == "/sbin"@);
    assert(SYSTEM_DIRS@[3]@ == "/lib"@);
    assert(SYSTEM_DIRS@[4]@ == "/lib64"@);
    assert(SYSTEM_DIRS@[5]@ == "/etc"@);
    if is_local(dir) {
        let i = choose|i: int|
            0 <= i < SYSTEM_DIRS@.len() && path::within(
                p,
                os_text::bytes_of(#[trigger] SYSTEM_DIRS@[i]),
            );
        assert(i == 0 || i == 1 || i == 2 || i == 3 || i == 4 || i == 5);
    }
}

/// What wrapped commands are told, thing by thing: where the host is, its working directory, home,
/// shell and search path, and where the sandbox has what ssh needs. Directories without a colon and
/// options without a line break can be told apart again.
pub proof fn each_thing_is_told_as_it_is(config: &TeleportConfig, profile: &RemoteProfile)
    ensures
        ({
            let told = wrapper_values(config, profile);
            let dirs = text::views(profile.remote_path@);
            let options = text::views(config.ssh_options@);
            &&& told.len() == 13
            &&& told[0] == config.destination()
            &&& config.port is None ==> told[1].len() == 0
            &&& config.port matches Some(port) ==> decimal::parsed_u16(told[1]) == Ok::<
                u16,
                decimal::NumberError,
            >(port)
            &&& told[2] == config.remote_cwd@
            &&& told[3] == config.remote_home@
            &&& told[4] == profile.shell_path@
            &&& dirs.len() > 0 && (forall|i: int|
                0 <= i < dirs.len() ==> !(#[trigger] dirs[i]).contains(':')) ==> text::split(
                told[5],
                ':',
            ) == dirs
            &&& config.identity_file is Some ==> told[6] == "/codex/ssh/id_ed25519"@
            &&& config.identity_file is None ==> told[6].len() == 0
            &&& told[7] == "/codex/ssh/known_hosts"@
            &&& told[8] == "/codex/host-bin/ssh"@
            &&& told[9] == "/codex/ssh-control/control.sock"@
            &&& config.batch_mode ==> told[10] == seq!['1']
            &&& !config.batch_mode ==> told[10] == seq!['0']
            &&& options.len() == 0 ==> told[11].len() == 0
            &&& options.len() > 0 && (forall|i: int|
                0 <= i < options.len() ==> !(#[trigger] options[i]).contains('\n')) ==> text::split(
                told[11],
                '\n',
            ) == options
            &&& config.shared_dir is Some ==> told[12] == "/shared"@
            &&& config.shared_dir is None ==> told[12].len() == 0
        }),
{
    let dirs = text::views(profile.remote_path@);
    let options = text::views(config.ssh_options@);
    reveal_strlit("");
    reveal_strlit("0");
    reveal_strlit("1");
    reveal_strlit(":");
    reveal_strlit("\n");
    assert("0"@ =~= seq!['0']);
    assert("1"@ =~= seq!['1']);
    assert(":"@ =~= seq![':']);
    assert("\n"@ =~= seq!['\n']);
    if let Some(port) = config.port {
        decimal::decimal_reads_back(port);
    }
    if dirs.len() > 0 && (forall|i: int|
        0 <= i < dirs.len() ==> !(#[trigger] dirs[i]).contains(':')) {
        text::split_undoes_join(dirs, ':');
    }
    if options.len() > 0 && (forall|i: int|
        0 <= i < options.len() ==> !(#[trigger] options[i]).contains('\n')) {
        text::split_undoes_join(options, '\n');
    }
}

} // verus!
