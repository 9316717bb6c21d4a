//! The files of one run: which directories are made, what is copied into them and back, and the
//! links and scripts that they hold.
use vstd::prelude::*;
use vstd::utf8::encode_utf8;
use crate::config;
use crate::config::{RemoteProfile, RuntimeLayout, TeleportConfig};
use crate::decimal;
use crate::names;
use crate::names::{ExecIndex, NameSet};
use crate::os_text;
use crate::os_text::OsText;
use crate::path;
use crate::probe;
use crate::sandbox;
use crate::shell;
use crate::text;
use crate::util;
use crate::wrapper;

verus! {

/// Something to do to the file system, with texts of type `T` and paths of type `P`.
#[derive(Debug, PartialEq, Eq)]
pub enum ActionOf<T, P> {
    /// Create a directory and those above it.
    CreateDirs(P),
    /// Copy the first file to the second.
    Copy(P, P),
    /// Write a file.
    Write(P, T),
    /// Set the mode of a file.
    SetMode(P, u32),
    /// Make the second path a link to the first, unless something is there.
    Link(P, P),
}

/// Something to do, and what is said where it fails; empty where the cause speaks for itself.
#[derive(Debug, PartialEq, Eq)]
pub struct StepOf<T, P> {
    pub action: ActionOf<T, P>,
    pub context: T,
}

pub type Step = StepOf<String, OsText>;

/// What a step holds.
pub type StepView = StepOf<Seq<char>, Seq<u8>>;

pub type ActionView = ActionOf<Seq<char>, Seq<u8>>;

impl View for StepOf<String, OsText> {
    type V = StepOf<Seq<char>, Seq<u8>>;

    open spec fn view(&self) -> StepOf<Seq<char>, Seq<u8>> {
        StepOf {
            action: match self.action {
                ActionOf::CreateDirs(p) => ActionOf::CreateDirs(p@),
                ActionOf::Copy(p, q) => ActionOf::Copy(p@, q@),
                ActionOf::Write(p, t) => ActionOf::Write(p@, t@),
                ActionOf::SetMode(p, mode) => ActionOf::SetMode(p@, mode),
                ActionOf::Link(p, q) => ActionOf::Link(p@, q@),
            },
            context: self.context@,
        }
    }
}

/// What the steps of a list hold.
pub open spec fn step_views(list: Seq<Step>) -> Seq<StepView> {
    list.map_values(|step: Step| step@)
}

/// Words about a path.
pub open spec fn about(words: &str, p: Seq<u8>) -> Seq<char> {
    words@ + os_text::shown(p)
}

/// Words about a path.
pub fn about_path(words: &str, p: &OsText) -> (r: String)
    ensures
        r@ == about(words, p@),
{
    words.to_string().concat(p.shown().as_str())
}

/// The step that sets the mode of a file.
pub open spec fn mode_step(p: Seq<u8>, mode: u32) -> StepView {
    StepOf {
        action: ActionOf::SetMode(p, mode),
        context: about("failed to set permissions on ", p),
    }
}

/// The step that sets the mode of a file.
pub fn set_file_mode(p: &OsText, mode: u32) -> (r: Step)
    ensures
        r@ == mode_step(p@, mode),
{
    StepOf {
        action: ActionOf::SetMode(p.clone(), mode),
        context: about_path("failed to set permissions on ", p),
    }
}

fn push_step(steps: &mut Vec<Step>, step: Step)
    ensures
        step_views(final(steps)@) == step_views(old(steps)@).push(step@),
{
    steps.push(step);
    assert(step_views(steps@) =~= step_views(old(steps)@).push(step@));
}

/// `name` in the directory `dir`.
pub open spec fn inside(dir: Seq<u8>, name: &str) -> Seq<u8> {
    path::joined(dir, os_text::bytes_of(name))
}

/// The directories that a run has of its own, in the order in which they are made.
pub open spec fn runtime_dirs(tempdir: Seq<u8>) -> Seq<Seq<u8>> {
    seq![
        inside(tempdir, "remote-root"),
        inside(tempdir, "codex-home"),
        inside(tempdir, "wrappers"),
        inside(tempdir, "exec-overlay"),
        inside(tempdir, "ssh"),
        inside(tempdir, "ssh-control"),
    ]
}

/// The step that creates a directory, where a failure needs no words.
pub open spec fn dir_step(dir: Seq<u8>) -> StepView {
    StepOf { action: ActionOf::CreateDirs(dir), context: seq![] }
}

/// The steps that create directories.
pub open spec fn dir_steps(dirs: Seq<Seq<u8>>) -> Seq<StepView> {
    dirs.map_values(|dir: Seq<u8>| dir_step(dir))
}

/// Where the files of a run are, in a directory made for it.
pub open spec fn laid_out(layout: &RuntimeLayout, tempdir: Seq<u8>, self_binary: Seq<u8>) -> bool {
    let ssh = inside(tempdir, "ssh");
    let control = inside(tempdir, "ssh-control");
    &&& layout.self_binary@ == self_binary
    &&& layout.remote_root_mount@ == inside(tempdir, "remote-root")
    &&& layout.codex_home@ == inside(tempdir, "codex-home")
    &&& layout.wrapper_dir@ == inside(tempdir, "wrappers")
    &&& layout.exec_overlay_root@ == inside(tempdir, "exec-overlay")
    &&& layout.ssh_control_dir@ == control
    &&& layout.ssh_control_socket@ == inside(control, "control.sock")
    &&& layout.sandbox_identity_file@ == inside(ssh, "id_ed25519")
    &&& layout.sandbox_known_hosts@ == inside(ssh, "known_hosts")
    &&& layout.sshfs_ssh_command@ == inside(ssh, "sshfs-ssh")
}

fn create_dir(dir: &OsText) -> (r: Step)
    ensures
        r@ == dir_step(dir@),
{
    let context = String::new();
    assert(context@ =~= seq![]);
    StepOf { action: ActionOf::CreateDirs(dir.clone()), context }
}

/// Lays a run out in a directory made for it: where its files will be, and what has to be made
/// first.
pub fn prepare_runtime(tempdir: &OsText, self_binary: &OsText) -> (r: (RuntimeLayout, Vec<Step>))
    ensures
        laid_out(&r.0, tempdir@, self_binary@),
        step_views(r.1@) == dir_steps(runtime_dirs(tempdir@)),
{
    let remote_root_mount = path::join_text(tempdir, "remote-root");
    let codex_home = path::join_text(tempdir, "codex-home");
    let wrapper_dir = path::join_text(tempdir, "wrappers");
    let exec_overlay_root = path::join_text(tempdir, "exec-overlay");
    let ssh_dir = path::join_text(tempdir, "ssh");
    let ssh_control_dir = path::join_text(tempdir, "ssh-control");
    let mut steps: Vec<Step> = Vec::new();
    assert(step_views(steps@) =~= seq![]);
    push_step(&mut steps, create_dir(&remote_root_mount));
    push_step(&mut steps, create_dir(&codex_home));
    push_step(&mut steps, create_dir(&wrapper_dir));
    push_step(&mut steps, create_dir(&exec_overlay_root));
    push_step(&mut steps, create_dir(&ssh_dir));
    push_step(&mut steps, create_dir(&ssh_control_dir));
    assert(step_views(steps@) =~= dir_steps(runtime_dirs(tempdir@)));
    let layout = RuntimeLayout {
        self_binary: self_binary.clone(),
        remote_root_mount,
        codex_home,
        wrapper_dir,
        exec_overlay_root,
        ssh_control_socket: path::join_text(&ssh_control_dir, "control.sock"),
        ssh_control_dir,
        sandbox_identity_file: path::join_text(&ssh_dir, "id_ed25519"),
        sandbox_known_hosts: path::join_text(&ssh_dir, "known_hosts"),
        sshfs_ssh_command: path::join_text(&ssh_dir, "sshfs-ssh"),
    };
    (layout, steps)
}

/// The file of known hosts of the local user, where there is a home directory.
pub open spec fn known_hosts_of(home: Option<Seq<u8>>) -> Option<Seq<u8>> {
    match home {
        Some(home) => Some(inside(inside(home, ".ssh"), "known_hosts")),
        None => None,
    }
}

/// The file of known hosts of the local user, where there is a home directory.
pub fn local_known_hosts_path(home: &Option<OsText>) -> (r: Option<OsText>)
    ensures
        util::opt_bytes(r) == known_hosts_of(util::opt_bytes(*home)),
{
    match home {
        Some(home) => Some(path::join_text(&path::join_text(home, ".ssh"), "known_hosts")),
        None => None,
    }
}

/// Where the Codex of the local user keeps its files, where there is a home directory.
pub open spec fn codex_home_of(home: Option<Seq<u8>>) -> Option<Seq<u8>> {
    match home {
        Some(home) => Some(inside(home, ".codex")),
        None => None,
    }
}

/// Where the Codex of the local user keeps its files, where there is a home directory.
pub fn local_codex_home(home: &Option<OsText>) -> (r: Option<OsText>)
    ensures
        util::opt_bytes(r) == codex_home_of(util::opt_bytes(*home)),
{
    match home {
        Some(home) => Some(path::join_text(home, ".codex")),
        None => None,
    }
}

/// The steps that copy the identity file, which only its owner may read.
pub open spec fn identity_steps(identity: Option<Seq<u8>>, staged: Seq<u8>) -> Seq<StepView> {
    match identity {
        Some(identity) => seq![
            StepOf {
                action: ActionOf::Copy(identity, staged),
                context: about("failed to copy identity file into runtime dir: ", identity),
            },
            mode_step(staged, 0o600),
        ],
        None => seq![],
    }
}

/// The step that copies the known hosts of the local user, or makes an empty file where there
/// are none.
pub open spec fn known_hosts_step(
    local: Option<Seq<u8>>,
    present: bool,
    staged: Seq<u8>,
) -> StepView {
    match local {
        Some(local) if present => StepOf {
            action: ActionOf::Copy(local, staged),
            context: about("failed to copy local known_hosts into runtime dir: ", local),
        },
        _ => StepOf {
            action: ActionOf::Write(staged, seq![]),
            context: "failed to create known_hosts file"@,
        },
    }
}

/// The steps that bring the files that ssh needs into a run.
pub open spec fn ssh_steps(
    config: &TeleportConfig,
    layout: &RuntimeLayout,
    home: Option<Seq<u8>>,
    known_hosts_present: bool,
) -> Seq<StepView> {
    identity_steps(util::opt_bytes(config.identity_file), layout.sandbox_identity_file@) + seq![
        known_hosts_step(known_hosts_of(home), known_hosts_present, layout.sandbox_known_hosts@),
        mode_step(layout.sandbox_known_hosts@, 0o600),
    ]
}

/// Brings the files that ssh needs into a run. `known_hosts_present` says whether the file of
/// known hosts of the local user is there.
pub fn stage_ssh_material(
    config: &TeleportConfig,
    layout: &RuntimeLayout,
    home: &Option<OsText>,
    known_hosts_present: bool,
) -> (r: Vec<Step>)
    ensures
        step_views(r@) == ssh_steps(config, layout, util::opt_bytes(*home), known_hosts_present),
{
    let mut steps: Vec<Step> = Vec::new();
    assert(step_views(steps@) =~= seq![]);
    if let Some(identity) = &config.identity_file {
        push_step(
            &mut steps,
            StepOf {
                action: ActionOf::Copy(identity.clone(), layout.sandbox_identity_file.clone()),
                context: about_path("failed to copy identity file into runtime dir: ", identity),
            },
        );
        push_step(&mut steps, set_file_mode(&layout.sandbox_identity_file, 0o600));
    }
    let ghost first = identity_steps(
        util::opt_bytes(config.identity_file),
        layout.sandbox_identity_file@,
    );
    assert(step_views(steps@) =~= first);
    let staged = layout.sandbox_known_hosts.clone();
    let empty = String::new();
    assert(empty@ =~= seq![]);
    let step = match local_known_hosts_path(home) {
        Some(local) => if known_hosts_present {
            let context = about_path("failed to copy local known_hosts into runtime dir: ", &local);
            StepOf { action: ActionOf::Copy(local, staged), context }
        } else {
            StepOf {
                action: ActionOf::Write(staged, empty),
                context: "failed to create known_hosts file".to_string(),
            }
        },
        None => StepOf {
            action: ActionOf::Write(staged, empty),
            context: "failed to create known_hosts file".to_string(),
        },
    };
    push_step(&mut steps, step);
    push_step(&mut steps, set_file_mode(&layout.sandbox_known_hosts, 0o600));
    assert(step_views(steps@) =~= ssh_steps(
        config,
        layout,
        util::opt_bytes(*home),
        known_hosts_present,
    ));
    steps
}

/// The step that creates the directory of a file, where it lies in one.
pub open spec fn parent_steps(file: Seq<u8>) -> Seq<StepView> {
    match path::parent_of(file) {
        Some(dir) => seq![
            StepOf {
                action: ActionOf::CreateDirs(dir),
                context: about("failed to create parent directory for ", file),
            },
        ],
        None => seq![],
    }
}

/// The steps that bring the known hosts back to the local user.
pub open spec fn persist_steps(layout: &RuntimeLayout, home: Option<Seq<u8>>) -> Seq<StepView> {
    match known_hosts_of(home) {
        Some(local) => parent_steps(local) + seq![
            StepOf {
                action: ActionOf::Copy(layout.sandbox_known_hosts@, local),
                context: about("failed to persist runtime known_hosts to ", local),
            },
            mode_step(local, 0o600),
        ],
        None => seq![],
    }
}

/// Brings the known hosts back to the local user.
pub fn persist_ssh_material(layout: &RuntimeLayout, home: &Option<OsText>) -> (r: Vec<Step>)
    ensures
        step_views(r@) == persist_steps(layout, util::opt_bytes(*home)),
{
    let mut steps: Vec<Step> = Vec::new();
    assert(step_views(steps@) =~= seq![]);
    if let Some(local) = local_known_hosts_path(home) {
        if let Some(dir) = path::parent(&local) {
            push_step(
                &mut steps,
                StepOf {
                    action: ActionOf::CreateDirs(dir),
                    context: about_path("failed to create parent directory for ", &local),
                },
            );
        }
        assert(step_views(steps@) =~= parent_steps(local@));
        push_step(
            &mut steps,
            StepOf {
                action: ActionOf::Copy(layout.sandbox_known_hosts.clone(), local.clone()),
                context: about_path("failed to persist runtime known_hosts to ", &local),
            },
        );
        push_step(&mut steps, set_file_mode(&local, 0o600));
        assert(step_views(steps@) =~= persist_steps(layout, util::opt_bytes(*home)));
    }
    steps
}

/// An option with its value, as two words.
pub open spec fn option_words(options: Seq<Seq<char>>) -> Seq<Seq<char>>
    decreases options.len(),
{
    if options.len() == 0 {
        seq![]
    } else {
        option_words(options.drop_last()) + seq!["-o"@, options.last()]
    }
}

/// The ssh command through which the remote root is mounted: it goes through the shared
/// connection.
pub open spec fn mount_words(
    config: &TeleportConfig,
    layout: &RuntimeLayout,
    host_ssh: Seq<u8>,
) -> Seq<Seq<char>> {
    seq![
        os_text::shown(host_ssh),
        "-F"@,
        "/dev/null"@,
        "-S"@,
        os_text::shown(layout.ssh_control_socket@),
        "-o"@,
        "ControlMaster=auto"@,
        "-o"@,
        "ControlPersist=no"@,
    ] + (if config.identity_file is Some {
        seq!["-i"@, os_text::shown(layout.sandbox_identity_file@)]
    } else {
        seq![]
    }) + (match config.port {
        Some(port) => seq!["-p"@, decimal::decimal(port as nat)],
        None => seq![],
    }) + (if config.batch_mode {
        seq!["-o"@, "BatchMode=yes"@]
    } else {
        seq![]
    }) + seq![
        "-o"@,
        "StrictHostKeyChecking=accept-new"@,
        "-o"@,
        wrapper::known_hosts_option(layout.sandbox_known_hosts@),
    ] + option_words(text::views(config.ssh_options@))
}

/// A script that runs a command in its own place, with its own arguments at the end.
pub open spec fn exec_script(words: Seq<Seq<char>>) -> Seq<char> {
    "#!/bin/sh\nexec "@ + shell::command_of(words) + " \"$@\"\n"@
}

/// The steps that write the script with which sshfs calls ssh.
pub open spec fn sshfs_steps(
    config: &TeleportConfig,
    layout: &RuntimeLayout,
    host_ssh: Seq<u8>,
) -> Seq<StepView> {
    seq![
        StepOf {
            action: ActionOf::Write(
                layout.sshfs_ssh_command@,
                exec_script(mount_words(config, layout, host_ssh)),
            ),
            context: about("failed to write sshfs ssh helper ", layout.sshfs_ssh_command@),
        },
        mode_step(layout.sshfs_ssh_command@, 0o700),
    ]
}

fn push_word(words: &mut Vec<String>, word: &str)
    ensures
        text::views(final(words)@) == text::views(old(words)@).push(word@),
{
    let word = word.to_string();
    proof {
        text::lemma_views_push(words@, word);
    }
    words.push(word);
}

fn push_two(words: &mut Vec<String>, a: &str, b: &str)
    ensures
        text::views(final(words)@) == text::views(old(words)@) + seq![a@, b@],
{
    let ghost start = text::views(words@);
    push_word(words, a);
    push_word(words, b);
    assert(text::views(words@) =~= start + seq![a@, b@]);
}

fn mount_command_words(
    config: &TeleportConfig,
    layout: &RuntimeLayout,
    host_ssh: &OsText,
) -> (r: Vec<String>)
    ensures
        text::views(r@) == mount_words(config, layout, host_ssh@),
{
    let mut words: Vec<String> = Vec::new();
    assert(text::views(words@) =~= seq![]);
    push_word(&mut words, host_ssh.shown().as_str());
    push_two(&mut words, "-F", "/dev/null");
    push_two(&mut words, "-S", layout.ssh_control_socket.shown().as_str());
    push_two(&mut words, "-o", "ControlMaster=auto");
    push_two(&mut words, "-o", "ControlPersist=no");
    if config.identity_file.is_some() {
        push_two(&mut words, "-i", layout.sandbox_identity_file.shown().as_str());
    }
    if let Some(port) = config.port {
        push_two(&mut words, "-p", decimal::decimal_text(port as u64).as_str());
    }
    if config.batch_mode {
        push_two(&mut words, "-o", "BatchMode=yes");
    }
    push_two(&mut words, "-o", "StrictHostKeyChecking=accept-new");
    push_two(
        &mut words,
        "-o",
        wrapper::known_hosts_text(&layout.sandbox_known_hosts).as_str(),
    );
    let ghost start = text::views(words@);
    let ghost all = text::views(config.ssh_options@);
    assert(start + option_words(all.take(0)) =~= start);
    for i in 0..config.ssh_options.len()
        invariant
            all == text::views(config.ssh_options@),
            text::views(words@) == start + option_words(all.take(i as int)),
    {
        proof {
            assert(all.take(i + 1).drop_last() =~= all.take(i as int));
            assert(all.take(i + 1).last() == config.ssh_options@[i as int]@);
            let more = seq!["-o"@, config.ssh_options@[i as int]@];
            assert(start + (option_words(all.take(i as int)) + more) =~= start + option_words(
                all.take(i as int),
            ) + more);
        }
        push_two(&mut words, "-o", config.ssh_options[i].as_str());
    }
    assert(all.take(all.len() as int) =~= all);
    assert(text::views(words@) =~= mount_words(config, layout, host_ssh@));
    words
}

/// Writes the script with which sshfs calls ssh.
pub fn write_sshfs_command(
    config: &TeleportConfig,
    layout: &RuntimeLayout,
    host_ssh: &OsText,
) -> (r: Vec<Step>)
    ensures
        step_views(r@) == sshfs_steps(config, layout, host_ssh@),
{
    let words = mount_command_words(config, layout, host_ssh);
    let script = "#!/bin/sh\nexec ".to_string().concat(
        shell::quoted_command(&words).as_str(),
    ).concat(" \"$@\"\n");
    let mut steps: Vec<Step> = Vec::new();
    push_step(
        &mut steps,
        StepOf {
            action: ActionOf::Write(layout.sshfs_ssh_command.clone(), script),
            context: about_path("failed to write sshfs ssh helper ", &layout.sshfs_ssh_command),
        },
    );
    push_step(&mut steps, set_file_mode(&layout.sshfs_ssh_command, 0o700));
    assert(step_views(steps@) =~= sshfs_steps(config, layout, host_ssh@));
    steps
}

/// The steps that make the directories of Codex in the home directory of the sandbox.
pub open spec fn codex_steps(layout: &RuntimeLayout) -> Seq<StepView> {
    let target = inside(layout.codex_home@, ".codex");
    seq![
        StepOf {
            action: ActionOf::CreateDirs(inside(target, "shell_snapshots")),
            context: about("failed to create ", inside(target, "shell_snapshots")),
        },
        StepOf {
            action: ActionOf::CreateDirs(inside(target, "sessions")),
            context: about("failed to create ", inside(target, "sessions")),
        },
    ]
}

/// Makes the home directory of the sandbox: the directories of Codex in it, and the directory
/// that is then copied into it, from the first to the second path, where the Codex of the local
/// user has one.
pub fn stage_codex_home(
    layout: &RuntimeLayout,
    home: &Option<OsText>,
    codex_home_present: bool,
) -> (r: (Vec<Step>, Option<(OsText, OsText)>))
    ensures
        step_views(r.0@) == codex_steps(layout),
        match r.1 {
            Some((from, to)) => codex_home_present && codex_home_of(util::opt_bytes(*home)) == Some(
                from@,
            ) && to@ == inside(layout.codex_home@, ".codex"),
            None => !codex_home_present || *home is None,
        },
{
    let target = path::join_text(&layout.codex_home, ".codex");
    let snapshots = path::join_text(&target, "shell_snapshots");
    let sessions = path::join_text(&target, "sessions");
    let mut steps: Vec<Step> = Vec::new();
    let context = about_path("failed to create ", &snapshots);
    push_step(&mut steps, StepOf { action: ActionOf::CreateDirs(snapshots), context });
    let context = about_path("failed to create ", &sessions);
    push_step(&mut steps, StepOf { action: ActionOf::CreateDirs(sessions), context });
    assert(step_views(steps@) =~= codex_steps(layout));
    let copied = match local_codex_home(home) {
        Some(from) => if codex_home_present {
            Some((from, target))
        } else {
            None
        },
        None => None,
    };
    (steps, copied)
}

/// What becomes of one entry of a directory that is copied.
#[derive(Debug, PartialEq, Eq)]
pub enum CopyStep {
    /// It is a directory: copy it as a whole, from the first path to the second.
    Descend(OsText, OsText),
    /// It is copied.
    Copy(Step),
}

/// The step that makes the directory that a copied one goes to.
pub fn copied_dir(target: &OsText) -> (r: Step)
    ensures
        r@ == (StepView {
            action: ActionOf::CreateDirs(target@),
            context: about("failed to create ", target@),
        }),
{
    StepOf {
        action: ActionOf::CreateDirs(target.clone()),
        context: about_path("failed to create ", target),
    }
}

/// What becomes of the entry `name` of the directory `source` when that is copied to `target`.
pub fn copy_dir_recursive(source: &OsText, target: &OsText, name: &OsText, is_dir: bool) -> (r:
    CopyStep)
    ensures
        ({
            let from = path::joined(source@, name@);
            let to = path::joined(target@, name@);
            match r {
                CopyStep::Descend(a, b) => is_dir && a@ == from && b@ == to,
                CopyStep::Copy(step) => !is_dir && step@ == (StepView {
                    action: ActionOf::Copy(from, to),
                    context: "failed to copy "@ + os_text::shown(from) + " to "@ + os_text::shown(
                        to,
                    ),
                }),
            }
        }),
{
    let from = path::join(source, name);
    let to = path::join(target, name);
    if is_dir {
        return CopyStep::Descend(from, to);
    }
    let context = about_path("failed to copy ", &from).concat(" to ").concat(to.shown().as_str());
    CopyStep::Copy(StepOf { action: ActionOf::Copy(from, to), context })
}

/// The step that makes a path a link to the tool, as the sandbox shows it.
pub open spec fn link_step(link: Seq<u8>, words: &str) -> StepView {
    StepOf {
        action: ActionOf::Link(os_text::bytes_of("/codex/bin/teleport-box"), link),
        context: about(words, link),
    }
}

/// The steps that link names of a directory to the tool.
pub open spec fn link_steps(dir: Seq<u8>, list: Seq<Seq<char>>, words: &str) -> Seq<StepView> {
    list.map_values(|name: Seq<char>| link_step(path::joined(dir, encode_utf8(name)), words))
}

fn push_links(steps: &mut Vec<Step>, dir: &OsText, list: &Vec<String>, words: &str)
    ensures
        step_views(final(steps)@) == step_views(old(steps)@) + link_steps(
            dir@,
            text::views(list@),
            words,
        ),
{
    let ghost start = step_views(steps@);
    let ghost all = link_steps(dir@, text::views(list@), words);
    assert(start + all.take(0) =~= start);
    for i in 0..list.len()
        invariant
            all == link_steps(dir@, text::views(list@), words),
            step_views(steps@) == start + all.take(i as int),
    {
        let link = path::join_text(dir, list[i].as_str());
        let context = about_path(words, &link);
        let step = StepOf {
            action: ActionOf::Link(OsText::from_text("/codex/bin/teleport-box"), link),
            context,
        };
        proof {
            assert(text::views(list@)[i as int] == list@[i as int]@);
            assert(step@ == all[i as int]);
            assert(start + all.take(i + 1) =~= (start + all.take(i as int)).push(all[i as int]));
        }
        push_step(steps, step);
    }
    assert(all.take(all.len() as int) =~= all);
}

/// Links each wrapped command to the tool.
pub fn create_wrapper_symlinks(wrapper_dir: &OsText, wrapped_commands: &NameSet) -> (r: Vec<Step>)
    requires
        wrapped_commands.wf(),
    ensures
        step_views(r@) == link_steps(
            wrapper_dir@,
            names::in_order(wrapped_commands@),
            "failed to create wrapper symlink: ",
        ),
{
    let list = wrapped_commands.to_vec();
    proof {
        names::sorted_lists_are_in_order(text::views(list@));
    }
    let mut steps: Vec<Step> = Vec::new();
    assert(step_views(steps@) =~= seq![]);
    push_links(&mut steps, wrapper_dir, &list, "failed to create wrapper symlink: ");
    assert(step_views(steps@) =~= link_steps(
        wrapper_dir@,
        text::views(list@),
        "failed to create wrapper symlink: ",
    ));
    steps
}

/// The steps that make the directory in which the programs of one directory are replaced.
pub open spec fn replaced_steps(
    root: Seq<u8>,
    target: Seq<char>,
    programs: Map<Seq<char>, Set<Seq<char>>>,
) -> Seq<StepView> {
    let source = sandbox::overlay_source(root, target);
    seq![
        StepOf {
            action: ActionOf::CreateDirs(source),
            context: about("failed to create synthetic exec dir ", source),
        },
    ] + (if programs.dom().contains(target) {
        link_steps(
            source,
            names::in_order(programs[target]),
            "failed to create synthetic exec symlink ",
        )
    } else {
        seq![]
    })
}

/// The steps that make the directories in which programs are replaced.
pub open spec fn overlay_steps(
    root: Seq<u8>,
    targets: Seq<Seq<char>>,
    programs: Map<Seq<char>, Set<Seq<char>>>,
) -> Seq<StepView>
    decreases targets.len(),
{
    if targets.len() == 0 {
        seq![]
    } else {
        overlay_steps(root, targets.drop_last(), programs) + replaced_steps(
            root,
            targets.last(),
            programs,
        )
    }
}

fn push_replaced(steps: &mut Vec<Step>, root: &OsText, target: &str, profile: &RemoteProfile)
    requires
        profile.exec_names_by_dir.wf(),
    ensures
        step_views(final(steps)@) == step_views(old(steps)@) + replaced_steps(
            root@,
            target@,
            profile.exec_names_by_dir@,
        ),
{
    let ghost start = step_views(steps@);
    let source = sandbox::overlay_source_dir(root, target);
    let context = about_path("failed to create synthetic exec dir ", &source);
    push_step(steps, StepOf { action: ActionOf::CreateDirs(source.clone()), context });
    if let Some(commands) = profile.exec_names_by_dir.get(target) {
        let list = commands.to_vec();
        proof {
            names::sorted_lists_are_in_order(text::views(list@));
        }
        push_links(steps, &source, &list, "failed to create synthetic exec symlink ");
    }
    assert(step_views(steps@) =~= start + replaced_steps(
        root@,
        target@,
        profile.exec_names_by_dir@,
    ));
}

/// Makes the directories in which programs are replaced: each holds a link to the tool for every
/// program that the remote host has there.
pub fn build_exec_overlay_dirs(
    layout: &RuntimeLayout,
    config: &TeleportConfig,
    profile: &RemoteProfile,
) -> (r: Vec<Step>)
    requires
        profile.exec_names_by_dir.wf(),
    ensures
        step_views(r@) == overlay_steps(
            layout.exec_overlay_root@,
            sandbox::overlay_targets(
                profile.exec_names_by_dir.dirs(),
                text::views(config.remote_bin_dirs@),
            ),
            profile.exec_names_by_dir@,
        ),
{
    let targets = sandbox::overlay_target_dirs(config, profile);
    let ghost all = text::views(targets@);
    let ghost root = layout.exec_overlay_root@;
    let ghost programs = profile.exec_names_by_dir@;
    let mut steps: Vec<Step> = Vec::new();
    assert(step_views(steps@) =~= overlay_steps(root, all.take(0), programs));
    for i in 0..targets.len()
        invariant
            all == text::views(targets@),
            root == layout.exec_overlay_root@,
            programs == profile.exec_names_by_dir@,
            profile.exec_names_by_dir.wf(),
            step_views(steps@) == overlay_steps(root, all.take(i as int), programs),
    {
        proof {
            assert(all.take(i + 1).drop_last() =~= all.take(i as int));
            assert(all.take(i + 1).last() == targets@[i as int]@);
        }
        push_replaced(&mut steps, &layout.exec_overlay_root, targets[i].as_str(), profile);
    }
    assert(all.take(all.len() as int) =~= all);
    steps
}

proof fn lemma_inside(dir: Seq<u8>, name: &str)
    requires
        dir.len() > 0,
        name@.len() == 0 || name@[0] != '/',
    ensures
        path::within(inside(dir, name), dir),
        inside(dir, name).len() > 0,
{
    path::lemma_relative(name@);
    path::joining_stays_within(dir, os_text::bytes_of(name));
}

/// Everything that a run makes for itself lies in the directory made for it.
pub proof fn runs_stay_in_their_directory(
    layout: &RuntimeLayout,
    tempdir: Seq<u8>,
    self_binary: Seq<u8>,
)
    requires
        tempdir.len() > 0,
        laid_out(layout, tempdir, self_binary),
    ensures
        path::within(layout.remote_root_mount@, tempdir),
        path::within(layout.codex_home@, tempdir),
        path::within(layout.wrapper_dir@, tempdir),
        path::within(layout.exec_overlay_root@, tempdir),
        path::within(layout.ssh_control_dir@, tempdir),
        path::within(layout.ssh_control_socket@, tempdir),
        path::within(layout.sandbox_identity_file@, tempdir),
        path::within(layout.sandbox_known_hosts@, tempdir),
        path::within(layout.sshfs_ssh_command@, tempdir),
{
    reveal_strlit("remote-root");
    reveal_strlit("codex-home");
    reveal_strlit("wrappers");
    reveal_strlit("exec-overlay");
    reveal_strlit("ssh");
    reveal_strlit("ssh-control");
    reveal_strlit("control.sock");
    reveal_strlit("id_ed25519");
    reveal_strlit("known_hosts");
    reveal_strlit("sshfs-ssh");
    let ssh = inside(tempdir, "ssh");
    let control = inside(tempdir, "ssh-control");
    lemma_inside(tempdir, "remote-root");
    lemma_inside(tempdir, "codex-home");
    lemma_inside(tempdir, "wrappers");
    lemma_inside(tempdir, "exec-overlay");
    lemma_inside(tempdir, "ssh");
    lemma_inside(tempdir, "ssh-control");
    lemma_inside(control, "control.sock");
    lemma_inside(ssh, "id_ed25519");
    lemma_inside(ssh, "known_hosts");
    lemma_inside(ssh, "sshfs-ssh");
    path::within_is_transitive(inside(control, "control.sock"), control, tempdir);
    path::within_is_transitive(inside(ssh, "id_ed25519"), ssh, tempdir);
    path::within_is_transitive(inside(ssh, "known_hosts"), ssh, tempdir);
    path::within_is_transitive(inside(ssh, "sshfs-ssh"), ssh, tempdir);
}

/// The known hosts go back to where they came from: the file that is copied into a run before it
/// is the one that what the run made of it is copied to behind it.
pub proof fn known_hosts_come_back(layout: &RuntimeLayout, home: Option<Seq<u8>>)
    ensures
        match known_hosts_of(home) {
            Some(local) => {
                &&& known_hosts_step(Some(local), true, layout.sandbox_known_hosts@).action
                    == ActionView::Copy(local, layout.sandbox_known_hosts@)
                &&& exists|i: int|
                    0 <= i < persist_steps(layout, home).len() && (#[trigger] persist_steps(
                        layout,
                        home,
                    )[i]).action == ActionView::Copy(layout.sandbox_known_hosts@, local)
            },
            None => persist_steps(layout, home) == Seq::<StepView>::empty(),
        },
{
    if let Some(local) = known_hosts_of(home) {
        let steps = persist_steps(layout, home);
        let i = parent_steps(local).len() as int;
        assert(steps[i].action == ActionView::Copy(layout.sandbox_known_hosts@, local));
    }
}

/// Whether some step puts something at a path.
pub open spec fn fills(step: StepView, p: Seq<u8>) -> bool {
    match step.action {
        ActionOf::Copy(_, q) => p == q,
        ActionOf::Write(q, _) => p == q,
        _ => false,
    }
}

/// Whatever ssh needs in a run is readable by nobody but its owner: each file that is copied or
/// written gets a mode right after, in which others have no rights.
pub proof fn ssh_material_is_private(
    config: &TeleportConfig,
    layout: &RuntimeLayout,
    home: Option<Seq<u8>>,
    known_hosts_present: bool,
    host_ssh: Seq<u8>,
    i: int,
    p: Seq<u8>,
)
    requires
        ({
            let steps = ssh_steps(config, layout, home, known_hosts_present) + sshfs_steps(
                config,
                layout,
                host_ssh,
            );
            0 <= i < steps.len() && fills(steps[i], p)
        }),
    ensures
        ({
            let steps = ssh_steps(config, layout, home, known_hosts_present) + sshfs_steps(
                config,
                layout,
                host_ssh,
            );
            &&& i + 1 < steps.len()
            &&& steps[i + 1].action matches ActionOf::SetMode(q, mode) && q == p && mode & 0o077
                == 0
        }),
{
    assert(0o600u32 & 0o077u32 == 0) by (bit_vector);
    assert(0o700u32 & 0o077u32 == 0) by (bit_vector);
}

/// A shell reads the line with which the mount helper calls ssh as these words, whatever
/// characters paths and options hold.
pub proof fn the_mount_helper_keeps_its_words(
    config: &TeleportConfig,
    layout: &RuntimeLayout,
    host_ssh: Seq<u8>,
)
    ensures
        shell::words("exec "@ + shell::command_of(mount_words(config, layout, host_ssh))) == Some(
            seq!["exec"@] + mount_words(config, layout, host_ssh),
        ),
{
    shell::lemma_exec_keeps_words(mount_words(config, layout, host_ssh));
}

/// A file that is copied with its directory keeps its name and its place in it.
pub proof fn copies_keep_their_places(source: Seq<u8>, target: Seq<u8>, name: Seq<u8>)
    requires
        !name.contains(path::SLASH),
        path::counts(name),
    ensures
        path::components_of(path::joined(source, name)) == path::components_of(source).push(name),
        path::components_of(path::joined(target, name)) == path::components_of(target).push(name),
{
    path::joining_adds_a_component(source, name);
    path::joining_adds_a_component(target, name);
}

proof fn lemma_finite_order(set: Set<Seq<char>>)
    requires
        set.finite(),
    ensures
        names::in_order(set).to_set() == set,
{
    set.lemma_to_seq_to_set_id();
    names::every_list_has_an_order(set.to_seq());
}

/// A directory with replaced programs holds links to the tool and nothing else, and each of them
/// is named like a program that the remote host has there.
pub proof fn replaced_directories_hold_remote_programs_only(
    root: Seq<u8>,
    targets: Seq<Seq<char>>,
    programs: Map<Seq<char>, Set<Seq<char>>>,
    i: int,
)
    requires
        0 <= i < overlay_steps(root, targets, programs).len(),
        forall|d: Seq<char>| #[trigger] programs.dom().contains(d) ==> programs[d].finite(),
    ensures
        match overlay_steps(root, targets, programs)[i].action {
            ActionOf::CreateDirs(dir) => exists|d: Seq<char>| #[trigger]
                targets.contains(d) && dir == sandbox::overlay_source(root, d),
            ActionOf::Link(tool, link) => tool == os_text::bytes_of("/codex/bin/teleport-box")
                && exists|d: Seq<char>, name: Seq<char>| #[trigger]
                targets.contains(d) && programs.dom().contains(d)
                    && #[trigger] programs[d].contains(name) && link == path::joined(
                    sandbox::overlay_source(root, d),
                    encode_utf8(name),
                ),
            _ => false,
        },
    decreases targets.len(),
{
    let all = overlay_steps(root, targets, programs);
    let init = targets.drop_last();
    let front = overlay_steps(root, init, programs);
    let target = targets.last();
    if i < front.len() {
        replaced_directories_hold_remote_programs_only(root, init, programs, i);
        assert(all[i] == front[i]);
        assert forall|d: Seq<char>| #[trigger] init.contains(d) implies targets.contains(d) by {
            let k = choose|k: int| 0 <= k < init.len() && init[k] == d;
            assert(targets[k] == d);
        }
    } else {
        assert(targets[targets.len() - 1] == target);
        assert(targets.contains(target));
        let last = replaced_steps(root, target, programs);
        let j = i - front.len();
        assert(all[i] == last[j]);
        if j > 0 {
            let list = names::in_order(programs[target]);
            let name = list[j - 1];
            lemma_finite_order(programs[target]);
            assert(list.to_set() == programs[target]);
            assert(list.to_set().contains(name));
            assert(programs[target].contains(name));
        }
    }
}

/// Every program that the remote host has in a replaced directory is there in the sandbox, as a
/// link to the tool.
pub proof fn every_remote_program_is_replaced(
    root: Seq<u8>,
    targets: Seq<Seq<char>>,
    programs: Map<Seq<char>, Set<Seq<char>>>,
    target: Seq<char>,
    name: Seq<char>,
)
    requires
        targets.contains(target),
        programs.dom().contains(target),
        programs[target].contains(name),
        programs[target].finite(),
    ensures
        overlay_steps(root, targets, programs).contains(
            link_step(
                path::joined(sandbox::overlay_source(root, target), encode_utf8(name)),
                "failed to create synthetic exec symlink ",
            ),
        ),
    decreases targets.len(),
{
    let all = overlay_steps(root, targets, programs);
    let init = targets.drop_last();
    let front = overlay_steps(root, init, programs);
    let step = link_step(
        path::joined(sandbox::overlay_source(root, target), encode_utf8(name)),
        "failed to create synthetic exec symlink ",
    );
    if targets.last() == target {
        let list = names::in_order(programs[target]);
        lemma_finite_order(programs[target]);
        assert(list.to_set().contains(name));
        assert(list.contains(name));
        let k = choose|k: int| 0 <= k < list.len() && list[k] == name;
        assert(replaced_steps(root, target, programs)[k + 1] == step);
        assert(all[front.len() + k + 1] == step);
    } else {
        let k = choose|k: int| 0 <= k < targets.len() && targets[k] == target;
        assert(init[k] == target);
        every_remote_program_is_replaced(root, init, programs, target, name);
        let m = choose|m: int| 0 <= m < front.len() && front[m] == step;
        assert(all[m] == step);
    }
}

proof fn lemma_every_name_finite(lines: Seq<Seq<char>>)
    ensures
        ExecIndex::every_name(probe::programs(lines)).finite(),
    decreases lines.len(),
{
    let all = ExecIndex::every_name(probe::programs(lines));
    if lines.len() == 0 {
        assert(all =~= Set::empty());
    } else {
        let front = probe::programs(lines.drop_last());
        let before = ExecIndex::every_name(front);
        let line = lines.last();
        lemma_every_name_finite(lines.drop_last());
        if probe::is_entry(line) {
            let k = text::first_at(line, '|');
            let dir = line.take(k);
            let name = line.skip(k + 1);
            let now = probe::programs(lines);
            assert forall|n: Seq<char>| #[trigger] all.contains(n) implies before.insert(
                name,
            ).contains(n) by {
                let d = choose|d: Seq<char>| #[trigger] now.dom().contains(d) && now[d].contains(n);
                if n != name {
                    assert(front.dom().contains(d));
                    assert(front[d].contains(n));
                }
            }
            assert(all.subset_of(before.insert(name)));
            vstd::set_lib::lemma_len_subset(all, before.insert(name));
        }
    }
}

/// Every link that is made, for a wrapped command or for a replaced program, leads to the tool,
/// and its name is that of the remote shell, of a helper, or of a program that the remote host
/// printed. What the local host has in a directory of the remote search path is not found there
/// either: see `bwrap::local_programs_are_denied`. So a program that the remote host does not have
/// fails instead of falling back to a local one.
pub proof fn links_stand_for_remote_programs(
    shell_name: Seq<char>,
    lines: Seq<Seq<char>>,
    wrapper_dir: Seq<u8>,
    root: Seq<u8>,
    targets: Seq<Seq<char>>,
    tool: Seq<u8>,
    link: Seq<u8>,
    i: int,
)
    requires
        ({
            let programs = probe::programs(lines);
            let steps = link_steps(
                wrapper_dir,
                names::in_order(probe::wrapped_names(shell_name, programs)),
                "failed to create wrapper symlink: ",
            ) + overlay_steps(root, targets, programs);
            0 <= i < steps.len() && steps[i].action == ActionView::Link(tool, link)
        }),
    ensures
        tool == os_text::bytes_of("/codex/bin/teleport-box"),
        exists|dir: Seq<u8>, name: Seq<char>|
            {
                &&& link == #[trigger] path::joined(dir, encode_utf8(name))
                &&& dir == wrapper_dir || exists|d: Seq<char>| #[trigger]
                    targets.contains(d) && dir == sandbox::overlay_source(root, d)
                &&& name == shell_name || name == "teleport-pull"@ || name == "teleport-push"@
                    || exists|d: Seq<char>|
                    d.len() > 0 && #[trigger] lines.contains(d.push('|') + name)
            },
{
    let programs = probe::programs(lines);
    let wrapped = probe::wrapped_names(shell_name, programs);
    let list = names::in_order(wrapped);
    let first = link_steps(wrapper_dir, list, "failed to create wrapper symlink: ");
    let second = overlay_steps(root, targets, programs);
    let steps = first + second;
    if i < first.len() {
        let helpers = config::literals(config::SANDBOX_HELPER_COMMANDS@);
        lemma_every_name_finite(lines);
        assert(wrapped.finite()) by {
            assert(helpers.to_set().finite()) by {
                vstd::seq_lib::seq_to_set_is_finite(helpers);
            }
        }
        lemma_finite_order(wrapped);
        assert(steps[i] == first[i]);
        assert(list.to_set().contains(list[i]));
        probe::only_remote_commands_are_wrapped(shell_name, lines, list[i]);
        assert(link == path::joined(wrapper_dir, encode_utf8(list[i])));
    } else {
        let j = i - first.len();
        assert(steps[i] == second[j]);
        assert forall|d: Seq<char>| #[trigger] programs.dom().contains(
            d,
        ) implies programs[d].finite() by {
            probe::programs_are_finite(lines, d);
        }
        replaced_directories_hold_remote_programs_only(root, targets, programs, j);
        let (d, name) = choose|d: Seq<char>, name: Seq<char>| #[trigger]
            targets.contains(d) && programs.dom().contains(d)
                && #[trigger] programs[d].contains(name) && link == path::joined(
                sandbox::overlay_source(root, d),
                encode_utf8(name),
            );
        assert(ExecIndex::every_name(programs).contains(name));
        probe::only_remote_commands_are_wrapped(shell_name, lines, name);
        assert(link == path::joined(sandbox::overlay_source(root, d), encode_utf8(name)));
    }
}

/// Every option is passed on, behind `-o`, in order.
pub proof fn every_mount_option_is_passed_on(options: Seq<Seq<char>>, i: int)
    ensures
        option_words(options).len() == 2 * options.len(),
        0 <= i < options.len() ==> option_words(options)[2 * i] == "-o"@,
        0 <= i < options.len() ==> option_words(options)[2 * i + 1] == options[i],
    decreases options.len(),
{
    if options.len() > 0 {
        let init = options.drop_last();
        every_mount_option_is_passed_on(init, i);
        if 0 <= i < init.len() {
            assert(option_words(options)[2 * i] == option_words(init)[2 * i]);
            assert(option_words(options)[2 * i + 1] == option_words(init)[2 * i + 1]);
        }
    }
}

/// The mount calls ssh with all that was asked for, each at its place and nothing else: no
/// configuration file, the shared connection, the identity file, the port, the batch mode, the
/// known hosts and every option in order.
pub proof fn mounts_use_all_that_was_asked_for(
    config: &TeleportConfig,
    layout: &RuntimeLayout,
    host_ssh: Seq<u8>,
    i: int,
)
    ensures
        ({
            let list = mount_words(config, layout, host_ssh);
            let at_port: int = 9 + (if config.identity_file is Some {
                2int
            } else {
                0
            });
            let at_batch: int = at_port + (if config.port is Some {
                2int
            } else {
                0
            });
            let at_hosts: int = at_batch + (if config.batch_mode {
                2int
            } else {
                0
            });
            let at_options = at_hosts + 4;
            &&& list.len() == at_options + 2 * config.ssh_options@.len()
            &&& list[0] == os_text::shown(host_ssh)
            &&& list[1] == "-F"@
            &&& list[2] == "/dev/null"@
            &&& list[3] == "-S"@
            &&& list[4] == os_text::shown(layout.ssh_control_socket@)
            &&& list[5] == "-o"@
            &&& list[6] == "ControlMaster=auto"@
            &&& list[7] == "-o"@
            &&& list[8] == "ControlPersist=no"@
            &&& config.identity_file is Some ==> list[9] == "-i"@ && list[10] == os_text::shown(
                layout.sandbox_identity_file@,
            )
            &&& config.port matches Some(p) ==> list[at_port] == "-p"@ && list[at_port + 1]
                == decimal::decimal(p as nat)
            &&& config.batch_mode ==> list[at_batch] == "-o"@ && list[at_batch + 1]
                == "BatchMode=yes"@
            &&& list[at_hosts] == "-o"@
            &&& list[at_hosts + 1] == "StrictHostKeyChecking=accept-new"@
            &&& list[at_hosts + 2] == "-o"@
            &&& list[at_hosts + 3] == "UserKnownHostsFile="@ + os_text::shown(
                layout.sandbox_known_hosts@,
            )
            &&& 0 <= i < config.ssh_options@.len() ==> list[at_options + 2 * i] == "-o"@
                && list[at_options + 2 * i + 1] == config.ssh_options@[i]@
        }),
{
    let given = text::views(config.ssh_options@);
    let list = mount_words(config, layout, host_ssh);
    let options = option_words(given);
    let n = list.len() - options.len();
    every_mount_option_is_passed_on(given, i);
    if 0 <= i < given.len() {
        assert(list[n + 2 * i] == options[2 * i]);
        assert(list[n + 2 * i + 1] == options[2 * i + 1]);
    }
}

/// The script with which sshfs calls ssh: it is written where the run has it, only its owner may
/// run it, and it runs ssh in its own place with these words and then its own arguments.
pub proof fn the_mount_helper_runs_ssh(
    config: &TeleportConfig,
    layout: &RuntimeLayout,
    host_ssh: Seq<u8>,
)
    ensures
        ({
            let steps = sshfs_steps(config, layout, host_ssh);
            &&& steps.len() == 2
            &&& exists|line: Seq<char>|
                {
                    &&& #[trigger] shell::words(line) == Some(
                        seq!["exec"@] + mount_words(config, layout, host_ssh),
                    )
                    &&& steps[0].action == ActionView::Write(
                        layout.sshfs_ssh_command@,
                        "#!/bin/sh\n"@ + line + " \"$@\"\n"@,
                    )
                }
            &&& steps[1].action == ActionView::SetMode(layout.sshfs_ssh_command@, 0o700)
        }),
{
    let list = mount_words(config, layout, host_ssh);
    let line = "exec "@ + shell::command_of(list);
    shell::lemma_exec_keeps_words(list);
    reveal_strlit("#!/bin/sh\nexec ");
    reveal_strlit("#!/bin/sh\n");
    reveal_strlit("exec ");
    assert("#!/bin/sh\nexec "@ =~= "#!/bin/sh\n"@ + "exec "@);
    assert("#!/bin/sh\n"@ + line + " \"$@\"\n"@ =~= exec_script(list));
    assert(shell::words(line) is Some);
}

/// Every name gets one link to the tool, in order.
pub proof fn every_name_is_linked(dir: Seq<u8>, list: Seq<Seq<char>>, words: &str, i: int)
    ensures
        link_steps(dir, list, words).len() == list.len(),
        0 <= i < list.len() ==> link_steps(dir, list, words)[i].action == ActionView::Link(
            encode_utf8("/codex/bin/teleport-box"@),
            path::joined(dir, encode_utf8(list[i])),
        ),
        0 <= i < list.len() ==> link_steps(dir, list, words)[i].context == words@ + os_text::shown(
            path::joined(dir, encode_utf8(list[i])),
        ),
{
}

/// Replaced directories are made one by one: for two lists the steps are those for the first and
/// then those for the second, and for one directory it is created and then filled with a link for
/// each program.
pub proof fn replaced_directories_are_made_one_by_one(
    root: Seq<u8>,
    a: Seq<Seq<char>>,
    b: Seq<Seq<char>>,
    target: Seq<char>,
    programs: Map<Seq<char>, Set<Seq<char>>>,
)
    ensures
        overlay_steps(root, a + b, programs) == overlay_steps(root, a, programs) + overlay_steps(
            root,
            b,
            programs,
        ),
        overlay_steps(root, seq![], programs) == Seq::<StepView>::empty(),
        ({
            let steps = overlay_steps(root, seq![target], programs);
            let dir = sandbox::overlay_source(root, target);
            let list = if programs.dom().contains(target) {
                names::in_order(programs[target])
            } else {
                seq![]
            };
            &&& steps.len() == 1 + list.len()
            &&& steps[0].action == ActionView::CreateDirs(dir)
            &&& steps[0].context == "failed to create synthetic exec dir "@ + os_text::shown(dir)
            &&& steps.skip(1) == link_steps(dir, list, "failed to create synthetic exec symlink ")
        }),
    decreases b.len(),
{
    let none = Seq::<Seq<char>>::empty();
    assert(overlay_steps(root, none, programs) =~= seq![]);
    assert(seq![target].drop_last() =~= none);
    let steps = overlay_steps(root, seq![target], programs);
    assert(steps =~= replaced_steps(root, target, programs));
    let list = if programs.dom().contains(target) {
        names::in_order(programs[target])
    } else {
        seq![]
    };
    assert(steps.skip(1) =~= link_steps(
        sandbox::overlay_source(root, target),
        list,
        "failed to create synthetic exec symlink ",
    ));
    if b.len() == 0 {
        assert(a + b =~= a);
        assert(overlay_steps(root, a, programs) + overlay_steps(root, b, programs)
            =~= overlay_steps(root, a, programs));
    } else {
        replaced_directories_are_made_one_by_one(root, a, b.drop_last(), target, programs);
        assert((a + b).drop_last() =~= a + b.drop_last());
        assert(overlay_steps(root, a + b, programs) =~= overlay_steps(root, a, programs)
            + overlay_steps(root, b, programs));
    }
}

/// Every wrapped command gets a link to the tool in the directory of the wrapped commands.
pub proof fn every_wrapped_command_is_linked(wrapper_dir: Seq<u8>, wrapped: Set<Seq<char>>, name: Seq<
    char,
>)
    requires
        wrapped.finite(),
        wrapped.contains(name),
    ensures
        link_steps(
            wrapper_dir,
            names::in_order(wrapped),
            "failed to create wrapper symlink: ",
        ).contains(
            StepOf {
                action: ActionView::Link(
                    encode_utf8("/codex/bin/teleport-box"@),
                    path::joined(wrapper_dir, encode_utf8(name)),
                ),
                context: "failed to create wrapper symlink: "@ + os_text::shown(
                    path::joined(wrapper_dir, encode_utf8(name)),
                ),
            },
        ),
{
    let list = names::in_order(wrapped);
    lemma_finite_order(wrapped);
    assert(list.to_set().contains(name));
    assert(list.contains(name));
    let i = choose|i: int| 0 <= i < list.len() && list[i] == name;
    let steps = link_steps(wrapper_dir, list, "failed to create wrapper symlink: ");
    assert(steps.contains(steps[i]));
}

/// What ssh needs is brought into a run: the identity file where one was asked for, and the known
/// hosts of the local user, or an empty file where there are none. Each then gets its mode.
pub proof fn ssh_material_is_brought_in(
    config: &TeleportConfig,
    layout: &RuntimeLayout,
    home: Option<Seq<u8>>,
    known_hosts_present: bool,
)
    ensures
        ({
            let steps = ssh_steps(config, layout, home, known_hosts_present);
            let n: int = if config.identity_file is Some {
                2
            } else {
                0
            };
            &&& steps.len() == n + 2
            &&& config.identity_file matches Some(file) ==> {
                &&& steps[0].action == ActionView::Copy(file@, layout.sandbox_identity_file@)
                &&& steps[1].action == ActionView::SetMode(layout.sandbox_identity_file@, 0o600)
            }
            &&& home matches Some(h) ==> {
                let local = path::joined(
                    path::joined(h, encode_utf8(".ssh"@)),
                    encode_utf8("known_hosts"@),
                );
                known_hosts_present ==> steps[n].action == ActionView::Copy(
                    local,
                    layout.sandbox_known_hosts@,
                )
            }
            &&& home is None || !known_hosts_present ==> steps[n].action == ActionView::Write(
                layout.sandbox_known_hosts@,
                seq![],
            )
            &&& steps[n + 1].action == ActionView::SetMode(layout.sandbox_known_hosts@, 0o600)
        }),
{
}

/// What a run learned of known hosts is copied back, last but for the mode of the file; the
/// directory of the file is made first.
pub proof fn known_hosts_are_copied_back(layout: &RuntimeLayout, home: Seq<u8>)
    ensures
        ({
            let local = path::joined(
                path::joined(home, encode_utf8(".ssh"@)),
                encode_utf8("known_hosts"@),
            );
            let steps = persist_steps(layout, Some(home));
            let n = steps.len();
            &&& steps.len() >= 2
            &&& steps[n - 2].action == ActionView::Copy(layout.sandbox_known_hosts@, local)
            &&& steps[n - 1].action == ActionView::SetMode(local, 0o600)
            &&& path::parent_of(local) is None ==> n == 2
            &&& path::parent_of(local) matches Some(dir) ==> n == 3 && steps[0].action
                == ActionView::CreateDirs(dir)
        }),
{
}

/// The home directory of the sandbox has the directories of Codex.
pub proof fn codex_has_its_directories(layout: &RuntimeLayout)
    ensures
        ({
            let home = path::components_of(layout.codex_home@);
            let steps = codex_steps(layout);
            &&& steps.len() == 2
            &&& steps[0].action matches ActionOf::CreateDirs(dir) && path::components_of(dir)
                == home + seq![encode_utf8(".codex"@), encode_utf8("shell_snapshots"@)]
            &&& steps[1].action matches ActionOf::CreateDirs(dir) && path::components_of(dir)
                == home + seq![encode_utf8(".codex"@), encode_utf8("sessions"@)]
        }),
{
    let home = path::components_of(layout.codex_home@);
    let target = inside(layout.codex_home@, ".codex");
    reveal_strlit(".codex");
    reveal_strlit("shell_snapshots");
    reveal_strlit("sessions");
    lemma_inside_adds(layout.codex_home@, ".codex");
    lemma_inside_adds(target, "shell_snapshots");
    lemma_inside_adds(target, "sessions");
    assert(home.push(encode_utf8(".codex"@)).push(encode_utf8("shell_snapshots"@)) =~= home + seq![
        encode_utf8(".codex"@),
        encode_utf8("shell_snapshots"@),
    ]);
    assert(home.push(encode_utf8(".codex"@)).push(encode_utf8("sessions"@)) =~= home + seq![
        encode_utf8(".codex"@),
        encode_utf8("sessions"@),
    ]);
}

/// A plain name that is put into a directory is one more component.
proof fn lemma_inside_adds(dir: Seq<u8>, name: &str)
    requires
        vstd::utf8::is_ascii_chars(name@),
        name@.len() > 1,
        name@ != seq!['.', '.'],
        !name@.contains('/'),
    ensures
        path::components_of(inside(dir, name)) == path::components_of(dir).push(encode_utf8(name@)),
{
    let bytes = encode_utf8(name@);
    vstd::utf8::is_ascii_chars_encode_utf8(name@);
    assert forall|i: int| 0 <= i < bytes.len() implies bytes[i] != path::SLASH by {
        assert(bytes[i] == name@[i] as u8);
        assert(name@.contains(name@[i]));
    }
    if bytes == seq![path::DOT, path::DOT] {
        assert(name@ =~= seq!['.', '.']);
    }
    path::joining_adds_a_component(dir, bytes);
}

/// Each file and directory of a run is at its own place in the directory that was made for it, and
/// each directory is made.
pub proof fn everything_of_a_run_has_its_place(
    layout: &RuntimeLayout,
    tempdir: Seq<u8>,
    self_binary: Seq<u8>,
)
    requires
        laid_out(layout, tempdir, self_binary),
    ensures
        ({
            let top = path::components_of(tempdir);
            let ssh = top.push(encode_utf8("ssh"@));
            let control = top.push(encode_utf8("ssh-control"@));
            let steps = dir_steps(runtime_dirs(tempdir));
            &&& layout.self_binary@ == self_binary
            &&& path::components_of(layout.remote_root_mount@) == top.push(
                encode_utf8("remote-root"@),
            )
            &&& path::components_of(layout.codex_home@) == top.push(encode_utf8("codex-home"@))
            &&& path::components_of(layout.wrapper_dir@) == top.push(encode_utf8("wrappers"@))
            &&& path::components_of(layout.exec_overlay_root@) == top.push(
                encode_utf8("exec-overlay"@),
            )
            &&& path::components_of(layout.ssh_control_dir@) == control
            &&& path::components_of(layout.ssh_control_socket@) == control.push(
                encode_utf8("control.sock"@),
            )
            &&& path::components_of(layout.sandbox_identity_file@) == ssh.push(
                encode_utf8("id_ed25519"@),
            )
            &&& path::components_of(layout.sandbox_known_hosts@) == ssh.push(
                encode_utf8("known_hosts"@),
            )
            &&& path::components_of(layout.sshfs_ssh_command@) == ssh.push(encode_utf8("sshfs-ssh"@))
            &&& steps.len() == 6
            &&& steps[0].action == ActionView::CreateDirs(layout.remote_root_mount@)
            &&& steps[1].action == ActionView::CreateDirs(layout.codex_home@)
            &&& steps[2].action == ActionView::CreateDirs(layout.wrapper_dir@)
            &&& steps[3].action == ActionView::CreateDirs(layout.exec_overlay_root@)
            &&& steps[4].action matches ActionOf::CreateDirs(dir) && path::components_of(dir) == ssh
            &&& steps[5].action == ActionView::CreateDirs(layout.ssh_control_dir@)
        }),
{
    reveal_strlit("remote-root");
    reveal_strlit("codex-home");
    reveal_strlit("wrappers");
    reveal_strlit("exec-overlay");
    reveal_strlit("ssh");
    reveal_strlit("ssh-control");
    reveal_strlit("control.sock");
    reveal_strlit("id_ed25519");
    reveal_strlit("known_hosts");
    reveal_strlit("sshfs-ssh");
    let ssh = inside(tempdir, "ssh");
    let control = inside(tempdir, "ssh-control");
    lemma_inside_adds(tempdir, "remote-root");
    lemma_inside_adds(tempdir, "codex-home");
    lemma_inside_adds(tempdir, "wrappers");
    lemma_inside_adds(tempdir, "exec-overlay");
    lemma_inside_adds(tempdir, "ssh");
    lemma_inside_adds(tempdir, "ssh-control");
    lemma_inside_adds(control, "control.sock");
    lemma_inside_adds(ssh, "id_ed25519");
    lemma_inside_adds(ssh, "known_hosts");
    lemma_inside_adds(ssh, "sshfs-ssh");
}

/// The files of the local user lie in the home directory; without one there are none.
pub proof fn files_of_the_user_lie_at_home(home: Seq<u8>)
    ensures
        known_hosts_of(None) is None,
        codex_home_of(None) is None,
        known_hosts_of(Some(home)) matches Some(file) && path::components_of(file)
            == path::components_of(home) + seq![encode_utf8(".ssh"@), encode_utf8("known_hosts"@)],
        codex_home_of(Some(home)) matches Some(dir) && path::components_of(dir)
            == path::components_of(home) + seq![encode_utf8(".codex"@)],
{
    let top = path::components_of(home);
    reveal_strlit(".ssh");
    reveal_strlit(".codex");
    reveal_strlit("known_hosts");
    lemma_inside_adds(home, ".codex");
    lemma_inside_adds(home, ".ssh");
    lemma_inside_adds(inside(home, ".ssh"), "known_hosts");
    assert(top.push(encode_utf8(".codex"@)) =~= top + seq![encode_utf8(".codex"@)]);
    assert(top.push(encode_utf8(".ssh"@)).push(encode_utf8("known_hosts"@)) =~= top + seq![
        encode_utf8(".ssh"@),
        encode_utf8("known_hosts"@),
    ]);
}

proof fn lemma_about(words: &str, p: Seq<u8>)
    ensures
        os_text::shown(p).is_suffix_of(about(words, p)),
{
    let said = about(words, p);
    let shown = os_text::shown(p);
    assert(said.subrange(said.len() - shown.len(), said.len() as int) =~= shown);
}

/// Where something fails, the file is named that it failed on.
pub proof fn failures_name_the_file(
    config: &TeleportConfig,
    layout: &RuntimeLayout,
    home: Seq<u8>,
    host_ssh: Seq<u8>,
    p: Seq<u8>,
    mode: u32,
    i: int,
)
    ensures
        os_text::shown(p).is_suffix_of(mode_step(p, mode).context),
        config.identity_file matches Some(file) ==> os_text::shown(file@).is_suffix_of(
            ssh_steps(config, layout, Some(home), true)[0].context,
        ),
        ({
            let local = known_hosts_of(Some(home))->0;
            let brought = known_hosts_step(Some(local), true, p);
            let back = persist_steps(layout, Some(home));
            &&& os_text::shown(local).is_suffix_of(brought.context)
            &&& 0 <= i < back.len() ==> os_text::shown(local).is_suffix_of(back[i].context)
        }),
        os_text::shown(layout.sshfs_ssh_command@).is_suffix_of(
            sshfs_steps(config, layout, host_ssh)[0].context,
        ),
        0 <= i < 2 ==> (codex_steps(layout)[i].action matches ActionOf::CreateDirs(dir)
            && os_text::shown(dir).is_suffix_of(codex_steps(layout)[i].context)),
{
    let local = known_hosts_of(Some(home))->0;
    let target = inside(layout.codex_home@, ".codex");
    lemma_about("failed to set permissions on ", p);
    lemma_about("failed to set permissions on ", local);
    if let Some(file) = config.identity_file {
        lemma_about("failed to copy identity file into runtime dir: ", file@);
    }
    lemma_about("failed to copy local known_hosts into runtime dir: ", local);
    lemma_about("failed to create parent directory for ", local);
    lemma_about("failed to persist runtime known_hosts to ", local);
    lemma_about("failed to write sshfs ssh helper ", layout.sshfs_ssh_command@);
    lemma_about("failed to create ", inside(target, "shell_snapshots"));
    lemma_about("failed to create ", inside(target, "sessions"));
}

/// Every step of a list is seen for what it holds, in order.
pub proof fn every_step_is_viewed(list: Seq<Step>, i: int)
    ensures
        step_views(list).len() == list.len(),
        0 <= i < list.len() ==> step_views(list)[i] == list[i]@,
{
}

} // verus!
