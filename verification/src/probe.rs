//! Finding out about the remote host: which shell it has, what its search path is, and which
//! programs lie there.
use vstd::prelude::*;
use vstd::utf8::encode_utf8;
use crate::config;
use crate::config::{RemoteProfile, RuntimeLayout, TeleportConfig};
use crate::error::{Error, ErrorView};
use crate::names;
use crate::names::{ExecIndex, NameSet};
use crate::os_text;
use crate::os_text::OsText;
use crate::path;
use crate::shell;
use crate::text;
use crate::util;
use crate::util::ProcessStatus;
use crate::wrapper;
use crate::wrapper::CommandLine;

verus! {

/// The search path of a remote host that gives none.
pub const DEFAULT_REMOTE_PATH: &'static str =
    "/usr/local/sbin:/usr/local/bin:/usr/sbin:/usr/bin:/sbin:/bin";

/// The shells that a remote host may have, in the order in which they are tried.
pub const SHELL_CANDIDATES: [&'static str; 6] = [
    "/bin/sh",
    "/bin/ash",
    "/bin/dash",
    "/bin/bash",
    "/usr/bin/bash",
    "sh",
];

/// A list with each of `more` that it does not have yet at its end.
pub open spec fn with_missing(list: Seq<Seq<char>>, more: Seq<Seq<char>>) -> Seq<Seq<char>>
    decreases more.len(),
{
    if more.len() == 0 {
        list
    } else {
        let front = with_missing(list, more.drop_last());
        if front.contains(more.last()) {
            front
        } else {
            front.push(more.last())
        }
    }
}

/// The shells to try: the one that was asked for, if any, then the usual ones.
pub open spec fn candidates_for(remote_shell: Option<Seq<char>>) -> Seq<Seq<char>> {
    with_missing(
        match remote_shell {
            Some(shell) => seq![shell],
            None => seq![],
        },
        config::literals(SHELL_CANDIDATES@),
    )
}

/// The shells to try, in order.
pub fn shell_candidates(config: &TeleportConfig) -> (r: Vec<String>)
    ensures
        text::views(r@) == candidates_for(util::opt_text(config.remote_shell)),
{
    let mut out: Vec<String> = Vec::new();
    if let Some(shell) = &config.remote_shell {
        out.push(shell.clone());
    }
    let ghost start = text::views(out@);
    let ghost more = config::literals(SHELL_CANDIDATES@);
    assert(start =~= (match util::opt_text(config.remote_shell) {
        Some(shell) => seq![shell],
        None => seq![],
    }));
    assert(more.take(0) =~= seq![]);
    for i in 0..SHELL_CANDIDATES.len()
        invariant
            more == config::literals(SHELL_CANDIDATES@),
            text::views(out@) == with_missing(start, more.take(i as int)),
    {
        let candidate = SHELL_CANDIDATES[i];
        proof {
            assert(more.take(i + 1).drop_last() =~= more.take(i as int));
            assert(more.take(i + 1).last() == candidate@);
        }
        if !text::has_text(&out, candidate) {
            let copy = candidate.to_string();
            proof {
                text::lemma_views_push(out@, copy);
            }
            out.push(copy);
        }
    }
    assert(more.take(more.len() as int) =~= more);
    out
}

/// What to do next to find a remote shell.
#[derive(Debug, PartialEq, Eq)]
pub enum ShellStep {
    /// Try this one.
    Try(String),
    /// This one works.
    Found(String),
}

/// Goes on with the search for a remote shell, given which of the first candidates worked: the
/// first that did is taken, and while none did the next is tried.
pub fn probe_shell_path(candidates: &Vec<String>, worked: &Vec<bool>) -> (r: Result<
    ShellStep,
    Error,
>)
    ensures
        ({
            let k = text::first_at(worked@, true);
            match r {
                Ok(ShellStep::Found(shell)) => k < worked@.len() && k < candidates@.len()
                    && shell@ == candidates@[k]@,
                Ok(ShellStep::Try(shell)) => k == worked@.len() && k < candidates@.len() && shell@
                    == candidates@[k]@,
                Err(e) => k >= candidates@.len() && e@ == ErrorView::NoRemoteShell,
            }
        }),
{
    let mut i: usize = 0;
    while i < worked.len() && i < candidates.len() && !worked[i]
        invariant
            i <= worked@.len(),
            i <= candidates@.len(),
            forall|k: int| 0 <= k < i ==> !#[trigger] worked@[k],
        decreases worked@.len() - i,
    {
        i = i + 1;
    }
    proof {
        text::lemma_first_at(worked@, true);
        let k = text::first_at(worked@, true);
        if k < i {
            assert(worked@[k]);
        }
    }
    if i == candidates.len() {
        Err(Error::NoRemoteShell)
    } else if i < worked.len() {
        Ok(ShellStep::Found(candidates[i].clone()))
    } else {
        Ok(ShellStep::Try(candidates[i].clone()))
    }
}

/// The arguments of the ssh command that runs a script on the remote host.
pub open spec fn probe_args(
    config: &TeleportConfig,
    layout: &RuntimeLayout,
    shell_path: Seq<char>,
    script: Seq<char>,
) -> Seq<Seq<u8>> {
    wrapper::connection_args(
        config.destination(),
        config.port,
        wrapper::staged_identity(config, layout),
        Some(layout.sandbox_known_hosts@),
        Some(layout.ssh_control_socket@),
        config.batch_mode,
        text::views(config.ssh_options@),
    ) + seq![
        os_text::bytes_of("--"),
        encode_utf8(wrapper::shell_command(shell_path, script)),
    ]
}

/// The command that runs a script on the remote host.
pub fn probe_command(
    config: &TeleportConfig,
    layout: &RuntimeLayout,
    found_ssh: &Option<OsText>,
    shell_path: &str,
    script: &str,
) -> (r: CommandLine)
    ensures
        r.program@ == wrapper::host_ssh_program(util::opt_bytes(*found_ssh)),
        r.args@ == probe_args(config, layout, shell_path@, script@),
{
    let mut command = wrapper::ssh_command(config, layout, found_ssh);
    command.args.push_pair("--", wrapper::shell_with_command(shell_path, script).as_str());
    command
}

/// The command that tries a shell: it is to do nothing, and to do it well.
pub fn shell_test_command(
    config: &TeleportConfig,
    layout: &RuntimeLayout,
    found_ssh: &Option<OsText>,
    candidate: &str,
) -> (r: CommandLine)
    ensures
        r.program@ == wrapper::host_ssh_program(util::opt_bytes(*found_ssh)),
        r.args@ == probe_args(config, layout, candidate@, ":"@),
{
    probe_command(config, layout, found_ssh, candidate, ":")
}

/// What a script printed, without white space around it, if it went well; otherwise its error
/// output says why not.
pub fn run_probe_capture(status: ProcessStatus, stdout: &OsText, stderr: &OsText) -> (r: Result<
    String,
    Error,
>)
    ensures
        match r {
            Ok(output) => status.code == Some(0i32) && output@ == text::trimmed(
                os_text::shown(stdout@),
            ),
            Err(e) => status.code != Some(0i32) && e@ == ErrorView::ProbeFailed(
                text::trimmed(os_text::shown(stderr@)),
            ),
        },
{
    if status.success() {
        Ok(text::trim(stdout.shown().as_str()))
    } else {
        Err(Error::ProbeFailed(text::trim(stderr.shown().as_str())))
    }
}

/// The pieces that are not all white space, without the white space around them.
pub open spec fn entries(pieces: Seq<Seq<char>>) -> Seq<Seq<char>>
    decreases pieces.len(),
{
    if pieces.len() == 0 {
        seq![]
    } else {
        let front = entries(pieces.drop_last());
        let entry = text::trimmed(pieces.last());
        if entry.len() > 0 {
            front.push(entry)
        } else {
            front
        }
    }
}

/// The directories of a search path; those of the default where it has none.
pub open spec fn path_dirs(output: Seq<char>) -> Seq<Seq<char>> {
    let found = entries(text::split(output, ':'));
    if found.len() == 0 {
        text::split(DEFAULT_REMOTE_PATH@, ':')
    } else {
        found
    }
}

/// The directories of a search path.
pub fn split_remote_path(remote_path_output: &str) -> (r: Vec<String>)
    ensures
        text::views(r@) == path_dirs(remote_path_output@),
{
    let pieces = text::split_text(remote_path_output, ':');
    let ghost all = text::views(pieces@);
    let mut out: Vec<String> = Vec::new();
    assert(text::views(out@) =~= entries(all.take(0)));
    for i in 0..pieces.len()
        invariant
            all == text::views(pieces@),
            text::views(out@) == entries(all.take(i as int)),
    {
        proof {
            assert(all.take(i + 1).drop_last() =~= all.take(i as int));
            assert(all.take(i + 1).last() == pieces@[i as int]@);
        }
        let entry = text::trim(pieces[i].as_str());
        if !entry.as_str().is_empty() {
            proof {
                text::lemma_views_push(out@, entry);
            }
            out.push(entry);
        }
    }
    assert(all.take(all.len() as int) =~= all);
    assert(text::views(out@).len() == out@.len());
    if out.len() == 0 {
        out = text::split_text(DEFAULT_REMOTE_PATH, ':');
    }
    out
}

/// The directories to search: those of the search path and those that were asked for, in order,
/// each once.
pub open spec fn searched(remote_path: Seq<Seq<char>>, extra: Seq<Seq<char>>) -> Set<Seq<char>> {
    remote_path.to_set().union(extra.to_set())
}

/// The directories to search, in order, each once.
pub fn exec_dirs(remote_path: &Vec<String>, remote_bin_dirs: &Vec<String>) -> (r: Vec<String>)
    ensures
        names::sorted(text::views(r@)),
        text::views(r@).to_set() == searched(
            text::views(remote_path@),
            text::views(remote_bin_dirs@),
        ),
{
    let mut all = text::copy_texts(remote_path);
    let mut more = text::copy_texts(remote_bin_dirs);
    let ghost a = text::views(all@);
    let ghost b = text::views(more@);
    all.append(&mut more);
    proof {
        assert(text::views(all@) =~= a + b);
        vstd::seq_lib::seq_to_set_distributes_over_add(a, b);
    }
    names::sort_names(&all)
}

/// What is run for one directory: each program in it is printed, behind the directory and a bar.
pub open spec fn dir_script(dir: Seq<char>) -> Seq<char> {
    "if [ -d "@ + util::escaped(dir) + " ]; then for f in "@ + util::escaped(dir) + "/*"@
        + "; do [ -e \"$f\" ] || continue; [ -x \"$f\" ] || continue; echo "@ + util::escaped(
        dir + "|"@,
    ) + "\"${f##*/}\"; done; fi; "@
}

/// What is run for a list of directories.
pub open spec fn search_script(dirs: Seq<Seq<char>>) -> Seq<char>
    decreases dirs.len(),
{
    if dirs.len() == 0 {
        seq![]
    } else {
        search_script(dirs.drop_last()) + dir_script(dirs.last())
    }
}

fn dir_script_text(dir: &str) -> (r: String)
    ensures
        r@ == dir_script(dir@),
{
    let quoted = util::shell_escape(dir);
    let marked = util::shell_escape(dir.to_string().concat("|").as_str());
    "if [ -d ".to_string().concat(quoted.as_str()).concat(" ]; then for f in ").concat(
        quoted.as_str(),
    ).concat("/*").concat(
        "; do [ -e \"$f\" ] || continue; [ -x \"$f\" ] || continue; echo ",
    ).concat(marked.as_str()).concat("\"${f##*/}\"; done; fi; ")
}

/// The script that prints the programs of each directory.
pub fn exec_map_script(dirs: &Vec<String>) -> (r: String)
    ensures
        r@ == search_script(text::views(dirs@)),
{
    let mut script = String::new();
    let ghost all = text::views(dirs@);
    assert(script@ =~= search_script(all.take(0)));
    for i in 0..dirs.len()
        invariant
            all == text::views(dirs@),
            script@ == search_script(all.take(i as int)),
    {
        proof {
            assert(all.take(i + 1).drop_last() =~= all.take(i as int));
            assert(all.take(i + 1).last() == dirs@[i as int]@);
        }
        script.append(dir_script_text(dirs[i].as_str()).as_str());
    }
    assert(all.take(all.len() as int) =~= all);
    script
}

/// Whether a line is that of a program: a directory, a bar and a name.
pub open spec fn is_entry(line: Seq<char>) -> bool {
    let k = text::first_at(line, '|');
    line.contains('|') && k > 0 && k + 1 < line.len()
}

/// The names that a map has for a directory.
pub open spec fn names_at(m: Map<Seq<char>, Set<Seq<char>>>, dir: Seq<char>) -> Set<Seq<char>> {
    if m.dom().contains(dir) {
        m[dir]
    } else {
        Set::empty()
    }
}

/// The programs of each directory, from lines that the search printed. Lines that are no entries
/// do not matter.
pub open spec fn programs(lines: Seq<Seq<char>>) -> Map<Seq<char>, Set<Seq<char>>>
    decreases lines.len(),
{
    if lines.len() == 0 {
        Map::empty()
    } else {
        let front = programs(lines.drop_last());
        let line = lines.last();
        let k = text::first_at(line, '|');
        if is_entry(line) {
            front.insert(line.take(k), names_at(front, line.take(k)).insert(line.skip(k + 1)))
        } else {
            front
        }
    }
}

/// Reads what the search printed.
pub fn parse_exec_map(output: &str) -> (r: ExecIndex)
    ensures
        r.wf(),
        r@ == programs(text::lines_of(output@)),
{
    let lines = text::lines(output);
    let mut index = ExecIndex::new();
    let ghost all = text::views(lines@);
    for i in 0..lines.len()
        invariant
            index.wf(),
            all == text::views(lines@),
            index@ == programs(all.take(i as int)),
    {
        let ghost line = lines@[i as int]@;
        proof {
            assert(all.take(i + 1).drop_last() =~= all.take(i as int));
            assert(all.take(i + 1).last() == line);
            text::lemma_first_at(line, '|');
        }
        if let Some((dir, name)) = text::split_once(lines[i].as_str(), '|') {
            if !dir.as_str().is_empty() && !name.as_str().is_empty() {
                index.add(dir.as_str(), name.as_str());
            }
        }
    }
    assert(all.take(all.len() as int) =~= all);
    index
}

/// The name of a shell: the last component of its path.
pub open spec fn shell_name_of(shell_path: Seq<char>) -> Seq<char> {
    match util::name_text(encode_utf8(shell_path)) {
        Some(name) => name,
        None => "sh"@,
    }
}

/// Puts together what the probes of the remote host printed.
pub fn remote_profile(
    shell_path: String,
    path_output: &str,
    exec_output: &str,
    busybox_output: &str,
) -> (r: RemoteProfile)
    ensures
        r.exec_names_by_dir.wf(),
        r.shell_path == shell_path,
        r.shell_name@ == shell_name_of(shell_path@),
        text::views(r.remote_path@) == path_dirs(path_output@),
        r.exec_names_by_dir@ == programs(text::lines_of(exec_output@)),
        r.busybox_like == (busybox_output@ == "yes"@),
{
    let shell_name = match util::file_name(&OsText::from_text(shell_path.as_str())) {
        Some(name) => name,
        None => "sh".to_string(),
    };
    RemoteProfile {
        shell_path,
        shell_name,
        remote_path: split_remote_path(path_output),
        exec_names_by_dir: parse_exec_map(exec_output),
        busybox_like: text::text_equal(busybox_output, "yes"),
    }
}

/// The script that prints the search path.
pub fn path_script() -> (r: String)
    ensures
        r@ == "echo \"${PATH:-/usr/bin:/bin}\""@,
{
    "echo \"${PATH:-/usr/bin:/bin}\"".to_string()
}

/// The script that prints whether there is a BusyBox.
pub fn busybox_script() -> (r: String)
    ensures
        r@ == "if command -v busybox >/dev/null 2>&1; then echo yes; else echo no; fi"@,
{
    "if command -v busybox >/dev/null 2>&1; then echo yes; else echo no; fi".to_string()
}

/// How a command on the remote host ended, and what it printed.
#[derive(Debug)]
pub struct Reply {
    pub status: ProcessStatus,
    pub stdout: OsText,
    pub stderr: OsText,
}

impl Reply {
    /// What was printed, if all went well.
    pub open spec fn captured(&self) -> Result<Seq<char>, ErrorView> {
        if self.status.code == Some(0i32) {
            Ok(text::trimmed(os_text::shown(self.stdout@)))
        } else {
            Err(ErrorView::ProbeFailed(text::trimmed(os_text::shown(self.stderr@))))
        }
    }
}

/// Which replies tell of success.
pub open spec fn successes(replies: Seq<Reply>) -> Seq<bool> {
    replies.map_values(|reply: Reply| reply.status.code == Some(0i32))
}

/// What comes next in finding out about the remote host.
pub enum Inquiry {
    /// Try this shell.
    Test(Seq<char>),
    /// Run a script in a shell.
    Script(Seq<char>, Seq<char>),
    /// Nothing: this is the shell, and this is what the three scripts printed.
    Complete(Seq<char>, Seq<char>, Seq<char>, Seq<char>),
}

/// The script that lists the programs, for the search path that was printed.
pub open spec fn program_script(path_output: Seq<char>, extra: Seq<Seq<char>>) -> Seq<char> {
    search_script(names::in_order(searched(path_dirs(path_output), extra)))
}

/// What comes next once there is a shell: the search path, the programs on it, and whether there
/// is a BusyBox. A script that fails ends it.
pub open spec fn next_script(shell: Seq<char>, replies: Seq<Reply>, extra: Seq<Seq<char>>) -> Result<
    Inquiry,
    ErrorView,
> {
    if replies.len() == 0 {
        Ok(Inquiry::Script(shell, "echo \"${PATH:-/usr/bin:/bin}\""@))
    } else {
        match replies[0].captured() {
            Err(e) => Err(e),
            Ok(path_output) => if replies.len() == 1 {
                Ok(Inquiry::Script(shell, program_script(path_output, extra)))
            } else {
                match replies[1].captured() {
                    Err(e) => Err(e),
                    Ok(exec_output) => if replies.len() == 2 {
                        Ok(
                            Inquiry::Script(
                                shell,
                                "if command -v busybox >/dev/null 2>&1; then echo yes; else echo no; fi"@,
                            ),
                        )
                    } else {
                        match replies[2].captured() {
                            Err(e) => Err(e),
                            Ok(busybox_output) => Ok(
                                Inquiry::Complete(shell, path_output, exec_output, busybox_output),
                            ),
                        }
                    },
                }
            },
        }
    }
}

/// What comes next in finding out about the remote host, given all replies so far. The shells are
/// tried first, until one works.
pub open spec fn next_inquiry(config: &TeleportConfig, replies: Seq<Reply>) -> Result<
    Inquiry,
    ErrorView,
> {
    let candidates = candidates_for(util::opt_text(config.remote_shell));
    let k = text::first_at(successes(replies), true);
    if k >= candidates.len() {
        Err(ErrorView::NoRemoteShell)
    } else if k >= replies.len() {
        Ok(Inquiry::Test(candidates[k]))
    } else {
        next_script(candidates[k], replies.skip(k + 1), text::views(config.remote_bin_dirs@))
    }
}

/// What to do next to find out about the remote host.
#[derive(Debug)]
pub enum ProbeAction {
    /// Run this command; the text says what failed where it cannot be run.
    Run(CommandLine, String),
    /// Nothing: this is what was found out.
    Done(RemoteProfile),
}

/// Whether a profile is what a shell and three scripts gave.
pub open spec fn is_profile(
    p: &RemoteProfile,
    shell: Seq<char>,
    path_output: Seq<char>,
    exec_output: Seq<char>,
    busybox_output: Seq<char>,
) -> bool {
    &&& p.exec_names_by_dir.wf()
    &&& p.shell_path@ == shell
    &&& p.shell_name@ == shell_name_of(shell)
    &&& text::views(p.remote_path@) == path_dirs(path_output)
    &&& p.exec_names_by_dir@ == programs(text::lines_of(exec_output))
    &&& p.busybox_like == (busybox_output == "yes"@)
}

/// Whether an action is what comes next.
pub open spec fn carries_out(
    action: &ProbeAction,
    inquiry: Inquiry,
    config: &TeleportConfig,
    layout: &RuntimeLayout,
    found_ssh: Option<Seq<u8>>,
) -> bool {
    match (*action, inquiry) {
        (ProbeAction::Run(command, context), Inquiry::Test(shell)) => {
            &&& command.program@ == wrapper::host_ssh_program(found_ssh)
            &&& command.args@ == probe_args(config, layout, shell, ":"@)
            &&& context@ == "failed probing remote shell `"@ + shell + "`"@
        },
        (ProbeAction::Run(command, context), Inquiry::Script(shell, script)) => {
            &&& command.program@ == wrapper::host_ssh_program(found_ssh)
            &&& command.args@ == probe_args(config, layout, shell, script)
            &&& context@ == "failed to run remote probe via shell `"@ + shell + "`"@
        },
        (
            ProbeAction::Done(profile),
            Inquiry::Complete(shell, path_output, exec_output, busybox_output),
        ) => is_profile(&profile, shell, path_output, exec_output, busybox_output),
        _ => false,
    }
}

fn captured_text(reply: &Reply) -> (r: Result<String, Error>)
    ensures
        match r {
            Ok(output) => reply.captured() == Ok::<_, ErrorView>(output@),
            Err(e) => reply.captured() == Err::<Seq<char>, _>(e@),
        },
{
    run_probe_capture(reply.status, &reply.stdout, &reply.stderr)
}

fn script_action(
    config: &TeleportConfig,
    layout: &RuntimeLayout,
    found_ssh: &Option<OsText>,
    shell: &str,
    script: &str,
) -> (r: ProbeAction)
    ensures
        carries_out(
            &r,
            Inquiry::Script(shell@, script@),
            config,
            layout,
            util::opt_bytes(*found_ssh),
        ),
{
    ProbeAction::Run(
        probe_command(config, layout, found_ssh, shell, script),
        "failed to run remote probe via shell `".to_string().concat(shell).concat("`"),
    )
}

/// The script that lists the programs of the remote host, for the search path that it printed.
pub fn probe_remote_exec_map(config: &TeleportConfig, path_output: &str) -> (r: String)
    ensures
        r@ == program_script(path_output@, text::views(config.remote_bin_dirs@)),
{
    let dirs = exec_dirs(&split_remote_path(path_output), &config.remote_bin_dirs);
    proof {
        names::sorted_lists_are_in_order(text::views(dirs@));
    }
    exec_map_script(&dirs)
}

/// Finds out about the remote host: what to do next, given the replies to all that was done so
/// far.
pub fn probe_remote_profile(
    config: &TeleportConfig,
    layout: &RuntimeLayout,
    found_ssh: &Option<OsText>,
    replies: &Vec<Reply>,
) -> (r: Result<ProbeAction, Error>)
    ensures
        match r {
            Ok(action) => next_inquiry(config, replies@) matches Ok(inquiry) && carries_out(
                &action,
                inquiry,
                config,
                layout,
                util::opt_bytes(*found_ssh),
            ),
            Err(e) => next_inquiry(config, replies@) == Err::<Inquiry, _>(e@),
        },
{
    let candidates = shell_candidates(config);
    let mut worked: Vec<bool> = Vec::new();
    let ghost all = successes(replies@);
    for i in 0..replies.len()
        invariant
            all == successes(replies@),
            worked@ == all.take(i as int),
    {
        assert(all.take(i + 1) =~= all.take(i as int).push(all[i as int]));
        worked.push(replies[i].status.success());
    }
    assert(all.take(all.len() as int) =~= all);
    let shell = match probe_shell_path(&candidates, &worked) {
        Err(e) => return Err(e),
        Ok(ShellStep::Try(shell)) => {
            let command = shell_test_command(config, layout, found_ssh, shell.as_str());
            let context = "failed probing remote shell `".to_string().concat(
                shell.as_str(),
            ).concat("`");
            return Ok(ProbeAction::Run(command, context));
        },
        Ok(ShellStep::Found(shell)) => shell,
    };
    proof {
        text::lemma_first_at(all, true);
    }
    let total: usize = worked.len();
    let mut k: usize = 0;
    while !worked[k]
        invariant
            total == worked@.len(),
            worked@ == all,
            k <= text::first_at(all, true) < total,
            all[text::first_at(all, true)],
        decreases total - k,
    {
        k = k + 1;
    }
    assert(k == text::first_at(all, true));
    let ghost rest = replies@.skip(k + 1);
    let first: usize = k + 1;
    if replies.len() == first {
        let script = path_script();
        return Ok(script_action(config, layout, found_ssh, shell.as_str(), script.as_str()));
    }
    assert(rest[0] == replies@[first as int]);
    let path_output = match captured_text(&replies[first]) {
        Ok(output) => output,
        Err(e) => return Err(e),
    };
    if replies.len() == first + 1 {
        let script = probe_remote_exec_map(config, path_output.as_str());
        return Ok(script_action(config, layout, found_ssh, shell.as_str(), script.as_str()));
    }
    assert(rest[1] == replies@[first + 1]);
    let exec_output = match captured_text(&replies[first + 1]) {
        Ok(output) => output,
        Err(e) => return Err(e),
    };
    if replies.len() == first + 2 {
        let script = busybox_script();
        return Ok(script_action(config, layout, found_ssh, shell.as_str(), script.as_str()));
    }
    assert(rest[2] == replies@[first + 2]);
    let busybox_output = match captured_text(&replies[first + 2]) {
        Ok(output) => output,
        Err(e) => return Err(e),
    };
    Ok(
        ProbeAction::Done(
            remote_profile(
                shell,
                path_output.as_str(),
                exec_output.as_str(),
                busybox_output.as_str(),
            ),
        ),
    )
}

/// The commands that are wrapped: the shell, every program that the remote host has on its search
/// path, and the helpers. Nothing of the local host is among them.
pub open spec fn wrapped_names(
    shell_name: Seq<char>,
    programs: Map<Seq<char>, Set<Seq<char>>>,
) -> Set<Seq<char>> {
    Set::empty().insert(shell_name).union(ExecIndex::every_name(programs)).union(
        config::literals(config::SANDBOX_HELPER_COMMANDS@).to_set(),
    )
}

/// The commands that are wrapped.
pub fn wrapped_command_names(profile: &RemoteProfile) -> (r: NameSet)
    requires
        profile.exec_names_by_dir.wf(),
    ensures
        r.wf(),
        r@ == wrapped_names(profile.shell_name@, profile.exec_names_by_dir@),
{
    let mut commands = NameSet::new();
    commands.insert(profile.shell_name.as_str());
    profile.exec_names_by_dir.collect_names(&mut commands);
    let ghost start = commands@;
    let ghost more = config::literals(config::SANDBOX_HELPER_COMMANDS@);
    assert(start.union(more.take(0).to_set()) =~= start);
    for i in 0..config::SANDBOX_HELPER_COMMANDS.len()
        invariant
            commands.wf(),
            more == config::literals(config::SANDBOX_HELPER_COMMANDS@),
            commands@ == start.union(more.take(i as int).to_set()),
    {
        proof {
            let done = more.take(i as int);
            assert(more.take(i + 1) =~= done.push(more[i as int]));
            done.lemma_push_to_set_commute(more[i as int]);
            assert(start.union(done.to_set()).insert(more[i as int]) =~= start.union(
                done.to_set().insert(more[i as int]),
            ));
        }
        commands.insert(config::SANDBOX_HELPER_COMMANDS[i]);
    }
    assert(more.take(more.len() as int) =~= more);
    commands
}

/// A program is found in a directory if, and only if, the search printed its line. The bar ends
/// the directory in a line, so none is found in a directory that holds one.
pub proof fn programs_are_those_printed(lines: Seq<Seq<char>>, dir: Seq<char>, name: Seq<char>)
    ensures
        names_at(programs(lines), dir).contains(name) <==> (!dir.contains('|') && dir.len() > 0
            && name.len() > 0 && lines.contains(dir.push('|') + name)),
{
    if dir.contains('|') {
        if programs(lines).dom().contains(dir) {
            lemma_dirs_have_no_bar(lines, dir);
        }
    } else {
        lemma_programs_printed(lines, dir, name);
    }
}

proof fn lemma_programs_printed(lines: Seq<Seq<char>>, dir: Seq<char>, name: Seq<char>)
    requires
        !dir.contains('|'),
    ensures
        names_at(programs(lines), dir).contains(name) <==> (dir.len() > 0 && name.len() > 0
            && lines.contains(dir.push('|') + name)),
    decreases lines.len(),
{
    let wanted = dir.push('|') + name;
    if lines.len() > 0 {
        let front = lines.drop_last();
        let line = lines.last();
        let k = text::first_at(line, '|');
        lemma_programs_printed(front, dir, name);
        text::lemma_first_at(line, '|');
        assert(lines.contains(wanted) <==> front.contains(wanted) || line == wanted) by {
            if lines.contains(wanted) {
                let i = choose|i: int| 0 <= i < lines.len() && lines[i] == wanted;
                if i < front.len() {
                    assert(front[i] == wanted);
                }
            }
            if front.contains(wanted) {
                let i = choose|i: int| 0 <= i < front.len() && front[i] == wanted;
                assert(lines[i] == wanted);
            }
            if line == wanted {
                assert(lines[lines.len() - 1] == wanted);
            }
        }
        if line == wanted {
            let n = dir.len() as int;
            assert(line[n] == '|');
            assert forall|i: int| 0 <= i < n implies line[i] != '|' by {
                assert(line[i] == dir[i]);
            }
            text::lemma_first_at_is(line, '|', n);
            assert(line.take(n) =~= dir);
            assert(line.skip(n + 1) =~= name);
        } else if is_entry(line) && line.take(k) == dir && line.skip(k + 1) == name {
            assert(line =~= wanted);
        }
    }
}

/// A remote search path is never empty.
pub proof fn search_paths_are_never_empty(output: Seq<char>)
    ensures
        path_dirs(output).len() > 0,
{
    text::lemma_split_pieces(DEFAULT_REMOTE_PATH@, ':');
}

proof fn lemma_trimmed_chars(s: Seq<char>, c: char)
    requires
        !s.contains(c),
    ensures
        !text::trimmed(s).contains(c),
{
    lemma_trimmed_start_chars(s, c);
    lemma_trimmed_end_chars(text::trimmed_start(s), c);
}

proof fn lemma_trimmed_start_chars(s: Seq<char>, c: char)
    requires
        !s.contains(c),
    ensures
        !text::trimmed_start(s).contains(c),
    decreases s.len(),
{
    if s.len() > 0 && text::white_space(s[0]) {
        assert forall|i: int| 0 <= i < s.drop_first().len() implies s.drop_first()[i] != c by {
            assert(s[i + 1] != c);
        }
        lemma_trimmed_start_chars(s.drop_first(), c);
    }
}

proof fn lemma_trimmed_end_chars(s: Seq<char>, c: char)
    requires
        !s.contains(c),
    ensures
        !text::trimmed_end(s).contains(c),
    decreases s.len(),
{
    if s.len() > 0 && text::white_space(s.last()) {
        assert forall|i: int| 0 <= i < s.drop_last().len() implies s.drop_last()[i] != c by {
            assert(s[i] != c);
        }
        lemma_trimmed_end_chars(s.drop_last(), c);
    }
}

proof fn lemma_entries_chars(pieces: Seq<Seq<char>>, c: char)
    requires
        forall|i: int| 0 <= i < pieces.len() ==> !(#[trigger] pieces[i]).contains(c),
    ensures
        forall|i: int| 0 <= i < entries(pieces).len() ==> !(#[trigger] entries(pieces)[i]).contains(
            c,
        ),
    decreases pieces.len(),
{
    if pieces.len() > 0 {
        let init = pieces.drop_last();
        assert forall|i: int| 0 <= i < init.len() implies !(#[trigger] init[i]).contains(c) by {
            assert(init[i] == pieces[i]);
        }
        lemma_entries_chars(init, c);
        assert(pieces.last() == pieces[pieces.len() - 1]);
        lemma_trimmed_chars(pieces.last(), c);
        let all = entries(pieces);
        let front = entries(init);
        assert forall|i: int| 0 <= i < all.len() implies !(#[trigger] all[i]).contains(c) by {
            if i < front.len() {
                assert(all[i] == front[i]);
            } else {
                assert(all[i] == text::trimmed(pieces.last()));
            }
        }
    }
}

/// No directory of a search path holds the separator, so the search path can be joined again.
pub proof fn search_paths_join_again(output: Seq<char>)
    ensures
        text::split(text::join(path_dirs(output), seq![':']), ':') == path_dirs(output),
        forall|i: int|
            0 <= i < path_dirs(output).len() ==> !(#[trigger] path_dirs(output)[i]).contains(':'),
{
    text::lemma_split_pieces(output, ':');
    lemma_entries_chars(text::split(output, ':'), ':');
    text::lemma_split_pieces(DEFAULT_REMOTE_PATH@, ':');
    text::split_undoes_join(path_dirs(output), ':');
}

/// A directory holds finitely many programs.
pub proof fn programs_are_finite(lines: Seq<Seq<char>>, dir: Seq<char>)
    requires
        programs(lines).dom().contains(dir),
    ensures
        programs(lines)[dir].finite(),
    decreases lines.len(),
{
    let front = programs(lines.drop_last());
    if front.dom().contains(dir) {
        programs_are_finite(lines.drop_last(), dir);
    }
}

/// Without a search path of its own, the remote host is searched in six directories.
pub proof fn the_default_search_path()
    ensures
        path_dirs(seq![]) == seq![
            "/usr/local/sbin"@,
            "/usr/local/bin"@,
            "/usr/sbin"@,
            "/usr/bin"@,
            "/sbin"@,
            "/bin"@,
        ],
{
    let none = Seq::<char>::empty();
    text::lemma_split_whole(none, ':');
    assert(text::trimmed(none) =~= none);
    assert(seq![none].last() == none);
    assert(entries(seq![none].drop_last()).len() == 0);
    assert(entries(seq![none]) =~= seq![]);
    reveal_strlit("/usr/local/sbin:/usr/local/bin:/usr/sbin:/usr/bin:/sbin:/bin");
    reveal_strlit("/usr/local/sbin");
    reveal_strlit("/usr/local/bin");
    reveal_strlit("/usr/sbin");
    reveal_strlit("/usr/bin");
    reveal_strlit("/sbin");
    reveal_strlit("/bin");
    let e = "/bin"@;
    let d = "/sbin"@.push(':') + e;
    let c = "/usr/bin"@.push(':') + d;
    let b = "/usr/sbin"@.push(':') + c;
    let a = "/usr/local/bin"@.push(':') + b;
    assert(DEFAULT_REMOTE_PATH@ =~= "/usr/local/sbin"@.push(':') + a);
    text::lemma_split_at_separator("/usr/local/sbin"@, ':', a);
    text::lemma_split_at_separator("/usr/local/bin"@, ':', b);
    text::lemma_split_at_separator("/usr/sbin"@, ':', c);
    text::lemma_split_at_separator("/usr/bin"@, ':', d);
    text::lemma_split_at_separator("/sbin"@, ':', e);
    text::lemma_split_whole(e, ':');
    assert(path_dirs(seq![]) =~= seq![
        "/usr/local/sbin"@,
        "/usr/local/bin"@,
        "/usr/sbin"@,
        "/usr/bin"@,
        "/sbin"@,
        "/bin"@,
    ]);
}

/// Only what the remote host has is wrapped: a command that is neither its shell, nor a program
/// found there, nor a helper is not.
pub proof fn only_remote_commands_are_wrapped(
    shell_name: Seq<char>,
    lines: Seq<Seq<char>>,
    name: Seq<char>,
)
    requires
        wrapped_names(shell_name, programs(lines)).contains(name),
    ensures
        name == shell_name || name == "teleport-pull"@ || name == "teleport-push"@ || exists|
            dir: Seq<char>,
        |
            dir.len() > 0 && #[trigger] lines.contains(dir.push('|') + name),
{
    let helpers = config::literals(config::SANDBOX_HELPER_COMMANDS@);
    if helpers.to_set().contains(name) {
        assert(helpers.contains(name));
        let i = choose|i: int| 0 <= i < helpers.len() && helpers[i] == name;
        assert(i == 0 || i == 1);
    } else if name != shell_name {
        let m = programs(lines);
        let dir = choose|d: Seq<char>| #[trigger] m.dom().contains(d) && m[d].contains(name);
        lemma_dirs_have_no_bar(lines, dir);
        programs_are_those_printed(lines, dir, name);
        assert(lines.contains(dir.push('|') + name));
    }
}

proof fn lemma_dirs_have_no_bar(lines: Seq<Seq<char>>, dir: Seq<char>)
    requires
        programs(lines).dom().contains(dir),
    ensures
        !dir.contains('|'),
    decreases lines.len(),
{
    if lines.len() > 0 {
        let line = lines.last();
        let k = text::first_at(line, '|');
        text::lemma_first_at(line, '|');
        if is_entry(line) && line.take(k) == dir {
        } else {
            lemma_dirs_have_no_bar(lines.drop_last(), dir);
        }
    }
}

/// The first shell that works is found: with the answers of all candidates before it, the search
/// goes on until then and no further.
pub proof fn the_first_working_shell_is_found(worked: Seq<bool>, k: int)
    requires
        0 <= k < worked.len(),
        worked[k],
        forall|i: int| 0 <= i < k ==> !worked[i],
    ensures
        text::first_at(worked, true) == k,
        forall|n: int| 0 <= n <= k ==> #[trigger] text::first_at(worked.take(n), true) == n,
{
    text::lemma_first_at_is(worked, true, k);
    assert forall|n: int| 0 <= n <= k implies #[trigger] text::first_at(worked.take(n), true)
        == n by {
        text::lemma_first_at_is(worked.take(n), true, n);
    }
}

/// Finding out about the remote host takes at most one command for each shell and three more.
pub proof fn probing_ends(config: &TeleportConfig, replies: Seq<Reply>)
    requires
        replies.len() >= candidates_for(util::opt_text(config.remote_shell)).len() + 3,
    ensures
        next_inquiry(config, replies) matches Ok(inquiry) ==> inquiry is Complete,
{
    text::lemma_first_at(successes(replies), true);
}

/// What was learned stays learned: more replies behind a complete inquiry change nothing.
pub proof fn later_replies_change_nothing(
    config: &TeleportConfig,
    replies: Seq<Reply>,
    more: Seq<Reply>,
)
    requires
        next_inquiry(config, replies) matches Ok(inquiry) && inquiry is Complete,
    ensures
        next_inquiry(config, replies + more) == next_inquiry(config, replies),
{
    let k = text::first_at(successes(replies), true);
    let all = successes(replies + more);
    text::lemma_first_at(successes(replies), true);
    assert forall|i: int| 0 <= i < replies.len() implies all[i] == successes(replies)[i] by {
        assert((replies + more)[i] == replies[i]);
    }
    text::lemma_first_at_is(all, true, k);
    assert((replies + more).skip(k + 1) =~= replies.skip(k + 1) + more);
}

/// The script goes directory by directory: for two lists it is the one for the first and then the
/// one for the second, for one directory it is that directory's loop, and for none it is empty.
pub proof fn scripts_go_directory_by_directory(a: Seq<Seq<char>>, b: Seq<Seq<char>>, dir: Seq<char>)
    ensures
        search_script(a + b) == search_script(a) + search_script(b),
        search_script(seq![dir]) == dir_script(dir),
        search_script(Seq::empty()) == Seq::<char>::empty(),
    decreases b.len(),
{
    let none = Seq::<Seq<char>>::empty();
    assert(search_script(none) =~= Seq::<char>::empty());
    assert(seq![dir].drop_last() =~= none);
    assert(search_script(seq![dir]) =~= dir_script(dir));
    if b.len() == 0 {
        assert(a + b =~= a);
        assert(search_script(a) + search_script(b) =~= search_script(a));
    } else {
        scripts_go_directory_by_directory(a, b.drop_last(), dir);
        assert((a + b).drop_last() =~= a + b.drop_last());
        assert(search_script(a) + search_script(b.drop_last()) + dir_script(b.last())
            =~= search_script(a) + (search_script(b.drop_last()) + dir_script(b.last())));
    }
}

/// The loop of a directory: it names the directory, whatever characters that holds, looks at each
/// file in it, and prints the directory, a bar and the name of each that can be run.
pub proof fn loops_name_their_directory(dir: Seq<char>)
    ensures
        exists|quoted: Seq<char>, label: Seq<char>|
            #![trigger shell::words(quoted), shell::words(label)]
            {
                &&& shell::words(quoted) == Some(seq![dir])
                &&& shell::words(label) == Some(seq![dir + "|"@])
                &&& dir_script(dir) == "if [ -d "@ + quoted + " ]; then for f in "@ + quoted + "/*"@
                    + "; do [ -e \"$f\" ] || continue; [ -x \"$f\" ] || continue; echo "@ + label
                    + "\"${f##*/}\"; done; fi; "@
            },
{
    shell::quoting_keeps_a_word(dir);
    shell::quoting_keeps_a_word(dir + "|"@);
    assert(shell::words(util::escaped(dir)) is Some);
    assert(shell::words(util::escaped(dir + "|"@)) is Some);
}

/// Every directory of a list has its loop in the script.
pub proof fn every_directory_is_searched(dirs: Seq<Seq<char>>, i: int)
    requires
        0 <= i < dirs.len(),
    ensures
        search_script(dirs) == search_script(dirs.take(i)) + dir_script(dirs[i]) + search_script(
            dirs.skip(i + 1),
        ),
{
    let a = dirs.take(i);
    let b = seq![dirs[i]];
    let c = dirs.skip(i + 1);
    scripts_go_directory_by_directory(a, b, dirs[i]);
    scripts_go_directory_by_directory(a + b, c, dirs[i]);
    assert(a + b + c =~= dirs);
}

/// Every directory of the remote search path, and every one that was asked for, is searched for
/// programs.
pub proof fn the_whole_search_path_is_searched(
    path_output: Seq<char>,
    extra: Seq<Seq<char>>,
    dir: Seq<char>,
)
    requires
        path_dirs(path_output).contains(dir) || extra.contains(dir),
    ensures
        exists|before: Seq<char>, after: Seq<char>|
            program_script(path_output, extra) == #[trigger] (before + dir_script(dir) + after),
{
    let found = path_dirs(path_output);
    let list = names::in_order(searched(found, extra));
    vstd::seq_lib::seq_to_set_distributes_over_add(found, extra);
    assert((found + extra).to_set() == searched(found, extra));
    names::every_list_has_an_order(found + extra);
    assert(list.to_set() == searched(found, extra));
    assert(found.to_set().contains(dir) || extra.to_set().contains(dir));
    assert(list.to_set().contains(dir));
    assert(list.contains(dir));
    let i = choose|i: int| 0 <= i < list.len() && list[i] == dir;
    every_directory_is_searched(list, i);
    let before = search_script(list.take(i));
    let after = search_script(list.skip(i + 1));
    assert(program_script(path_output, extra) == before + dir_script(dir) + after);
}

/// The entries of a search path go piece by piece: each that is not all white space counts, without
/// the white space around it, in order.
pub proof fn entries_go_piece_by_piece(a: Seq<Seq<char>>, b: Seq<Seq<char>>, piece: Seq<char>)
    ensures
        entries(a + b) == entries(a) + entries(b),
        entries(seq![piece]) == (if text::trimmed(piece).len() > 0 {
            seq![text::trimmed(piece)]
        } else {
            seq![]
        }),
        entries(Seq::empty()) == Seq::<Seq<char>>::empty(),
    decreases b.len(),
{
    let none = Seq::<Seq<char>>::empty();
    assert(entries(none) =~= none);
    assert(seq![piece].drop_last() =~= none);
    assert(entries(seq![piece]) =~= (if text::trimmed(piece).len() > 0 {
        seq![text::trimmed(piece)]
    } else {
        seq![]
    }));
    if b.len() == 0 {
        assert(a + b =~= a);
        assert(entries(a) + entries(b) =~= entries(a));
    } else {
        entries_go_piece_by_piece(a, b.drop_last(), piece);
        assert((a + b).drop_last() =~= a + b.drop_last());
        assert(entries(a + b) =~= entries(a) + entries(b));
    }
}

/// A search path with entries is what it says, piece by piece; one without is the default.
pub proof fn search_paths_are_what_they_say(output: Seq<char>, i: int)
    requires
        0 <= i < text::split(output, ':').len(),
        text::trimmed(text::split(output, ':')[i]).len() > 0,
    ensures
        path_dirs(output).contains(text::trimmed(text::split(output, ':')[i])),
        path_dirs(output) == entries(text::split(output, ':')),
{
    let pieces = text::split(output, ':');
    let front = pieces.take(i);
    let one = seq![pieces[i]];
    let back = pieces.skip(i + 1);
    entries_go_piece_by_piece(front, one, pieces[i]);
    entries_go_piece_by_piece(front + one, back, pieces[i]);
    assert(front + one + back =~= pieces);
    assert(entries(pieces)[entries(front).len() as int] == text::trimmed(pieces[i]));
}

/// Shells are tried one after the other, each once: the one that was asked for, then each of the
/// usual ones that was not tried yet.
pub proof fn missing_ones_are_added_one_by_one(
    list: Seq<Seq<char>>,
    more: Seq<Seq<char>>,
    one: Seq<char>,
)
    ensures
        with_missing(list, Seq::empty()) == list,
        with_missing(list, more.push(one)) == (if with_missing(list, more).contains(one) {
            with_missing(list, more)
        } else {
            with_missing(list, more).push(one)
        }),
{
    assert(more.push(one).drop_last() =~= more);
}

proof fn lemma_with_missing(list: Seq<Seq<char>>, more: Seq<Seq<char>>)
    ensures
        list.is_prefix_of(with_missing(list, more)),
        forall|i: int| 0 <= i < more.len() ==> with_missing(list, more).contains(#[trigger] more[i]),
        forall|i: int|
            0 <= i < with_missing(list, more).len() ==> list.contains(
                #[trigger] with_missing(list, more)[i],
            ) || more.contains(with_missing(list, more)[i]),
        list.no_duplicates() ==> with_missing(list, more).no_duplicates(),
    decreases more.len(),
{
    let all = with_missing(list, more);
    if more.len() == 0 {
        assert(list.subrange(0, list.len() as int) =~= list);
        assert forall|i: int| 0 <= i < all.len() implies list.contains(#[trigger] all[i]) by {}
    } else {
        let init = more.drop_last();
        let front = with_missing(list, init);
        lemma_with_missing(list, init);
        assert(front.subrange(0, list.len() as int) =~= list);
        assert(all.subrange(0, list.len() as int) =~= list);
        assert forall|i: int| 0 <= i < more.len() implies all.contains(#[trigger] more[i]) by {
            if i < init.len() {
                assert(init[i] == more[i]);
                let k = choose|k: int| 0 <= k < front.len() && front[k] == more[i];
                assert(all[k] == more[i]);
            } else if !front.contains(more.last()) {
                assert(all[front.len() as int] == more[i]);
            }
        }
        assert forall|i: int| 0 <= i < all.len() implies list.contains(#[trigger] all[i])
            || more.contains(all[i]) by {
            if i < front.len() {
                assert(all[i] == front[i]);
                if init.contains(front[i]) {
                    let k = choose|k: int| 0 <= k < init.len() && init[k] == front[i];
                    assert(more[k] == front[i]);
                }
            } else {
                assert(more[more.len() - 1] == all[i]);
            }
        }
    }
}

/// The shells that are tried: first the one that was asked for, every usual one, no other, and none
/// twice.
pub proof fn every_shell_is_tried_once(remote_shell: Option<Seq<char>>, i: int)
    ensures
        ({
            let list = candidates_for(remote_shell);
            let usual = seq![
                "/bin/sh"@,
                "/bin/ash"@,
                "/bin/dash"@,
                "/bin/bash"@,
                "/usr/bin/bash"@,
                "sh"@,
            ];
            &&& list.no_duplicates()
            &&& remote_shell matches Some(shell) ==> list.len() > 0 && list[0] == shell
            &&& 0 <= i < usual.len() ==> list.contains(usual[i])
            &&& 0 <= i < list.len() ==> remote_shell == Some(list[i]) || usual.contains(list[i])
        }),
{
    let first = match remote_shell {
        Some(shell) => seq![shell],
        None => seq![],
    };
    let usual = seq![
        "/bin/sh"@,
        "/bin/ash"@,
        "/bin/dash"@,
        "/bin/bash"@,
        "/usr/bin/bash"@,
        "sh"@,
    ];
    let more = config::literals(SHELL_CANDIDATES@);
    assert(more =~= usual);
    lemma_with_missing(first, more);
    let list = candidates_for(remote_shell);
    assert(list.subrange(0, first.len() as int) =~= first);
    if remote_shell is Some {
        assert(list.subrange(0, 1)[0] == first[0]);
    }
    if 0 <= i < usual.len() {
        assert(list.contains(more[i]));
    }
    if 0 <= i < list.len() && first.contains(list[i]) {
        let k = choose|k: int| 0 <= k < first.len() && first[k] == list[i];
        assert(k == 0);
    }
}

/// A directory is known if, and only if, some program was found in it.
pub proof fn known_directories_hold_programs(lines: Seq<Seq<char>>, dir: Seq<char>)
    ensures
        programs(lines).dom().contains(dir) <==> exists|name: Seq<char>| #[trigger]
            names_at(programs(lines), dir).contains(name),
    decreases lines.len(),
{
    if lines.len() > 0 {
        let front = programs(lines.drop_last());
        let line = lines.last();
        let k = text::first_at(line, '|');
        known_directories_hold_programs(lines.drop_last(), dir);
        let all = programs(lines);
        if is_entry(line) && line.take(k) == dir {
            assert(names_at(all, dir).contains(line.skip(k + 1)));
        } else if front.dom().contains(dir) {
            let name = choose|name: Seq<char>| #[trigger] names_at(front, dir).contains(name);
            assert(names_at(all, dir).contains(name));
        }
    }
}

/// A probe goes through the shared connection, and hands the remote host one more argument: the
/// shell, told to run the script.
pub proof fn probes_connect_and_run(
    config: &TeleportConfig,
    layout: &RuntimeLayout,
    shell_path: Seq<char>,
    script: Seq<char>,
)
    ensures
        ({
            let args = probe_args(config, layout, shell_path, script);
            let connection = wrapper::connection_args(
                config.destination(),
                config.port,
                if config.identity_file is Some {
                    Some(layout.sandbox_identity_file@)
                } else {
                    None
                },
                Some(layout.sandbox_known_hosts@),
                Some(layout.ssh_control_socket@),
                config.batch_mode,
                text::views(config.ssh_options@),
            );
            let n = args.len();
            &&& n == connection.len() + 2
            &&& args.take(n - 2) == connection
            &&& args[n - 2] == encode_utf8("--"@)
            &&& exists|text: Seq<char>|
                args[n - 1] == encode_utf8(text) && #[trigger] shell::words(text) == Some(
                    seq![shell_path, "-c"@, script],
                )
        }),
{
    let args = probe_args(config, layout, shell_path, script);
    let text = wrapper::shell_command(shell_path, script);
    wrapper::shell_commands_keep_their_words(shell_path, script);
    assert(args.take(args.len() - 2) =~= wrapper::connection_args(
        config.destination(),
        config.port,
        wrapper::staged_identity(config, layout),
        Some(layout.sandbox_known_hosts@),
        Some(layout.ssh_control_socket@),
        config.batch_mode,
        text::views(config.ssh_options@),
    ));
    assert(args.last() == encode_utf8(text));
    assert(shell::words(text) is Some);
}

/// What a reply says: without white space around it, what was printed where all went well, and what
/// was said on the error output where it did not.
pub proof fn replies_say_what_was_printed(reply: Reply)
    ensures
        reply.status.code == Some(0i32) ==> reply.captured() == Ok::<_, ErrorView>(
            text::trimmed(os_text::shown(reply.stdout@)),
        ),
        reply.status.code != Some(0i32) ==> reply.captured() == Err::<Seq<char>, _>(
            ErrorView::ProbeFailed(text::trimmed(os_text::shown(reply.stderr@))),
        ),
{
}

/// Probing goes step by step. While no shell worked, the next one is tried, until there is none
/// left. With the one that worked, three scripts are run one after the other: the search path, the
/// programs of its directories, and whether there is a BusyBox. The first of them that fails ends
/// it, and when all went well that is what was found out.
pub proof fn probing_goes_step_by_step(config: &TeleportConfig, replies: Seq<Reply>, k: int)
    requires
        0 <= k <= replies.len(),
        forall|i: int| 0 <= i < k ==> (#[trigger] replies[i]).status.code != Some(0i32),
        k < replies.len() ==> replies[k].status.code == Some(0i32),
    ensures
        ({
            let shells = candidates_for(util::opt_text(config.remote_shell));
            let extra = text::views(config.remote_bin_dirs@);
            let r = next_inquiry(config, replies);
            let n = replies.len() - k;
            &&& k >= shells.len() ==> r == Err::<Inquiry, _>(ErrorView::NoRemoteShell)
            &&& k < shells.len() && n == 0 ==> r == Ok::<_, ErrorView>(Inquiry::Test(shells[k]))
            &&& k < shells.len() && n == 1 ==> r == Ok::<_, ErrorView>(
                Inquiry::Script(shells[k], "echo \"${PATH:-/usr/bin:/bin}\""@),
            )
            &&& k < shells.len() && n >= 2 ==> match replies[k + 1].captured() {
                Err(e) => r == Err::<Inquiry, _>(e),
                Ok(found) => {
                    &&& n == 2 ==> r == Ok::<_, ErrorView>(
                        Inquiry::Script(shells[k], program_script(found, extra)),
                    )
                    &&& n >= 3 ==> match replies[k + 2].captured() {
                        Err(e) => r == Err::<Inquiry, _>(e),
                        Ok(listed) => {
                            &&& n == 3 ==> r == Ok::<_, ErrorView>(
                                Inquiry::Script(
                                    shells[k],
                                    "if command -v busybox >/dev/null 2>&1; then echo yes; else echo no; fi"@,
                                ),
                            )
                            &&& n >= 4 ==> match replies[k + 3].captured() {
                                Err(e) => r == Err::<Inquiry, _>(e),
                                Ok(busybox) => r == Ok::<_, ErrorView>(
                                    Inquiry::Complete(shells[k], found, listed, busybox),
                                ),
                            }
                        },
                    }
                },
            }
        }),
{
    let worked = successes(replies);
    assert forall|i: int| 0 <= i < k implies worked[i] != true by {
        assert(replies[i].status.code != Some(0i32));
    }
    text::lemma_first_at_is(worked, true, k);
    let rest = replies.skip(k + 1);
    if k < replies.len() {
        assert(rest.len() == replies.len() - k - 1);
        if rest.len() > 0 {
            assert(rest[0] == replies[k + 1]);
        }
        if rest.len() > 1 {
            assert(rest[1] == replies[k + 2]);
        }
        if rest.len() > 2 {
            assert(rest[2] == replies[k + 3]);
        }
    }
}

/// The shell, the helpers, and every program that the remote host has in a directory are wrapped.
pub proof fn every_remote_command_is_wrapped(
    shell_name: Seq<char>,
    programs: Map<Seq<char>, Set<Seq<char>>>,
    dir: Seq<char>,
    name: Seq<char>,
)
    ensures
        wrapped_names(shell_name, programs).contains(shell_name),
        wrapped_names(shell_name, programs).contains("teleport-pull"@),
        wrapped_names(shell_name, programs).contains("teleport-push"@),
        programs.dom().contains(dir) && programs[dir].contains(name) ==> wrapped_names(
            shell_name,
            programs,
        ).contains(name),
{
    let helpers = config::literals(config::SANDBOX_HELPER_COMMANDS@);
    assert(helpers[0] == "teleport-pull"@);
    assert(helpers[1] == "teleport-push"@);
    assert(helpers.to_set().contains(helpers[0]));
    assert(helpers.to_set().contains(helpers[1]));
}

/// The name of a shell at `dir/name` is `name`; that of a bare one is its own.
pub proof fn shells_are_named_by_their_last_component(dir: Seq<char>, name: Seq<char>)
    requires
        !encode_utf8(name).contains(path::SLASH),
        name.len() > 0,
        name != seq!['.'],
        name != seq!['.', '.'],
    ensures
        shell_name_of(dir + seq!['/'] + name) == name,
        shell_name_of(name) == name,
{
    let base = encode_utf8(dir + seq!['/']);
    let bytes = encode_utf8(name);
    os_text::lemma_encoded_add(dir + seq!['/'], name);
    os_text::lemma_encoded_add(dir, seq!['/']);
    vstd::utf8::is_ascii_chars_encode_utf8(seq!['/']);
    assert(encode_utf8(seq!['/']) =~= seq![path::SLASH]);
    assert(base.last() == path::SLASH);
    assert(bytes.len() > 0) by {
        if bytes.len() == 0 {
            vstd::utf8::encode_utf8_decode_utf8(name);
            vstd::utf8::encode_utf8_decode_utf8(Seq::empty());
            assert(bytes =~= encode_utf8(Seq::empty()));
        }
    }
    assert(!path::absolute(bytes)) by {
        if path::absolute(bytes) {
            assert(bytes[0] == path::SLASH);
        }
    }
    util::files_are_named_by_their_last_component(base, name);
    util::files_are_named_by_their_last_component(Seq::empty(), name);
    assert(path::joined(base, bytes) =~= base + bytes);
    assert(path::joined(Seq::empty(), bytes) =~= bytes);
}

/// What was found out of a remote host: each part of a profile comes from what was printed for it.
pub proof fn profiles_say_what_was_printed(
    p: &RemoteProfile,
    shell: Seq<char>,
    path_output: Seq<char>,
    exec_output: Seq<char>,
    busybox_output: Seq<char>,
    dir: Seq<char>,
    name: Seq<char>,
)
    requires
        is_profile(p, shell, path_output, exec_output, busybox_output),
    ensures
        p.shell_path@ == shell,
        p.shell_name@ == shell_name_of(shell),
        p.remote_path@.len() == path_dirs(path_output).len(),
        forall|i: int|
            0 <= i < p.remote_path@.len() ==> (#[trigger] p.remote_path@[i])@ == path_dirs(
                path_output,
            )[i],
        !dir.contains('|') && dir.len() > 0 && name.len() > 0 ==> (names_at(
            p.exec_names_by_dir@,
            dir,
        ).contains(name) <==> text::lines_of(exec_output).contains(dir.push('|') + name)),
        p.busybox_like <==> busybox_output == seq!['y', 'e', 's'],
{
    let dirs = text::views(p.remote_path@);
    assert forall|i: int| 0 <= i < p.remote_path@.len() implies (#[trigger] p.remote_path@[i])@
        == path_dirs(path_output)[i] by {
        assert(dirs[i] == p.remote_path@[i]@);
    }
    reveal_strlit("yes");
    assert("yes"@ =~= seq!['y', 'e', 's']);
    programs_are_those_printed(text::lines_of(exec_output), dir, name);
}

/// What comes next is carried out: a shell is tried with a script that does nothing, a script is run
/// by the shell that worked, and what was printed becomes the profile.
pub proof fn what_comes_next_is_carried_out(
    action: &ProbeAction,
    inquiry: Inquiry,
    config: &TeleportConfig,
    layout: &RuntimeLayout,
    found_ssh: Option<Seq<u8>>,
)
    requires
        carries_out(action, inquiry, config, layout, found_ssh),
    ensures
        match inquiry {
            Inquiry::Test(shell) => action matches ProbeAction::Run(command, context)
                && command.program@ == wrapper::host_ssh_program(found_ssh) && command.args@
                == probe_args(config, layout, shell, seq![':']) && exists|a: Seq<char>, b: Seq<char>|
                context@ == #[trigger] (a + shell + b),
            Inquiry::Script(shell, script) => action matches ProbeAction::Run(command, context)
                && command.program@ == wrapper::host_ssh_program(found_ssh) && command.args@
                == probe_args(config, layout, shell, script) && exists|a: Seq<char>, b: Seq<char>|
                context@ == #[trigger] (a + shell + b),
            Inquiry::Complete(shell, path_output, exec_output, busybox_output) => {
                action matches ProbeAction::Done(profile) && is_profile(
                    &profile,
                    shell,
                    path_output,
                    exec_output,
                    busybox_output,
                )
            },
        },
{
    reveal_strlit(":");
    assert(":"@ =~= seq![':']);
    match inquiry {
        Inquiry::Test(shell) => {
            let a = "failed probing remote shell `"@;
            assert(a + shell + "`"@ == a + shell + "`"@);
        },
        Inquiry::Script(shell, script) => {
            let a = "failed to run remote probe via shell `"@;
            assert(a + shell + "`"@ == a + shell + "`"@);
        },
        _ => {},
    }
}

} // verus!
