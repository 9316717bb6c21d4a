//! What a wrapped command does inside the sandbox: it is run on the remote host instead, in the
//! directory that matches the current one. Two helpers move files between the hosts.
use vstd::prelude::*;
use vstd::utf8::{decode_utf8, encode_utf8, valid_utf8};
use crate::config;
use crate::config::{RuntimeLayout, TeleportConfig};
use crate::decimal;
use crate::error::{Error, ErrorView};
use crate::os_text;
use crate::os_text::{ArgList, OsText};
use crate::path;
use crate::shell;
use crate::text;
use crate::util;

verus! {

/// A program and its arguments.
#[derive(Debug, PartialEq, Eq)]
pub struct CommandLine {
    pub program: OsText,
    pub args: ArgList,
}

/// `-o` before each of a list of options.
pub open spec fn option_args(options: Seq<Seq<char>>) -> Seq<Seq<u8>>
    decreases options.len(),
{
    if options.len() == 0 {
        seq![]
    } else {
        option_args(options.drop_last()) + seq![
            os_text::bytes_of("-o"),
            encode_utf8(options.last()),
        ]
    }
}

/// A flag and a value for it, where there is one.
pub open spec fn flag_args(flag: Seq<u8>, value: Option<Seq<u8>>) -> Seq<Seq<u8>> {
    match value {
        Some(value) => seq![flag, value],
        None => seq![],
    }
}

/// A port as an argument.
pub open spec fn port_bytes(port: Option<u16>) -> Option<Seq<u8>> {
    match port {
        Some(port) => Some(encode_utf8(decimal::decimal(port as nat))),
        None => None,
    }
}

/// The option that never asks the user anything.
pub open spec fn batch_args(batch_mode: bool) -> Seq<Seq<u8>> {
    if batch_mode {
        seq![os_text::bytes_of("-o"), os_text::bytes_of("BatchMode=yes")]
    } else {
        seq![]
    }
}

/// The option that names the file of known hosts.
pub open spec fn known_hosts_option(known_hosts: Seq<u8>) -> Seq<char> {
    "UserKnownHostsFile="@ + os_text::shown(known_hosts)
}

/// The options that name the file of known hosts, to which new hosts are added.
pub open spec fn known_hosts_args(known_hosts: Option<Seq<u8>>) -> Seq<Seq<u8>> {
    match known_hosts {
        Some(file) => seq![
            os_text::bytes_of("-o"),
            os_text::bytes_of("StrictHostKeyChecking=accept-new"),
            os_text::bytes_of("-o"),
            encode_utf8(known_hosts_option(file)),
        ],
        None => seq![],
    }
}

/// The options that share a connection through a socket.
pub open spec fn control_args(control_path: Option<Seq<u8>>) -> Seq<Seq<u8>> {
    match control_path {
        Some(socket) => seq![
            os_text::bytes_of("-o"),
            os_text::bytes_of("ControlMaster=auto"),
            os_text::bytes_of("-o"),
            os_text::bytes_of("ControlPersist=no"),
            os_text::bytes_of("-S"),
            socket,
        ],
        None => seq![],
    }
}

/// The arguments with which ssh connects: no configuration file of the user is read, and the
/// destination is last.
pub open spec fn connection_args(
    destination: Seq<char>,
    port: Option<u16>,
    identity_file: Option<Seq<u8>>,
    known_hosts: Option<Seq<u8>>,
    control_path: Option<Seq<u8>>,
    batch_mode: bool,
    ssh_options: Seq<Seq<char>>,
) -> Seq<Seq<u8>> {
    seq![os_text::bytes_of("-F"), os_text::bytes_of("/dev/null")] + flag_args(
        os_text::bytes_of("-i"),
        identity_file,
    ) + flag_args(os_text::bytes_of("-p"), port_bytes(port)) + batch_args(batch_mode)
        + known_hosts_args(known_hosts) + control_args(control_path) + option_args(ssh_options)
        + seq![encode_utf8(destination)]
}

/// A text for each of a list, all UTF-8.
pub open spec fn all_text(list: Seq<Seq<u8>>) -> bool {
    forall|i: int| 0 <= i < list.len() ==> valid_utf8(#[trigger] list[i])
}

/// The texts that byte strings encode.
pub open spec fn decoded(list: Seq<Seq<u8>>) -> Seq<Seq<char>> {
    list.map_values(|b: Seq<u8>| decode_utf8(b))
}

/// A command for a shell with the option `-c`.
pub open spec fn shell_command(shell_path: Seq<char>, command: Seq<char>) -> Seq<char> {
    util::escaped(shell_path) + " -c "@ + util::escaped(command)
}

/// A script for a shell with the option `-c`, and one argument for the script.
pub open spec fn shell_script(shell_path: Seq<char>, script: Seq<char>, arg: Seq<char>) -> Seq<
    char,
> {
    util::escaped(shell_path) + " -c "@ + util::escaped(script) + " sh "@ + util::escaped(arg)
}

/// What runs a command in place of the shell, with a home directory and a search path.
pub open spec fn invocation(home: Seq<char>, search_path: Seq<char>, argv: Seq<Seq<char>>) -> Seq<
    char,
> {
    "exec env HOME="@ + util::escaped(home) + " PATH="@ + util::escaped(search_path)
        + shell::blank_escaped(argv)
}

/// What comes before a command: traces of the connection are removed, no history is kept, and the
/// directory is entered.
pub open spec fn preamble(cwd: Seq<char>) -> Seq<char> {
    "unset SSH_CLIENT SSH_CONNECTION SSH_TTY; export HISTFILE=/dev/null HISTSIZE=0; cd -- "@
        + util::escaped(cwd) + " && "@
}

/// What a remote shell is given to run a command in a directory.
pub open spec fn remote_command(
    cwd: Seq<char>,
    home: Seq<char>,
    search_path: Seq<char>,
    argv: Seq<Seq<char>>,
) -> Seq<char> {
    preamble(cwd) + invocation(home, search_path, argv)
}

pub(crate) fn push_flag(args: &mut ArgList, flag: &str, value: &Option<OsText>)
    ensures
        final(args)@ == old(args)@ + flag_args(encode_utf8(flag@), util::opt_bytes(*value)),
{
    let ghost start = args@;
    if let Some(value) = value {
        args.push_text(flag);
        args.push_os(value);
        assert(args@ =~= start + seq![encode_utf8(flag@), value@]);
    } else {
        assert(start + Seq::<Seq<u8>>::empty() =~= start);
    }
}

pub(crate) fn push_port(args: &mut ArgList, port: Option<u16>)
    ensures
        final(args)@ == old(args)@ + flag_args(os_text::bytes_of("-p"), port_bytes(port)),
{
    let ghost start = args@;
    if let Some(port) = port {
        args.push_pair("-p", decimal::decimal_text(port as u64).as_str());
    } else {
        assert(start + Seq::<Seq<u8>>::empty() =~= start);
    }
}

pub(crate) fn push_batch(args: &mut ArgList, batch_mode: bool)
    ensures
        final(args)@ == old(args)@ + batch_args(batch_mode),
{
    let ghost start = args@;
    if batch_mode {
        args.push_pair("-o", "BatchMode=yes");
    } else {
        assert(start + Seq::<Seq<u8>>::empty() =~= start);
    }
}

/// The option that names the file of known hosts.
pub fn known_hosts_text(known_hosts: &OsText) -> (r: String)
    ensures
        r@ == known_hosts_option(known_hosts@),
{
    "UserKnownHostsFile=".to_string().concat(known_hosts.shown().as_str())
}

pub(crate) fn push_known_hosts(args: &mut ArgList, known_hosts: &Option<OsText>)
    ensures
        final(args)@ == old(args)@ + known_hosts_args(util::opt_bytes(*known_hosts)),
{
    let ghost start = args@;
    if let Some(file) = known_hosts {
        args.push_pair("-o", "StrictHostKeyChecking=accept-new");
        args.push_pair("-o", known_hosts_text(file).as_str());
        assert(args@ =~= start + known_hosts_args(util::opt_bytes(*known_hosts)));
    } else {
        assert(start + Seq::<Seq<u8>>::empty() =~= start);
    }
}

fn push_control(args: &mut ArgList, control_path: &Option<OsText>)
    ensures
        final(args)@ == old(args)@ + control_args(util::opt_bytes(*control_path)),
{
    let ghost start = args@;
    if let Some(socket) = control_path {
        args.push_pair("-o", "ControlMaster=auto");
        args.push_pair("-o", "ControlPersist=no");
        args.push_text("-S");
        args.push_os(socket);
        assert(args@ =~= start + control_args(util::opt_bytes(*control_path)));
    } else {
        assert(start + Seq::<Seq<u8>>::empty() =~= start);
    }
}

/// Appends `-o` before each of a list of options.
pub(crate) fn push_options(args: &mut ArgList, options: &Vec<String>)
    ensures
        final(args)@ == old(args)@ + option_args(text::views(options@)),
{
    let ghost start = args@;
    let ghost all = text::views(options@);
    assert(start + option_args(all.take(0)) =~= start);
    for i in 0..options.len()
        invariant
            all == text::views(options@),
            args@ == start + option_args(all.take(i as int)),
    {
        proof {
            let done = all.take(i + 1);
            assert(done.drop_last() =~= all.take(i as int));
            assert(done.last() == options@[i as int]@);
            let more = seq![os_text::bytes_of("-o"), encode_utf8(options@[i as int]@)];
            assert(start + (option_args(all.take(i as int)) + more) =~= start + option_args(
                all.take(i as int),
            ) + more);
        }
        args.push_pair("-o", options[i].as_str());
    }
    assert(all.take(all.len() as int) =~= all);
}

/// Appends the arguments with which ssh connects.
pub fn apply_ssh_connection_options(
    args: &mut ArgList,
    destination: &str,
    port: Option<u16>,
    identity_file: &Option<OsText>,
    known_hosts: &Option<OsText>,
    control_path: &Option<OsText>,
    batch_mode: bool,
    ssh_options: &Vec<String>,
)
    ensures
        final(args)@ == old(args)@ + connection_args(
            destination@,
            port,
            util::opt_bytes(*identity_file),
            util::opt_bytes(*known_hosts),
            util::opt_bytes(*control_path),
            batch_mode,
            text::views(ssh_options@),
        ),
{
    let ghost start = args@;
    args.push_pair("-F", "/dev/null");
    push_flag(args, "-i", identity_file);
    push_port(args, port);
    push_batch(args, batch_mode);
    push_known_hosts(args, known_hosts);
    push_control(args, control_path);
    push_options(args, ssh_options);
    args.push_text(destination);
    assert(args@ =~= start + connection_args(
        destination@,
        port,
        util::opt_bytes(*identity_file),
        util::opt_bytes(*known_hosts),
        util::opt_bytes(*control_path),
        batch_mode,
        text::views(ssh_options@),
    ));
}

/// ssh reads no configuration file of the user, and the destination is the last argument.
pub proof fn ssh_ignores_user_configuration(
    destination: Seq<char>,
    port: Option<u16>,
    identity_file: Option<Seq<u8>>,
    known_hosts: Option<Seq<u8>>,
    control_path: Option<Seq<u8>>,
    batch_mode: bool,
    ssh_options: Seq<Seq<char>>,
)
    ensures
        ({
            let args = connection_args(
                destination,
                port,
                identity_file,
                known_hosts,
                control_path,
                batch_mode,
                ssh_options,
            );
            &&& args.len() >= 3
            &&& args[0] == os_text::bytes_of("-F")
            &&& args[1] == os_text::bytes_of("/dev/null")
            &&& args.last() == encode_utf8(destination)
        }),
{
}

/// The copy of the identity file that ssh is given, where there is an identity file.
pub open spec fn staged_identity(config: &TeleportConfig, layout: &RuntimeLayout) -> Option<
    Seq<u8>,
> {
    if config.identity_file is Some {
        Some(layout.sandbox_identity_file@)
    } else {
        None
    }
}

/// The copy of the identity file that ssh is given, where there is an identity file.
pub fn identity_for(config: &TeleportConfig, layout: &RuntimeLayout) -> (r: Option<OsText>)
    ensures
        util::opt_bytes(r) == staged_identity(config, layout),
{
    match &config.identity_file {
        Some(_) => Some(layout.sandbox_identity_file.clone()),
        None => None,
    }
}

/// The ssh of the host: where it was found, or its bare name.
pub open spec fn host_ssh_program(found: Option<Seq<u8>>) -> Seq<u8> {
    match found {
        Some(program) => program,
        None => os_text::bytes_of("ssh"),
    }
}

/// The ssh of the host: where it was found, or its bare name.
pub fn host_ssh(found: &Option<OsText>) -> (r: OsText)
    ensures
        r@ == host_ssh_program(util::opt_bytes(*found)),
{
    match found {
        Some(program) => program.clone(),
        None => OsText::from_text("ssh"),
    }
}

/// The command that runs something on the remote host through the shared connection.
pub fn ssh_command(
    config: &TeleportConfig,
    layout: &RuntimeLayout,
    found_ssh: &Option<OsText>,
) -> (r: CommandLine)
    ensures
        r.program@ == host_ssh_program(util::opt_bytes(*found_ssh)),
        r.args@ == connection_args(
            config.destination(),
            config.port,
            staged_identity(config, layout),
            Some(layout.sandbox_known_hosts@),
            Some(layout.ssh_control_socket@),
            config.batch_mode,
            text::views(config.ssh_options@),
        ),
{
    let mut args = ArgList::new();
    apply_ssh_connection_options(
        &mut args,
        config.ssh_destination().as_str(),
        config.port,
        &identity_for(config, layout),
        &Some(layout.sandbox_known_hosts.clone()),
        &Some(layout.ssh_control_socket.clone()),
        config.batch_mode,
        &config.ssh_options,
    );
    assert(args@ =~= connection_args(
        config.destination(),
        config.port,
        staged_identity(config, layout),
        Some(layout.sandbox_known_hosts@),
        Some(layout.ssh_control_socket@),
        config.batch_mode,
        text::views(config.ssh_options@),
    ));
    CommandLine { program: host_ssh(found_ssh), args }
}

/// The command that opens a connection of its own.
pub fn ssh_master_command(
    config: &TeleportConfig,
    layout: &RuntimeLayout,
    found_ssh: &Option<OsText>,
) -> (r: CommandLine)
    ensures
        r.program@ == host_ssh_program(util::opt_bytes(*found_ssh)),
        r.args@ == connection_args(
            config.destination(),
            config.port,
            staged_identity(config, layout),
            Some(layout.sandbox_known_hosts@),
            None,
            config.batch_mode,
            text::views(config.ssh_options@),
        ),
{
    let mut args = ArgList::new();
    apply_ssh_connection_options(
        &mut args,
        config.ssh_destination().as_str(),
        config.port,
        &identity_for(config, layout),
        &Some(layout.sandbox_known_hosts.clone()),
        &None,
        config.batch_mode,
        &config.ssh_options,
    );
    assert(args@ =~= connection_args(
        config.destination(),
        config.port,
        staged_identity(config, layout),
        Some(layout.sandbox_known_hosts@),
        None,
        config.batch_mode,
        text::views(config.ssh_options@),
    ));
    CommandLine { program: host_ssh(found_ssh), args }
}

/// What a remote shell is given to run a command in a directory.
pub fn build_remote_command(
    cwd: &str,
    remote_home: &str,
    remote_path: &str,
    argv: &Vec<String>,
) -> (r: String)
    ensures
        r@ == remote_command(cwd@, remote_home@, remote_path@, text::views(argv@)),
{
    let mut command =
        "unset SSH_CLIENT SSH_CONNECTION SSH_TTY; export HISTFILE=/dev/null HISTSIZE=0; cd -- ".to_string();
    command.append(util::shell_escape(cwd).as_str());
    command.append(" && ");
    command.append("exec env HOME=");
    command.append(util::shell_escape(remote_home).as_str());
    command.append(" PATH=");
    command.append(util::shell_escape(remote_path).as_str());
    let ghost start = command@;
    let ghost all = text::views(argv@);
    assert(start + shell::blank_escaped(all.take(0)) =~= start);
    for i in 0..argv.len()
        invariant
            all == text::views(argv@),
            command@ == start + shell::blank_escaped(all.take(i as int)),
    {
        proof {
            let done = all.take(i + 1);
            assert(done.drop_last() =~= all.take(i as int));
            assert(done.last() == argv@[i as int]@);
        }
        command.push(' ');
        command.append(util::shell_escape(argv[i].as_str()).as_str());
        assert(command@ =~= start + shell::blank_escaped(all.take(i + 1)));
    }
    assert(all.take(all.len() as int) =~= all);
    assert(command@ =~= remote_command(cwd@, remote_home@, remote_path@, all));
    command
}

/// A command for a shell with the option `-c`.
pub fn shell_with_command(shell_path: &str, command: &str) -> (r: String)
    ensures
        r@ == shell_command(shell_path@, command@),
{
    util::shell_escape(shell_path).concat(" -c ").concat(util::shell_escape(command).as_str())
}

/// A script for a shell with the option `-c`, and one argument for the script.
pub fn shell_with_arg(shell_path: &str, script: &str, arg: &str) -> (r: String)
    ensures
        r@ == shell_script(shell_path@, script@, arg@),
{
    util::shell_escape(shell_path).concat(" -c ").concat(
        util::shell_escape(script).as_str(),
    ).concat(" sh ").concat(util::shell_escape(arg).as_str())
}

/// The remote host runs exactly the words of a command, in their order, with the given home
/// directory and search path, whatever characters they hold.
pub proof fn remote_commands_keep_their_words(
    home: Seq<char>,
    search_path: Seq<char>,
    argv: Seq<Seq<char>>,
)
    ensures
        shell::words(invocation(home, search_path, argv)) == Some(
            seq!["exec"@, "env"@, "HOME="@ + home, "PATH="@ + search_path] + argv,
        ),
{
    reveal_strlit("exec env HOME=");
    reveal_strlit(" PATH=");
    reveal_strlit("exec");
    reveal_strlit("env");
    reveal_strlit("HOME=");
    reveal_strlit("PATH=");
    let tail3 = shell::blank_escaped(argv);
    let word3 = "PATH="@ + util::escaped(search_path) + tail3;
    let tail2 = seq![' '] + word3;
    let word2 = "HOME="@ + util::escaped(home) + tail2;
    let tail1 = seq![' '] + word2;
    let word1 = "env"@ + tail1;
    let tail0 = seq![' '] + word1;
    assert(invocation(home, search_path, argv) =~= "exec"@ + tail0);
    let none = Seq::<Seq<char>>::empty();
    shell::lemma_read_word("exec"@, tail0, none);
    shell::lemma_read_blank(word1, none, "exec"@);
    let one = none.push("exec"@);
    shell::lemma_read_word("env"@, tail1, one);
    shell::lemma_read_blank(word2, one, "env"@);
    let two = one.push("env"@);
    shell::lemma_read_assignment("HOME="@, home, tail2, two);
    shell::lemma_read_blank(word3, two, "HOME="@ + home);
    let three = two.push("HOME="@ + home);
    shell::lemma_read_assignment("PATH="@, search_path, tail3, three);
    shell::lemma_read_list(argv, three, "PATH="@ + search_path);
    assert(three.push("PATH="@ + search_path) =~= seq![
        "exec"@,
        "env"@,
        "HOME="@ + home,
        "PATH="@ + search_path,
    ]);
}

/// A command for a shell is read by the login shell as the shell, `-c` and the command.
pub proof fn shell_commands_keep_their_words(shell_path: Seq<char>, command: Seq<char>)
    ensures
        shell::words(shell_command(shell_path, command)) == Some(
            seq![shell_path, "-c"@, command],
        ),
{
    reveal_strlit(" -c ");
    reveal_strlit("-c");
    let none = Seq::<Seq<char>>::empty();
    let end = Seq::<char>::empty();
    let word2 = util::escaped(command) + end;
    let tail1 = seq![' '] + word2;
    let word1 = "-c"@ + tail1;
    let tail0 = seq![' '] + word1;
    assert(shell_command(shell_path, command) =~= util::escaped(shell_path) + tail0);
    shell::lemma_read_escaped(shell_path, tail0, none);
    shell::lemma_read_blank(word1, none, shell_path);
    let one = none.push(shell_path);
    shell::lemma_read_word("-c"@, tail1, one);
    shell::lemma_read_blank(word2, one, "-c"@);
    let two = one.push("-c"@);
    shell::lemma_read_escaped(command, end, two);
    assert(two.push(command) =~= seq![shell_path, "-c"@, command]);
}

/// A script for a shell is read by the login shell as the shell, `-c`, the script, its name and
/// its argument.
pub proof fn shell_scripts_keep_their_words(
    shell_path: Seq<char>,
    script: Seq<char>,
    arg: Seq<char>,
)
    ensures
        shell::words(shell_script(shell_path, script, arg)) == Some(
            seq![shell_path, "-c"@, script, "sh"@, arg],
        ),
{
    reveal_strlit(" -c ");
    reveal_strlit("-c");
    reveal_strlit(" sh ");
    reveal_strlit("sh");
    let none = Seq::<Seq<char>>::empty();
    let end = Seq::<char>::empty();
    let word4 = util::escaped(arg) + end;
    let tail3 = seq![' '] + word4;
    let word3 = "sh"@ + tail3;
    let tail2 = seq![' '] + word3;
    let word2 = util::escaped(script) + tail2;
    let tail1 = seq![' '] + word2;
    let word1 = "-c"@ + tail1;
    let tail0 = seq![' '] + word1;
    assert(shell_script(shell_path, script, arg) =~= util::escaped(shell_path) + tail0);
    shell::lemma_read_escaped(shell_path, tail0, none);
    shell::lemma_read_blank(word1, none, shell_path);
    let one = none.push(shell_path);
    shell::lemma_read_word("-c"@, tail1, one);
    shell::lemma_read_blank(word2, one, "-c"@);
    let two = one.push("-c"@);
    shell::lemma_read_escaped(script, tail2, two);
    shell::lemma_read_blank(word3, two, script);
    let three = two.push(script);
    shell::lemma_read_word("sh"@, tail3, three);
    shell::lemma_read_blank(word4, three, "sh"@);
    let four = three.push("sh"@);
    shell::lemma_read_escaped(arg, end, four);
    assert(four.push(arg) =~= seq![shell_path, "-c"@, script, "sh"@, arg]);
}

/// The environment variables through which the sandbox tells wrapped commands of the connection.
pub const WRAPPER_VARIABLES: [&'static str; 13] = [
    "TELEPORT_REMOTE_DESTINATION",
    "TELEPORT_REMOTE_PORT",
    "TELEPORT_REMOTE_CWD",
    "TELEPORT_REMOTE_HOME",
    "TELEPORT_REMOTE_SHELL",
    "TELEPORT_REMOTE_PATH",
    "TELEPORT_IDENTITY_FILE",
    "TELEPORT_KNOWN_HOSTS",
    "TELEPORT_HOST_SSH",
    "TELEPORT_SSH_CONTROL_PATH",
    "TELEPORT_BATCH_MODE",
    "TELEPORT_SSH_OPTIONS",
    "TELEPORT_SHARED_DIR",
];

/// The value of an environment variable: its bytes, and how the system quotes it in messages.
#[derive(Debug)]
pub struct EnvValue {
    pub bytes: OsText,
    pub quoted: String,
}

/// What an environment value holds.
#[verifier::ext_equal]
pub struct ValueView {
    pub bytes: Seq<u8>,
    pub quoted: Seq<char>,
}

impl View for EnvValue {
    type V = ValueView;

    open spec fn view(&self) -> ValueView {
        ValueView { bytes: self.bytes@, quoted: self.quoted@ }
    }
}

/// What an optional environment value holds.
pub open spec fn opt_value(value: Option<EnvValue>) -> Option<ValueView> {
    match value {
        Some(value) => Some(value@),
        None => None,
    }
}

/// The bytes of an optional environment value.
pub open spec fn value_bytes(value: Option<ValueView>) -> Option<Seq<u8>> {
    match value {
        Some(value) => Some(value.bytes),
        None => None,
    }
}

fn copy_value(value: &Option<EnvValue>) -> (r: Option<EnvValue>)
    ensures
        opt_value(r) == opt_value(*value),
{
    match value {
        Some(value) => Some(
            EnvValue { bytes: value.bytes.clone(), quoted: value.quoted.clone() },
        ),
        None => None,
    }
}

/// The environment of a wrapped command, as it was found: each variable with its value, or
/// unset.
#[derive(Debug)]
pub struct WrapperVars {
    pub remote_port: Option<EnvValue>,
    pub batch_mode: Option<EnvValue>,
    pub ssh_options: Option<EnvValue>,
    pub remote_destination: Option<EnvValue>,
    pub identity_file: Option<EnvValue>,
    pub known_hosts: Option<EnvValue>,
    pub ssh_control_path: Option<EnvValue>,
    pub host_ssh: Option<EnvValue>,
    pub remote_cwd: Option<EnvValue>,
    pub remote_home: Option<EnvValue>,
    pub remote_shell: Option<EnvValue>,
    pub remote_path: Option<EnvValue>,
    pub shared_dir: Option<EnvValue>,
}

/// What a wrapped command knows of its connection.
#[derive(Debug)]
pub struct WrapperEnv {
    pub destination: String,
    pub port: Option<u16>,
    pub identity_file: Option<String>,
    pub known_hosts: String,
    pub control_path: Option<String>,
    pub host_ssh: String,
    pub batch_mode: bool,
    pub ssh_options: Vec<String>,
    pub remote_cwd: String,
    pub remote_home: String,
    pub remote_shell: String,
    pub remote_path: String,
    pub shared_dir: Option<OsText>,
}

/// What the fields of a `WrapperEnv` hold.
#[verifier::ext_equal]
pub struct EnvView {
    pub destination: Seq<char>,
    pub port: Option<u16>,
    pub identity_file: Option<Seq<char>>,
    pub known_hosts: Seq<char>,
    pub control_path: Option<Seq<char>>,
    pub host_ssh: Seq<char>,
    pub batch_mode: bool,
    pub ssh_options: Seq<Seq<char>>,
    pub remote_cwd: Seq<char>,
    pub remote_home: Seq<char>,
    pub remote_shell: Seq<char>,
    pub remote_path: Seq<char>,
    pub shared_dir: Option<Seq<u8>>,
}

/// What the environment variables hold.
#[verifier::ext_equal]
pub struct VarsView {
    pub remote_port: Option<ValueView>,
    pub batch_mode: Option<ValueView>,
    pub ssh_options: Option<ValueView>,
    pub remote_destination: Option<ValueView>,
    pub identity_file: Option<ValueView>,
    pub known_hosts: Option<ValueView>,
    pub ssh_control_path: Option<ValueView>,
    pub host_ssh: Option<ValueView>,
    pub remote_cwd: Option<ValueView>,
    pub remote_home: Option<ValueView>,
    pub remote_shell: Option<ValueView>,
    pub remote_path: Option<ValueView>,
    pub shared_dir: Option<ValueView>,
}

impl View for WrapperVars {
    type V = VarsView;

    open spec fn view(&self) -> VarsView {
        VarsView {
            remote_port: opt_value(self.remote_port),
            batch_mode: opt_value(self.batch_mode),
            ssh_options: opt_value(self.ssh_options),
            remote_destination: opt_value(self.remote_destination),
            identity_file: opt_value(self.identity_file),
            known_hosts: opt_value(self.known_hosts),
            ssh_control_path: opt_value(self.ssh_control_path),
            host_ssh: opt_value(self.host_ssh),
            remote_cwd: opt_value(self.remote_cwd),
            remote_home: opt_value(self.remote_home),
            remote_shell: opt_value(self.remote_shell),
            remote_path: opt_value(self.remote_path),
            shared_dir: opt_value(self.shared_dir),
        }
    }
}

impl View for WrapperEnv {
    type V = EnvView;

    open spec fn view(&self) -> EnvView {
        EnvView {
            destination: self.destination@,
            port: self.port,
            identity_file: util::opt_text(self.identity_file),
            known_hosts: self.known_hosts@,
            control_path: util::opt_text(self.control_path),
            host_ssh: self.host_ssh@,
            batch_mode: self.batch_mode,
            ssh_options: text::views(self.ssh_options@),
            remote_cwd: self.remote_cwd@,
            remote_home: self.remote_home@,
            remote_shell: self.remote_shell@,
            remote_path: self.remote_path@,
            shared_dir: util::opt_bytes(self.shared_dir),
        }
    }
}

/// The variables with the values that `WRAPPER_VARIABLES` have, in its order.
pub open spec fn vars_of(values: Seq<Option<ValueView>>) -> VarsView {
    VarsView {
        remote_destination: values[0],
        remote_port: values[1],
        remote_cwd: values[2],
        remote_home: values[3],
        remote_shell: values[4],
        remote_path: values[5],
        identity_file: values[6],
        known_hosts: values[7],
        host_ssh: values[8],
        ssh_control_path: values[9],
        batch_mode: values[10],
        ssh_options: values[11],
        shared_dir: values[12],
    }
}

impl WrapperVars {
    /// The variables with the values that `WRAPPER_VARIABLES` have, in its order.
    pub fn from_values(values: &Vec<Option<EnvValue>>) -> (r: Self)
        requires
            values@.len() == WRAPPER_VARIABLES@.len(),
        ensures
            r@ == vars_of(values@.map_values(|v: Option<EnvValue>| opt_value(v))),
    {
        WrapperVars {
            remote_destination: copy_value(&values[0]),
            remote_port: copy_value(&values[1]),
            remote_cwd: copy_value(&values[2]),
            remote_home: copy_value(&values[3]),
            remote_shell: copy_value(&values[4]),
            remote_path: copy_value(&values[5]),
            identity_file: copy_value(&values[6]),
            known_hosts: copy_value(&values[7]),
            host_ssh: copy_value(&values[8]),
            ssh_control_path: copy_value(&values[9]),
            batch_mode: copy_value(&values[10]),
            ssh_options: copy_value(&values[11]),
            shared_dir: copy_value(&values[12]),
        }
    }
}

/// The text of a variable that is set to UTF-8.
pub open spec fn var_text(value: Option<Seq<u8>>) -> Option<Seq<char>> {
    match value {
        Some(bytes) => if valid_utf8(bytes) {
            Some(decode_utf8(bytes))
        } else {
            None
        },
        None => None,
    }
}

/// The text of a variable that may be missing; an empty one counts as missing.
pub open spec fn optional_var(value: Option<ValueView>) -> Option<Seq<char>> {
    match var_text(value_bytes(value)) {
        Some(text) => if text.len() > 0 {
            Some(text)
        } else {
            None
        },
        None => None,
    }
}

/// The text of a variable that must be set.
pub open spec fn required_var(name: Seq<char>, value: Option<ValueView>) -> Result<
    Seq<char>,
    ErrorView,
> {
    match value {
        None => Err(ErrorView::EnvMissing(name)),
        Some(value) => if valid_utf8(value.bytes) {
            Ok(decode_utf8(value.bytes))
        } else {
            Err(ErrorView::EnvNotText(name, value.quoted))
        },
    }
}

/// The port that the environment gives.
pub open spec fn port_var(value: Option<ValueView>) -> Result<Option<u16>, ErrorView> {
    match optional_var(value) {
        None => Ok(None),
        Some(text) => match decimal::parsed_u16(text) {
            Ok(port) => Ok(Some(port)),
            Err(e) => Err(ErrorView::InvalidEnvPort(text, e)),
        },
    }
}

/// The options that the environment gives, one in each line.
pub open spec fn options_var(value: Option<ValueView>) -> Seq<Seq<char>> {
    match optional_var(value) {
        None => seq![],
        Some(joined) => text::split(joined, '\n'),
    }
}

/// The shared directory that the environment gives.
pub open spec fn shared_var(value: Option<ValueView>) -> Option<Seq<u8>> {
    match optional_var(value) {
        None => None,
        Some(dir) => Some(encode_utf8(dir)),
    }
}

/// What a wrapped command learns from its environment. The first variable that is wrong decides
/// which error it is.
pub open spec fn loaded(vars: VarsView) -> Result<EnvView, ErrorView> {
    match port_var(vars.remote_port) {
        Err(e) => Err(e),
        Ok(port) => match required_var(
            "TELEPORT_REMOTE_DESTINATION"@,
            vars.remote_destination,
        ) {
            Err(e) => Err(e),
            Ok(destination) => match required_var("TELEPORT_KNOWN_HOSTS"@, vars.known_hosts) {
                Err(e) => Err(e),
                Ok(known_hosts) => match required_var("TELEPORT_HOST_SSH"@, vars.host_ssh) {
                    Err(e) => Err(e),
                    Ok(host_ssh) => match required_var("TELEPORT_REMOTE_CWD"@, vars.remote_cwd) {
                        Err(e) => Err(e),
                        Ok(remote_cwd) => match required_var(
                            "TELEPORT_REMOTE_HOME"@,
                            vars.remote_home,
                        ) {
                            Err(e) => Err(e),
                            Ok(remote_home) => match required_var(
                                "TELEPORT_REMOTE_SHELL"@,
                                vars.remote_shell,
                            ) {
                                Err(e) => Err(e),
                                Ok(remote_shell) => match required_var(
                                    "TELEPORT_REMOTE_PATH"@,
                                    vars.remote_path,
                                ) {
                                    Err(e) => Err(e),
                                    Ok(remote_path) => Ok(
                                        EnvView {
                                            destination,
                                            port,
                                            identity_file: optional_var(vars.identity_file),
                                            known_hosts,
                                            control_path: optional_var(vars.ssh_control_path),
                                            host_ssh,
                                            batch_mode: var_text(value_bytes(vars.batch_mode)) == Some(
                                                "1"@,
                                            ),
                                            ssh_options: options_var(vars.ssh_options),
                                            remote_cwd,
                                            remote_home,
                                            remote_shell,
                                            remote_path,
                                            shared_dir: shared_var(vars.shared_dir),
                                        },
                                    ),
                                },
                            },
                        },
                    },
                },
            },
        },
    }
}

fn env_text(value: &Option<EnvValue>) -> (r: Option<String>)
    ensures
        util::opt_text(r) == var_text(value_bytes(opt_value(*value))),
{
    match value {
        Some(value) => value.bytes.to_text(),
        None => None,
    }
}

/// The text of a variable that may be missing; an empty one counts as missing.
pub fn env_optional(value: &Option<EnvValue>) -> (r: Option<String>)
    ensures
        util::opt_text(r) == optional_var(opt_value(*value)),
{
    match env_text(value) {
        Some(text) => if text.as_str().is_empty() {
            None
        } else {
            Some(text)
        },
        None => None,
    }
}

/// The text of a variable that must be set.
pub fn env_required(name: &str, value: &Option<EnvValue>) -> (r: Result<String, Error>)
    ensures
        match r {
            Ok(text) => required_var(name@, opt_value(*value)) == Ok::<_, ErrorView>(text@),
            Err(e) => required_var(name@, opt_value(*value)) == Err::<Seq<char>, _>(e@),
        },
{
    match value {
        None => Err(Error::EnvMissing(name.to_string())),
        Some(value) => match value.bytes.to_text() {
            Some(text) => Ok(text),
            None => Err(Error::EnvNotText(name.to_string(), value.quoted.clone())),
        },
    }
}

impl WrapperEnv {
    /// Reads the environment of a wrapped command.
    pub fn load(vars: &WrapperVars) -> (r: Result<Self, Error>)
        ensures
            match r {
                Ok(env) => loaded(vars@) == Ok::<_, ErrorView>(env@),
                Err(e) => loaded(vars@) == Err::<EnvView, _>(e@),
            },
    {
        let port = match env_optional(&vars.remote_port) {
            None => None,
            Some(text) => match decimal::parse_u16(text.as_str()) {
                Ok(port) => Some(port),
                Err(e) => return Err(Error::InvalidEnvPort(text, e)),
            },
        };
        let batch_mode = match env_text(&vars.batch_mode) {
            Some(text) => text::text_equal(text.as_str(), "1"),
            None => false,
        };
        let ssh_options = match env_optional(&vars.ssh_options) {
            None => {
                let none: Vec<String> = Vec::new();
                assert(text::views(none@) =~= seq![]);
                none
            },
            Some(joined) => text::split_text(joined.as_str(), '\n'),
        };
        let destination = match env_required(
            "TELEPORT_REMOTE_DESTINATION",
            &vars.remote_destination,
        ) {
            Ok(text) => text,
            Err(e) => return Err(e),
        };
        let known_hosts = match env_required("TELEPORT_KNOWN_HOSTS", &vars.known_hosts) {
            Ok(text) => text,
            Err(e) => return Err(e),
        };
        let host_ssh = match env_required("TELEPORT_HOST_SSH", &vars.host_ssh) {
            Ok(text) => text,
            Err(e) => return Err(e),
        };
        let remote_cwd = match env_required("TELEPORT_REMOTE_CWD", &vars.remote_cwd) {
            Ok(text) => text,
            Err(e) => return Err(e),
        };
        let remote_home = match env_required("TELEPORT_REMOTE_HOME", &vars.remote_home) {
            Ok(text) => text,
            Err(e) => return Err(e),
        };
        let remote_shell = match env_required("TELEPORT_REMOTE_SHELL", &vars.remote_shell) {
            Ok(text) => text,
            Err(e) => return Err(e),
        };
        let remote_path = match env_required("TELEPORT_REMOTE_PATH", &vars.remote_path) {
            Ok(text) => text,
            Err(e) => return Err(e),
        };
        let shared_dir = match env_optional(&vars.shared_dir) {
            None => None,
            Some(dir) => Some(OsText::from_text(dir.as_str())),
        };
        Ok(
            WrapperEnv {
                destination,
                port,
                identity_file: env_optional(&vars.identity_file),
                known_hosts,
                control_path: env_optional(&vars.ssh_control_path),
                host_ssh,
                batch_mode,
                ssh_options,
                remote_cwd,
                remote_home,
                remote_shell,
                remote_path,
                shared_dir,
            },
        )
    }
}

/// The bytes of an optional text.
pub open spec fn opt_encoded(t: Option<Seq<char>>) -> Option<Seq<u8>> {
    match t {
        Some(t) => Some(encode_utf8(t)),
        None => None,
    }
}

fn opt_path(t: &Option<String>) -> (r: Option<OsText>)
    ensures
        util::opt_bytes(r) == opt_encoded(util::opt_text(*t)),
{
    match t {
        Some(t) => Some(OsText::from_text(t.as_str())),
        None => None,
    }
}

/// The arguments with which a wrapped command connects.
pub open spec fn env_connection_args(env: EnvView) -> Seq<Seq<u8>> {
    connection_args(
        env.destination,
        env.port,
        opt_encoded(env.identity_file),
        Some(encode_utf8(env.known_hosts)),
        opt_encoded(env.control_path),
        env.batch_mode,
        env.ssh_options,
    )
}

/// The ssh command of a wrapped command, up to what the remote host is to run.
pub fn ssh_command_from_env(env: &WrapperEnv) -> (r: CommandLine)
    ensures
        r.program@ == encode_utf8(env.host_ssh@),
        r.args@ == env_connection_args(env@),
        r.args@ == connection_args(
            env.destination@,
            env.port,
            match env.identity_file {
                Some(file) => Some(encode_utf8(file@)),
                None => None,
            },
            Some(encode_utf8(env.known_hosts@)),
            match env.control_path {
                Some(socket) => Some(encode_utf8(socket@)),
                None => None,
            },
            env.batch_mode,
            text::views(env.ssh_options@),
        ),
{
    let mut args = ArgList::new();
    apply_ssh_connection_options(
        &mut args,
        env.destination.as_str(),
        env.port,
        &opt_path(&env.identity_file),
        &Some(OsText::from_text(env.known_hosts.as_str())),
        &opt_path(&env.control_path),
        env.batch_mode,
        &env.ssh_options,
    );
    assert(args@ =~= env_connection_args(env@));
    CommandLine { program: OsText::from_text(env.host_ssh.as_str()), args }
}

/// Whether a directory of the sandbox has no counterpart on the remote host.
pub open spec fn local_only(cwd: Seq<char>) -> bool {
    exists|i: int|
        0 <= i < config::LOCAL_ONLY_PREFIXES@.len() && util::under(
            cwd,
            (#[trigger] config::LOCAL_ONLY_PREFIXES@[i])@,
        )
}

/// The remote directory for the current one: the same, or the default where the current one is
/// local or shared.
pub open spec fn remote_cwd_for(
    default: Seq<char>,
    shared_dir: Option<Seq<u8>>,
    current_dir: Seq<u8>,
) -> Result<Seq<char>, ErrorView> {
    let cwd = decode_utf8(current_dir);
    if !valid_utf8(current_dir) {
        Err(ErrorView::CurrentDirNotText)
    } else if shared_dir matches Some(shared) && util::under(cwd, os_text::shown(shared)) {
        Ok(default)
    } else if local_only(cwd) {
        Ok(default)
    } else {
        Ok(cwd)
    }
}

/// The remote directory for the current one.
pub fn remote_cwd_for_current_dir(
    default_remote_cwd: &str,
    shared_dir: &Option<OsText>,
    current_dir: &OsText,
) -> (r: Result<String, Error>)
    ensures
        match r {
            Ok(dir) => remote_cwd_for(
                default_remote_cwd@,
                util::opt_bytes(*shared_dir),
                current_dir@,
            ) == Ok::<_, ErrorView>(dir@),
            Err(e) => remote_cwd_for(
                default_remote_cwd@,
                util::opt_bytes(*shared_dir),
                current_dir@,
            ) == Err::<Seq<char>, _>(e@),
        },
{
    let cwd = match current_dir.to_text() {
        Some(cwd) => cwd,
        None => return Err(Error::CurrentDirNotText),
    };
    if let Some(shared) = shared_dir {
        if util::path_is_under(cwd.as_str(), shared.shown().as_str()) {
            return Ok(default_remote_cwd.to_string());
        }
    }
    for i in 0..config::LOCAL_ONLY_PREFIXES.len()
        invariant
            valid_utf8(current_dir@),
            cwd@ == decode_utf8(current_dir@),
            !(util::opt_bytes(*shared_dir) matches Some(shared) && util::under(
                cwd@,
                os_text::shown(shared),
            )),
            forall|k: int|
                0 <= k < i ==> !util::under(cwd@, (#[trigger] config::LOCAL_ONLY_PREFIXES@[k])@),
    {
        if util::path_is_under(cwd.as_str(), config::LOCAL_ONLY_PREFIXES[i]) {
            assert(util::under(cwd@, config::LOCAL_ONLY_PREFIXES@[i as int]@));
            return Ok(default_remote_cwd.to_string());
        }
    }
    Ok(cwd)
}

/// The texts of arguments, where all of them are UTF-8.
pub fn texts_of(args: &Vec<OsText>) -> (r: Option<Vec<String>>)
    ensures
        r is Some <==> all_text(os_text::os_views(args@)),
        r matches Some(texts) ==> text::views(texts@) == decoded(os_text::os_views(args@)),
{
    let mut out: Vec<String> = Vec::new();
    let ghost all = os_text::os_views(args@);
    for i in 0..args.len()
        invariant
            all == os_text::os_views(args@),
            out@.len() == i,
            forall|k: int| 0 <= k < i ==> valid_utf8(#[trigger] all[k]),
            forall|k: int| 0 <= k < i ==> (#[trigger] out@[k])@ == decode_utf8(all[k]),
    {
        assert(all[i as int] == args@[i as int]@);
        match args[i].to_text() {
            Some(text) => out.push(text),
            None => {
                assert(!valid_utf8(all[i as int]));
                return None;
            },
        }
    }
    assert(text::views(out@) =~= decoded(all));
    Some(out)
}

/// The arguments of the ssh command that runs a wrapped command on the remote host.
pub open spec fn wrapped_args(
    env: EnvView,
    cwd: Seq<char>,
    argv: Seq<Seq<char>>,
    terminal: bool,
) -> Seq<Seq<u8>> {
    env_connection_args(env) + (if terminal {
        seq![os_text::bytes_of("-tt")]
    } else {
        seq![]
    }) + seq![
        os_text::bytes_of("--"),
        encode_utf8(
            shell_command(
                env.remote_shell,
                remote_command(cwd, env.remote_home, env.remote_path, argv),
            ),
        ),
    ]
}

/// What is run for a wrapped command: ssh, with the command as the remote shell is to read it. A
/// terminal is asked for where the command has one.
pub fn run_wrapper(
    env: &WrapperEnv,
    invoked_as: &str,
    args: &Vec<OsText>,
    current_dir: &OsText,
    terminal: bool,
) -> (r: Result<CommandLine, Error>)
    ensures
        ({
            let cwd = remote_cwd_for(env.remote_cwd@, util::opt_bytes(env.shared_dir), current_dir@);
            let given = os_text::os_views(args@);
            match r {
                Err(e) => match cwd {
                    Err(cwd_error) => e@ == cwd_error,
                    Ok(_) => !all_text(given) && e@ == ErrorView::WrapperArgumentNotText,
                },
                Ok(command) => {
                    &&& cwd is Ok
                    &&& all_text(given)
                    &&& command.program@ == encode_utf8(env.host_ssh@)
                    &&& command.args@ == wrapped_args(
                        env@,
                        cwd->Ok_0,
                        seq![invoked_as@] + decoded(given),
                        terminal,
                    )
                },
            }
        }),
{
    let cwd = match remote_cwd_for_current_dir(
        env.remote_cwd.as_str(),
        &env.shared_dir,
        current_dir,
    ) {
        Ok(cwd) => cwd,
        Err(e) => return Err(e),
    };
    let mut more = match texts_of(args) {
        Some(texts) => texts,
        None => return Err(Error::WrapperArgumentNotText),
    };
    let ghost tail = text::views(more@);
    let mut argv: Vec<String> = Vec::new();
    argv.push(invoked_as.to_string());
    argv.append(&mut more);
    assert(text::views(argv@) =~= seq![invoked_as@] + tail);
    let remote = build_remote_command(
        cwd.as_str(),
        env.remote_home.as_str(),
        env.remote_path.as_str(),
        &argv,
    );
    let mut command = ssh_command_from_env(env);
    let ghost start = command.args@;
    if terminal {
        command.args.push_text("-tt");
    }
    command.args.push_pair(
        "--",
        shell_with_command(env.remote_shell.as_str(), remote.as_str()).as_str(),
    );
    assert(command.args@ =~= wrapped_args(env@, cwd@, text::views(argv@), terminal));
    Ok(command)
}

/// What a program is asked to do when it is run under some name.
#[derive(Debug, PartialEq, Eq)]
pub enum WrapperCall {
    Pull,
    Push,
    Command(String),
}

/// The name under which a program was run; its own where there is none.
pub open spec fn invoked_name(argv0: Option<Seq<u8>>) -> Seq<char> {
    match argv0 {
        Some(p) => match util::name_text(p) {
            Some(name) => name,
            None => "teleport-box"@,
        },
        None => "teleport-box"@,
    }
}

/// Whether a program stands for another one: it is run under another name than its own, and
/// inside the sandbox, which is known by the destination in the environment. The helpers go by
/// their names.
pub fn maybe_run_wrapper(argv0: &Option<OsText>, has_destination: bool) -> (r: Option<WrapperCall>)
    ensures
        ({
            let name = invoked_name(util::opt_bytes(*argv0));
            match r {
                None => name == "teleport-box"@ || !has_destination,
                Some(call) => {
                    &&& name != "teleport-box"@
                    &&& has_destination
                    &&& match call {
                        WrapperCall::Pull => name == "teleport-pull"@,
                        WrapperCall::Push => name != "teleport-pull"@ && name == "teleport-push"@,
                        WrapperCall::Command(c) => name != "teleport-pull"@ && name
                            != "teleport-push"@ && c@ == name,
                    }
                },
            }
        }),
{
    let name = match argv0 {
        Some(p) => match util::file_name(p) {
            Some(name) => name,
            None => "teleport-box".to_string(),
        },
        None => "teleport-box".to_string(),
    };
    if text::text_equal(name.as_str(), "teleport-box") || !has_destination {
        return None;
    }
    if text::text_equal(name.as_str(), "teleport-pull") {
        Some(WrapperCall::Pull)
    } else if text::text_equal(name.as_str(), "teleport-push") {
        Some(WrapperCall::Push)
    } else {
        Some(WrapperCall::Command(name))
    }
}

/// Every option that was asked for becomes two arguments, once and in order: `-o` and the option.
pub proof fn every_option_is_passed_on(options: Seq<Seq<char>>, i: int)
    ensures
        option_args(options).len() == 2 * options.len(),
        0 <= i < options.len() ==> option_args(options)[2 * i] == encode_utf8("-o"@),
        0 <= i < options.len() ==> option_args(options)[2 * i + 1] == encode_utf8(options[i]),
    decreases options.len(),
{
    if options.len() > 0 {
        let init = options.drop_last();
        every_option_is_passed_on(init, i);
        if 0 <= i < init.len() {
            assert(option_args(options)[2 * i] == option_args(init)[2 * i]);
            assert(option_args(options)[2 * i + 1] == option_args(init)[2 * i + 1]);
        }
    }
}

/// ssh is called with all that was asked for, each at its place and nothing else: no configuration
/// file, the identity file, the port, the batch mode, the known hosts, the shared connection, every
/// option in order, and the destination at the end.
pub proof fn ssh_is_called_with_all_that_was_asked_for(
    destination: Seq<char>,
    port: Option<u16>,
    identity_file: Option<Seq<u8>>,
    known_hosts: Option<Seq<u8>>,
    control_path: Option<Seq<u8>>,
    batch_mode: bool,
    ssh_options: Seq<Seq<char>>,
    i: int,
)
    ensures
        ({
            let args = connection_args(
                destination,
                port,
                identity_file,
                known_hosts,
                control_path,
                batch_mode,
                ssh_options,
            );
            let at_port: int = 2 + (if identity_file is Some {
                2int
            } else {
                0
            });
            let at_batch: int = at_port + (if port is Some {
                2int
            } else {
                0
            });
            let at_hosts: int = at_batch + (if batch_mode {
                2int
            } else {
                0
            });
            let at_control: int = at_hosts + (if known_hosts is Some {
                4int
            } else {
                0
            });
            let at_options: int = at_control + (if control_path is Some {
                6int
            } else {
                0
            });
            &&& args.len() == at_options + 2 * ssh_options.len() + 1
            &&& args[0] == encode_utf8("-F"@)
            &&& args[1] == encode_utf8("/dev/null"@)
            &&& identity_file matches Some(file) ==> args[2] == encode_utf8("-i"@) && args[3]
                == file
            &&& port matches Some(p) ==> args[at_port] == encode_utf8("-p"@) && args[at_port + 1]
                == encode_utf8(decimal::decimal(p as nat))
            &&& batch_mode ==> args[at_batch] == encode_utf8("-o"@) && args[at_batch + 1]
                == encode_utf8("BatchMode=yes"@)
            &&& known_hosts matches Some(file) ==> {
                &&& args[at_hosts] == encode_utf8("-o"@)
                &&& args[at_hosts + 1] == encode_utf8("StrictHostKeyChecking=accept-new"@)
                &&& args[at_hosts + 2] == encode_utf8("-o"@)
                &&& args[at_hosts + 3] == encode_utf8(
                    "UserKnownHostsFile="@ + os_text::shown(file),
                )
            }
            &&& control_path matches Some(socket) ==> {
                &&& args[at_control] == encode_utf8("-o"@)
                &&& args[at_control + 1] == encode_utf8("ControlMaster=auto"@)
                &&& args[at_control + 2] == encode_utf8("-o"@)
                &&& args[at_control + 3] == encode_utf8("ControlPersist=no"@)
                &&& args[at_control + 4] == encode_utf8("-S"@)
                &&& args[at_control + 5] == socket
            }
            &&& 0 <= i < ssh_options.len() ==> args[at_options + 2 * i] == encode_utf8("-o"@)
                && args[at_options + 2 * i + 1] == encode_utf8(ssh_options[i])
            &&& args[args.len() - 1] == encode_utf8(destination)
        }),
{
    every_option_is_passed_on(ssh_options, i);
    let c1 = seq![os_text::bytes_of("-F"), os_text::bytes_of("/dev/null")];
    let c2 = c1 + flag_args(os_text::bytes_of("-i"), identity_file);
    let c3 = c2 + flag_args(os_text::bytes_of("-p"), port_bytes(port));
    let c4 = c3 + batch_args(batch_mode);
    let c5 = c4 + known_hosts_args(known_hosts);
    let c6 = c5 + control_args(control_path);
    let options = option_args(ssh_options);
    let args = c6 + options + seq![encode_utf8(destination)];
    if 0 <= i < ssh_options.len() {
        assert(args[c6.len() + 2 * i] == options[2 * i]);
        assert(args[c6.len() + 2 * i + 1] == options[2 * i + 1]);
    }
}

/// A current directory that is text, and that lies neither in the shared directory nor in one of
/// the local ones, is the remote directory as it is, whatever the default; any other that is text
/// gives the default; and one that is no text is refused.
pub proof fn commands_run_where_they_are_called(
    default: Seq<char>,
    shared_dir: Option<Seq<u8>>,
    current_dir: Seq<u8>,
)
    ensures
        ({
            let cwd = decode_utf8(current_dir);
            let here = |prefix: Seq<char>| cwd == prefix || (prefix + seq!['/']).is_prefix_of(cwd);
            let elsewhere = (shared_dir matches Some(shared) && here(os_text::shown(shared)))
                || here("/codex"@) || here("/usr"@) || here("/bin"@) || here("/sbin"@) || here(
                "/lib"@,
            ) || here("/lib64"@) || here("/etc"@) || here("/proc"@) || here("/sys"@) || here(
                "/dev"@,
            ) || here("/run"@) || here("/tmp"@) || here("/shared"@);
            let r = remote_cwd_for(default, shared_dir, current_dir);
            &&& !valid_utf8(current_dir) ==> r == Err::<Seq<char>, _>(ErrorView::CurrentDirNotText)
            &&& valid_utf8(current_dir) && elsewhere ==> r == Ok::<_, ErrorView>(default)
            &&& valid_utf8(current_dir) && !elsewhere ==> r == Ok::<_, ErrorView>(cwd)
        }),
{
    let cwd = decode_utf8(current_dir);
    let list = config::LOCAL_ONLY_PREFIXES@;
    assert forall|prefix: Seq<char>| #[trigger] util::under(cwd, prefix) <==> (cwd == prefix || (
    prefix + seq!['/']).is_prefix_of(cwd)) by {
        assert(prefix.push('/') =~= prefix + seq!['/']);
    }
    assert(list.len() == 13);
    assert(list[0]@ == "/codex"@ && list[1]@ == "/usr"@ && list[2]@ == "/bin"@ && list[3]@
        == "/sbin"@ && list[4]@ == "/lib"@ && list[5]@ == "/lib64"@ && list[6]@ == "/etc"@
        && list[7]@ == "/proc"@ && list[8]@ == "/sys"@ && list[9]@ == "/dev"@ && list[10]@
        == "/run"@ && list[11]@ == "/tmp"@ && list[12]@ == "/shared"@);
    assert(local_only(cwd) <==> util::under(cwd, "/codex"@) || util::under(cwd, "/usr"@)
        || util::under(cwd, "/bin"@) || util::under(cwd, "/sbin"@) || util::under(cwd, "/lib"@)
        || util::under(cwd, "/lib64"@) || util::under(cwd, "/etc"@) || util::under(cwd, "/proc"@)
        || util::under(cwd, "/sys"@) || util::under(cwd, "/dev"@) || util::under(cwd, "/run"@)
        || util::under(cwd, "/tmp"@) || util::under(cwd, "/shared"@));
    if let Some(shared) = shared_dir {
        assert(util::under(cwd, os_text::shown(shared)) <==> (cwd == os_text::shown(shared) || (
        os_text::shown(shared) + seq!['/']).is_prefix_of(cwd)));
    }
}

/// On the remote host, traces of the connection are removed and no history is kept, the directory
/// is entered, and only if that went well are exactly the words of the command run there.
pub proof fn remote_commands_enter_their_directory(
    cwd: Seq<char>,
    home: Seq<char>,
    search_path: Seq<char>,
    argv: Seq<Seq<char>>,
)
    ensures
        exists|dir: Seq<char>, command: Seq<char>|
            #![trigger shell::words(dir), shell::words(command)]
            {
                &&& remote_command(cwd, home, search_path, argv)
                    == "unset SSH_CLIENT SSH_CONNECTION SSH_TTY; export HISTFILE=/dev/null HISTSIZE=0; cd -- "@
                    + dir + " && "@ + command
                &&& shell::words(dir) == Some(seq![cwd])
                &&& shell::words(command) == Some(
                    seq!["exec"@, "env"@, "HOME="@ + home, "PATH="@ + search_path] + argv,
                )
            },
{
    let dir = util::escaped(cwd);
    let command = invocation(home, search_path, argv);
    shell::quoting_keeps_a_word(cwd);
    remote_commands_keep_their_words(home, search_path, argv);
    assert(shell::words(dir) == Some(seq![cwd]));
    assert(shell::words(command) is Some);
}

/// The arguments of a list are decoded one by one.
pub proof fn every_argument_is_decoded(list: Seq<Seq<u8>>, i: int)
    ensures
        decoded(list).len() == list.len(),
        0 <= i < list.len() ==> decoded(list)[i] == decode_utf8(list[i]),
        all_text(list) && 0 <= i < list.len() ==> valid_utf8(list[i]),
{
}

/// The arguments with which a wrapped command connects: those of its environment.
pub open spec fn connection_of(env: EnvView) -> Seq<Seq<u8>> {
    connection_args(
        env.destination,
        env.port,
        match env.identity_file {
            Some(file) => Some(encode_utf8(file)),
            None => None,
        },
        Some(encode_utf8(env.known_hosts)),
        match env.control_path {
            Some(socket) => Some(encode_utf8(socket)),
            None => None,
        },
        env.batch_mode,
        env.ssh_options,
    )
}

/// What stands before the last arguments of a connection: the destination right before them, and
/// the port, where there is one, before that.
pub proof fn connections_name_the_host(env: EnvView)
    ensures
        ({
            let args = connection_of(env);
            &&& args.len() >= 3
            &&& args[args.len() - 1] == encode_utf8(env.destination)
            &&& env.port matches Some(p) ==> exists|j: int|
                0 <= j < args.len() - 2 && #[trigger] args[j] == encode_utf8("-p"@) && args[j + 1]
                    == encode_utf8(decimal::decimal(p as nat))
        }),
{
    let identity = match env.identity_file {
        Some(file) => Some(encode_utf8(file)),
        None => None,
    };
    let control = match env.control_path {
        Some(socket) => Some(encode_utf8(socket)),
        None => None,
    };
    ssh_is_called_with_all_that_was_asked_for(
        env.destination,
        env.port,
        identity,
        Some(encode_utf8(env.known_hosts)),
        control,
        env.batch_mode,
        env.ssh_options,
        0,
    );
    let args = connection_of(env);
    let j: int = 2 + (if identity is Some {
        2int
    } else {
        0
    });
    if let Some(p) = env.port {
        assert(args[j] == encode_utf8("-p"@));
    }
}

/// A wrapped command connects as its environment says, asks for a terminal where it has one, and
/// hands the remote host one more argument: its shell, told to run the command.
pub proof fn wrapped_commands_connect_and_run(
    env: EnvView,
    cwd: Seq<char>,
    argv: Seq<Seq<char>>,
    terminal: bool,
)
    ensures
        ({
            let args = wrapped_args(env, cwd, argv, terminal);
            let n = connection_of(env).len() as int;
            let extra: int = if terminal {
                1
            } else {
                0
            };
            &&& args.len() == n + extra + 2
            &&& args.take(n) == connection_of(env)
            &&& terminal ==> args[n] == encode_utf8("-tt"@)
            &&& args[n + extra] == encode_utf8("--"@)
            &&& exists|text: Seq<char>|
                args[n + extra + 1] == encode_utf8(text) && #[trigger] shell::words(text) == Some(
                    seq![
                        env.remote_shell,
                        "-c"@,
                        remote_command(cwd, env.remote_home, env.remote_path, argv),
                    ],
                )
        }),
{
    let args = wrapped_args(env, cwd, argv, terminal);
    let connection = connection_of(env);
    let command = remote_command(cwd, env.remote_home, env.remote_path, argv);
    assert(env_connection_args(env) == connection);
    assert(args.take(connection.len() as int) =~= connection);
    shell_commands_keep_their_words(env.remote_shell, command);
    let text = shell_command(env.remote_shell, command);
    assert(args.last() == encode_utf8(text));
    assert(shell::words(text) is Some);
}

/// Whether a variable is set to text.
pub open spec fn is_text_value(value: Option<ValueView>) -> bool {
    value matches Some(v) && valid_utf8(v.bytes)
}

/// Whether a variable is set to text that is not empty.
pub open spec fn is_full_value(value: Option<ValueView>) -> bool {
    value matches Some(v) && valid_utf8(v.bytes) && decode_utf8(v.bytes).len() > 0
}

/// The environment is read variable by variable. It is accepted if, and only if, the port is
/// missing or a port number and each variable that must be set is set to text; each part of the
/// connection is then what its own variable says.
pub proof fn environments_are_read_variable_by_variable(vars: VarsView)
    ensures
        ({
            let r = loaded(vars);
            let port_fits = !is_full_value(vars.remote_port) || decimal::parsed_u16(
                decode_utf8(vars.remote_port->0.bytes),
            ) is Ok;
            &&& r is Ok <==> port_fits && is_text_value(vars.remote_destination) && is_text_value(
                vars.known_hosts,
            ) && is_text_value(vars.host_ssh) && is_text_value(vars.remote_cwd) && is_text_value(
                vars.remote_home,
            ) && is_text_value(vars.remote_shell) && is_text_value(vars.remote_path)
            &&& !port_fits ==> (r matches Err(ErrorView::InvalidEnvPort(said, e)) && said
                == decode_utf8(vars.remote_port->0.bytes) && decimal::parsed_u16(said) == Err::<
                u16,
                decimal::NumberError,
            >(e))
            &&& r matches Ok(env) ==> {
                &&& env.destination == decode_utf8(vars.remote_destination->0.bytes)
                &&& env.known_hosts == decode_utf8(vars.known_hosts->0.bytes)
                &&& env.host_ssh == decode_utf8(vars.host_ssh->0.bytes)
                &&& env.remote_cwd == decode_utf8(vars.remote_cwd->0.bytes)
                &&& env.remote_home == decode_utf8(vars.remote_home->0.bytes)
                &&& env.remote_shell == decode_utf8(vars.remote_shell->0.bytes)
                &&& env.remote_path == decode_utf8(vars.remote_path->0.bytes)
                &&& env.port is Some <==> is_full_value(vars.remote_port)
                &&& env.port matches Some(p) ==> decimal::parsed_u16(
                    decode_utf8(vars.remote_port->0.bytes),
                ) == Ok::<u16, decimal::NumberError>(p)
                &&& env.identity_file is Some <==> is_full_value(vars.identity_file)
                &&& env.identity_file matches Some(file) ==> file == decode_utf8(
                    vars.identity_file->0.bytes,
                )
                &&& env.control_path is Some <==> is_full_value(vars.ssh_control_path)
                &&& env.control_path matches Some(socket) ==> socket == decode_utf8(
                    vars.ssh_control_path->0.bytes,
                )
                &&& env.shared_dir is Some <==> is_full_value(vars.shared_dir)
                &&& env.shared_dir matches Some(dir) ==> dir == vars.shared_dir->0.bytes
                &&& env.batch_mode <==> is_text_value(vars.batch_mode) && decode_utf8(
                    vars.batch_mode->0.bytes,
                ) == "1"@
                &&& !is_full_value(vars.ssh_options) ==> env.ssh_options.len() == 0
                &&& is_full_value(vars.ssh_options) ==> text::join(env.ssh_options, seq!['\n'])
                    == decode_utf8(vars.ssh_options->0.bytes) && env.ssh_options.len() > 0
                    && forall|i: int|
                    0 <= i < env.ssh_options.len() ==> !(#[trigger] env.ssh_options[i]).contains(
                        '\n',
                    )
            }
        }),
{
    if is_full_value(vars.ssh_options) {
        let joined = decode_utf8(vars.ssh_options->0.bytes);
        text::joining_undoes_splitting(joined, '\n');
        text::lemma_split_pieces(joined, '\n');
    }
    if is_full_value(vars.shared_dir) {
        vstd::utf8::decode_utf8_encode_utf8(vars.shared_dir->0.bytes);
    }
}

/// Where the port is no reason to stop, the first variable that must be set and is not, in the order
/// in which they are read, is the one that is named, with how the system quotes it where it is no
/// text.
pub proof fn the_first_missing_variable_is_named(vars: VarsView, i: int)
    requires
        0 <= i < 7,
    ensures
        ({
            let names = seq![
                "TELEPORT_REMOTE_DESTINATION"@,
                "TELEPORT_KNOWN_HOSTS"@,
                "TELEPORT_HOST_SSH"@,
                "TELEPORT_REMOTE_CWD"@,
                "TELEPORT_REMOTE_HOME"@,
                "TELEPORT_REMOTE_SHELL"@,
                "TELEPORT_REMOTE_PATH"@,
            ];
            let values = seq![
                vars.remote_destination,
                vars.known_hosts,
                vars.host_ssh,
                vars.remote_cwd,
                vars.remote_home,
                vars.remote_shell,
                vars.remote_path,
            ];
            let port_fits = !is_full_value(vars.remote_port) || decimal::parsed_u16(
                decode_utf8(vars.remote_port->0.bytes),
            ) is Ok;
            port_fits && !is_text_value(values[i]) && (forall|j: int|
                0 <= j < i ==> is_text_value(#[trigger] values[j])) ==> loaded(vars) == Err::<
                EnvView,
                _,
            >(
                match values[i] {
                    None => ErrorView::EnvMissing(names[i]),
                    Some(v) => ErrorView::EnvNotText(names[i], v.quoted),
                },
            )
        }),
{
    let values = seq![
        vars.remote_destination,
        vars.known_hosts,
        vars.host_ssh,
        vars.remote_cwd,
        vars.remote_home,
        vars.remote_shell,
        vars.remote_path,
    ];
    if forall|j: int| 0 <= j < i ==> is_text_value(#[trigger] values[j]) {
        assert(i > 0 ==> is_text_value(values[0]));
        assert(i > 1 ==> is_text_value(values[1]));
        assert(i > 2 ==> is_text_value(values[2]));
        assert(i > 3 ==> is_text_value(values[3]));
        assert(i > 4 ==> is_text_value(values[4]));
        assert(i > 5 ==> is_text_value(values[5]));
    }
}

/// The tool stands for the command whose name it is run under, wherever that lies.
pub proof fn commands_go_by_the_name_they_are_run_under(dir: Seq<u8>, name: Seq<char>)
    requires
        !encode_utf8(name).contains(path::SLASH),
        name.len() > 0,
        name != seq!['.'],
        name != seq!['.', '.'],
    ensures
        invoked_name(Some(path::joined(dir, encode_utf8(name)))) == name,
        invoked_name(None) == "teleport-box"@,
{
    util::files_are_named_by_their_last_component(dir, name);
}

/// The ssh that is run is the one that was found; only where none was, it is left to the search path.
pub proof fn the_ssh_that_was_found_is_run(found: Seq<u8>)
    ensures
        host_ssh_program(Some(found)) == found,
        host_ssh_program(None) == encode_utf8("ssh"@),
{
}

/// A wrapped command connects with all that its environment says, each at its place and nothing
/// else.
pub proof fn connections_use_the_whole_environment(env: EnvView, i: int)
    ensures
        ({
            let args = env_connection_args(env);
            let at_port: int = 2 + (if env.identity_file is Some {
                2int
            } else {
                0
            });
            let at_batch: int = at_port + (if env.port is Some {
                2int
            } else {
                0
            });
            let at_hosts: int = at_batch + (if env.batch_mode {
                2int
            } else {
                0
            });
            let at_control = at_hosts + 4;
            let at_options: int = at_control + (if env.control_path is Some {
                6int
            } else {
                0
            });
            &&& args.len() == at_options + 2 * env.ssh_options.len() + 1
            &&& args[0] == encode_utf8("-F"@)
            &&& args[1] == encode_utf8("/dev/null"@)
            &&& env.identity_file matches Some(file) ==> args[2] == encode_utf8("-i"@) && args[3]
                == encode_utf8(file)
            &&& env.port matches Some(p) ==> args[at_port] == encode_utf8("-p"@) && args[at_port
                + 1] == encode_utf8(decimal::decimal(p as nat))
            &&& env.batch_mode ==> args[at_batch] == encode_utf8("-o"@) && args[at_batch + 1]
                == encode_utf8("BatchMode=yes"@)
            &&& args[at_hosts] == encode_utf8("-o"@)
            &&& args[at_hosts + 1] == encode_utf8("StrictHostKeyChecking=accept-new"@)
            &&& args[at_hosts + 2] == encode_utf8("-o"@)
            &&& args[at_hosts + 3] == encode_utf8("UserKnownHostsFile="@ + env.known_hosts)
            &&& env.control_path matches Some(socket) ==> {
                &&& args[at_control] == encode_utf8("-o"@)
                &&& args[at_control + 1] == encode_utf8("ControlMaster=auto"@)
                &&& args[at_control + 2] == encode_utf8("-o"@)
                &&& args[at_control + 3] == encode_utf8("ControlPersist=no"@)
                &&& args[at_control + 4] == encode_utf8("-S"@)
                &&& args[at_control + 5] == encode_utf8(socket)
            }
            &&& 0 <= i < env.ssh_options.len() ==> args[at_options + 2 * i] == encode_utf8("-o"@)
                && args[at_options + 2 * i + 1] == encode_utf8(env.ssh_options[i])
            &&& args[args.len() - 1] == encode_utf8(env.destination)
        }),
{
    let identity = match env.identity_file {
        Some(file) => Some(encode_utf8(file)),
        None => None,
    };
    let control = match env.control_path {
        Some(socket) => Some(encode_utf8(socket)),
        None => None,
    };
    os_text::lemma_text_shown(env.known_hosts);
    ssh_is_called_with_all_that_was_asked_for(
        env.destination,
        env.port,
        identity,
        Some(encode_utf8(env.known_hosts)),
        control,
        env.batch_mode,
        env.ssh_options,
        i,
    );
    assert(env_connection_args(env) == connection_of(env));
}

} // verus!
