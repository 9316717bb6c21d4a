//! What the tool is asked to do: the command line, the target, and what follows from them.
use vstd::prelude::*;
use crate::decimal;
use crate::error::{Error, ErrorView};
use crate::names::ExecIndex;
use crate::os_text::OsText;
use crate::path;
use crate::text;
use crate::util;

verus! {

/// Directories of the sandbox that have no counterpart on the remote host.
pub const LOCAL_ONLY_PREFIXES: [&'static str; 13] = [
    "/codex",
    "/usr",
    "/bin",
    "/sbin",
    "/lib",
    "/lib64",
    "/etc",
    "/proc",
    "/sys",
    "/dev",
    "/run",
    "/tmp",
    "/shared",
];

/// Directories of the remote host that are always mounted.
pub const REMOTE_BIND_DIRS: [&'static str; 8] = [
    "/root",
    "/home",
    "/opt",
    "/srv",
    "/mnt",
    "/media",
    "/usr/local",
    "/var/tmp",
];

/// Commands of the sandbox that move files between the hosts.
pub const SANDBOX_HELPER_COMMANDS: [&'static str; 2] = ["teleport-pull", "teleport-push"];

/// The texts of a list of literals.
pub open spec fn literals(list: Seq<&'static str>) -> Seq<Seq<char>> {
    list.map_values(|s: &'static str| s@)
}

#[derive(Debug)]
pub struct Cli {
    pub command: Commands,
}

#[derive(Debug)]
pub enum Commands {
    /// Probe the remote host.
    Doctor(DoctorArgs),
    /// Run an interactive shell.
    Shell(ShellArgs),
    /// Run a command.
    Exec(ExecArgs),
    /// Run the local Codex.
    Codex(CodexArgs),
}

#[derive(Clone, Debug)]
pub struct ConnectionArgs {
    /// `[user@]host[:port]` or `ssh://user@host:port`.
    pub target: Option<String>,
    pub host: Option<String>,
    pub user: Option<String>,
    pub port: Option<u16>,
    pub identity_file: Option<OsText>,
    pub ssh_option: Vec<String>,
    pub batch_mode: bool,
    pub remote_cwd: String,
    pub remote_home: String,
    pub remote_shell: Option<String>,
    pub remote_bin_dir: Vec<String>,
    pub shared_dir: Option<OsText>,
}

#[derive(Clone, Debug)]
pub struct DoctorArgs {
    pub connection: ConnectionArgs,
}

#[derive(Clone, Debug)]
pub struct ShellArgs {
    pub connection: ConnectionArgs,
    pub shell_args: Vec<String>,
}

#[derive(Clone, Debug)]
pub struct ExecArgs {
    pub connection: ConnectionArgs,
    pub command: Vec<String>,
}

#[derive(Clone, Debug)]
pub struct CodexArgs {
    pub connection: ConnectionArgs,
    pub codex_binary: Option<OsText>,
    pub codex_args: Vec<String>,
}

#[derive(Clone, Debug)]
pub struct TeleportConfig {
    pub host: String,
    pub user: Option<String>,
    pub port: Option<u16>,
    pub identity_file: Option<OsText>,
    pub ssh_options: Vec<String>,
    pub batch_mode: bool,
    pub remote_cwd: String,
    pub remote_home: String,
    pub remote_shell: Option<String>,
    pub remote_bin_dirs: Vec<String>,
    pub shared_dir: Option<OsText>,
}

/// What is to be run in the sandbox, as it was asked for.
#[derive(Debug)]
pub enum LaunchMode {
    Shell(Vec<String>),
    Arbitrary(Vec<String>),
    Codex {
        codex_package_root: OsText,
        node_binary: OsText,
        apply_patch_binary: Option<OsText>,
        codex_args: Vec<String>,
    },
}

/// What is to be run in the sandbox.
#[derive(Debug)]
pub enum LaunchSpec {
    Arbitrary { program: String, args: Vec<String>, apply_patch_binary: Option<OsText> },
    Codex {
        codex_package_root: OsText,
        node_binary: OsText,
        apply_patch_binary: Option<OsText>,
        codex_args: Vec<String>,
    },
}

/// Where the files of one run are.
#[derive(Debug)]
pub struct RuntimeLayout {
    pub self_binary: OsText,
    pub remote_root_mount: OsText,
    pub codex_home: OsText,
    pub wrapper_dir: OsText,
    pub exec_overlay_root: OsText,
    pub ssh_control_dir: OsText,
    pub ssh_control_socket: OsText,
    pub sandbox_identity_file: OsText,
    pub sandbox_known_hosts: OsText,
    pub sshfs_ssh_command: OsText,
}

/// A directory at which the remote root is mounted.
#[derive(Debug)]
pub struct MountGuard {
    pub mountpoint: OsText,
}

/// What was found out about the remote host.
#[derive(Clone, Debug)]
pub struct RemoteProfile {
    pub shell_path: String,
    pub shell_name: String,
    pub remote_path: Vec<String>,
    pub exec_names_by_dir: ExecIndex,
    pub busybox_like: bool,
}

/// The user, the host and the port of a target.
pub type TargetParts = (Option<String>, String, Option<u16>);

/// What the parts of a target hold.
pub type TargetView = (Option<Seq<char>>, Seq<char>, Option<u16>);

pub open spec fn parts_view(p: TargetParts) -> TargetView {
    (util::opt_text(p.0), p.1@, p.2)
}

pub open spec fn parts_result(r: Result<TargetParts, Error>) -> Result<TargetView, ErrorView> {
    match r {
        Ok(p) => Ok(parts_view(p)),
        Err(e) => Err(e@),
    }
}

/// What is before the first `c`, if there is one, and what is behind it.
pub open spec fn cut(s: Seq<char>, c: char) -> (Option<Seq<char>>, Seq<char>) {
    if s.contains(c) {
        let k = text::first_at(s, c);
        (Some(s.take(k)), s.skip(k + 1))
    } else {
        (None, s)
    }
}

/// A port number, or the error that says it is none.
pub open spec fn parsed_port(s: Seq<char>) -> Result<u16, ErrorView> {
    match decimal::parsed_u16(s) {
        Ok(port) => Ok(port),
        Err(e) => Err(ErrorView::InvalidTargetPort(s, e)),
    }
}

/// A host, and behind the only colon a port. Where there are more colons, or something else than
/// digits behind the last, all of it is the host.
pub open spec fn parsed_host_and_port(s: Seq<char>) -> Result<
    (Seq<char>, Option<u16>),
    ErrorView,
> {
    let k = text::last_at(s, ':');
    if s.contains(':') && decimal::all_digits(s.skip(k + 1)) && !s.take(k).contains(':') {
        match parsed_port(s.skip(k + 1)) {
            Ok(port) => Ok((s.take(k), Some(port))),
            Err(e) => Err(e),
        }
    } else {
        Ok((s, None))
    }
}

/// A target with the host in brackets; `None` where no bracket opens the host.
pub open spec fn parsed_bracketed(s: Seq<char>) -> Result<Option<TargetView>, ErrorView> {
    let (user, rest) = cut(s, '@');
    let end = text::first_at(rest, ']');
    let suffix = rest.skip(end + 1);
    if rest.len() == 0 || rest[0] != '[' {
        Ok(None)
    } else if !rest.contains(']') {
        Err(ErrorView::UnclosedBracket(s))
    } else if suffix.len() == 0 {
        Ok(Some((user, rest.subrange(1, end), None)))
    } else if suffix[0] == ':' {
        match parsed_port(suffix.skip(1)) {
            Ok(port) => Ok(Some((user, rest.subrange(1, end), Some(port)))),
            Err(e) => Err(e),
        }
    } else {
        Err(ErrorView::InvalidTargetSuffix(suffix))
    }
}

/// A target without the scheme in front.
pub open spec fn without_scheme(s: Seq<char>) -> Seq<char> {
    if "ssh://"@.is_prefix_of(s) {
        s.skip("ssh://"@.len() as int)
    } else {
        s
    }
}

/// A target without brackets; `whole` is what an error quotes.
pub open spec fn parsed_plain(s: Seq<char>, whole: Seq<char>) -> Result<TargetView, ErrorView> {
    let (user, rest) = cut(s, '@');
    if user matches Some(u) && (u.len() == 0 || rest.len() == 0) {
        Err(ErrorView::InvalidTarget(whole))
    } else {
        match parsed_host_and_port(rest) {
            Ok((host, port)) => Ok((user, host, port)),
            Err(e) => Err(e),
        }
    }
}

/// A target: `[user@]host[:port]`, with `ssh://` before it or not, and with brackets around the
/// host or not.
pub open spec fn parsed_target(raw: Seq<char>) -> Result<TargetView, ErrorView> {
    let s = text::trimmed(raw);
    if s.len() == 0 {
        Err(ErrorView::EmptyTarget)
    } else {
        match parsed_bracketed(without_scheme(s)) {
            Err(e) => Err(e),
            Ok(Some(parts)) => Ok(parts),
            Ok(None) => parsed_plain(without_scheme(s), s),
        }
    }
}

/// The target that the command line gives: as a whole or, as before, in parts.
pub open spec fn target_of(c: ConnectionArgs) -> Result<TargetView, ErrorView> {
    if c.target is Some && (c.host is Some || c.user is Some || c.port is Some) {
        Err(ErrorView::MixedTarget)
    } else {
        match (c.target, c.host) {
            (Some(target), _) => parsed_target(target@),
            (None, Some(host)) => Ok((util::opt_text(c.user), host@, c.port)),
            (None, None) => Err(ErrorView::MissingTarget),
        }
    }
}

pub open spec fn absolute_text(s: Seq<char>) -> bool {
    s.len() > 0 && s[0] == '/'
}

/// The target of a connection whose remote paths are all absolute; the first thing wrong
/// decides which error it is.
pub open spec fn checked(c: ConnectionArgs) -> Result<TargetView, ErrorView> {
    if !absolute_text(c.remote_cwd@) {
        Err(ErrorView::RemoteCwdNotAbsolute)
    } else if !absolute_text(c.remote_home@) {
        Err(ErrorView::RemoteHomeNotAbsolute)
    } else if exists|i: int|
        0 <= i < c.remote_bin_dir@.len() && !absolute_text((#[trigger] c.remote_bin_dir@[i])@) {
        Err(ErrorView::RemoteBinDirNotAbsolute)
    } else {
        target_of(c)
    }
}

/// A text copied, where there is one.
pub fn copy_text(t: &Option<String>) -> (r: Option<String>)
    ensures
        util::opt_text(r) == util::opt_text(*t),
{
    match t {
        Some(t) => Some(t.clone()),
        None => None,
    }
}

fn cut_text(s: &str, c: char) -> (r: (Option<String>, String))
    ensures
        (util::opt_text(r.0), r.1@) == cut(s@, c),
{
    match text::split_once(s, c) {
        Some((a, b)) => (Some(a), b),
        None => (None, s.to_string()),
    }
}

fn parse_port(s: &str) -> (r: Result<u16, Error>)
    ensures
        match r {
            Ok(port) => parsed_port(s@) == Ok::<u16, ErrorView>(port),
            Err(e) => parsed_port(s@) == Err::<u16, ErrorView>(e@),
        },
{
    match decimal::parse_u16(s) {
        Ok(port) => Ok(port),
        Err(e) => Err(Error::InvalidTargetPort(s.to_string(), e)),
    }
}

fn only_digits(s: &str) -> (r: bool)
    ensures
        r == decimal::all_digits(s@),
{
    let chars = text::chars_of(s);
    for i in 0..chars.len()
        invariant
            chars@ == s@,
            forall|k: int| 0 <= k < i ==> decimal::digit(#[trigger] s@[k]),
    {
        if !decimal::is_digit(chars[i]) {
            assert(!decimal::digit(s@[i as int]));
            return false;
        }
    }
    true
}

/// Splits a host from the port behind it.
pub fn split_host_and_port(raw: &str) -> (r: Result<(String, Option<u16>), Error>)
    ensures
        match r {
            Ok((host, port)) => parsed_host_and_port(raw@) == Ok::<_, ErrorView>((host@, port)),
            Err(e) => parsed_host_and_port(raw@) == Err::<(Seq<char>, Option<u16>), _>(e@),
        },
{
    if let Some((host, port_text)) = text::rsplit_once(raw, ':') {
        if only_digits(port_text.as_str()) && !text::has_char(host.as_str(), ':') {
            return match parse_port(port_text.as_str()) {
                Ok(port) => Ok((host, Some(port))),
                Err(e) => Err(e),
            };
        }
    }
    Ok((raw.to_string(), None))
}

/// Reads a target with the host in brackets.
pub fn parse_bracketed_target(raw: &str) -> (r: Result<Option<TargetParts>, Error>)
    ensures
        match r {
            Ok(Some(parts)) => parsed_bracketed(raw@) == Ok::<_, ErrorView>(
                Some(parts_view(parts)),
            ),
            Ok(None) => parsed_bracketed(raw@) == Ok::<Option<TargetView>, ErrorView>(None),
            Err(e) => parsed_bracketed(raw@) == Err::<Option<TargetView>, _>(e@),
        },
{
    let (user, rest) = cut_text(raw, '@');
    let chars = text::chars_of(rest.as_str());
    if chars.len() == 0 || chars[0] != '[' {
        return Ok(None);
    }
    match text::split_once(rest.as_str(), ']') {
        None => Err(Error::UnclosedBracket(raw.to_string())),
        Some((front, suffix)) => {
            let inner = text::chars_of(front.as_str());
            proof {
                text::lemma_first_at(rest@, ']');
                assert(rest@[0] == '[');
                assert(inner@.len() == text::first_at(rest@, ']'));
            }
            let host = text::text_of(&inner, 1, inner.len());
            assert(host@ =~= rest@.subrange(1, text::first_at(rest@, ']')));
            let tail = text::chars_of(suffix.as_str());
            if tail.len() == 0 {
                Ok(Some((user, host, None)))
            } else if tail[0] == ':' {
                let port_text = text::text_of(&tail, 1, tail.len());
                assert(port_text@ =~= suffix@.skip(1));
                match parse_port(port_text.as_str()) {
                    Ok(port) => Ok(Some((user, host, Some(port)))),
                    Err(e) => Err(e),
                }
            } else {
                Err(Error::InvalidTargetSuffix(suffix))
            }
        },
    }
}

/// Reads a target.
pub fn parse_target(raw: &str) -> (r: Result<TargetParts, Error>)
    ensures
        parts_result(r) == parsed_target(raw@),
{
    let trimmed = text::trim(raw);
    if trimmed.as_str().is_empty() {
        return Err(Error::EmptyTarget);
    }
    let body = match text::strip_prefix(trimmed.as_str(), "ssh://") {
        Some(rest) => rest,
        None => trimmed.clone(),
    };
    match parse_bracketed_target(body.as_str()) {
        Err(e) => return Err(e),
        Ok(Some(parts)) => return Ok(parts),
        Ok(None) => {},
    }
    let (user, rest) = cut_text(body.as_str(), '@');
    if let Some(name) = &user {
        if name.as_str().is_empty() || rest.as_str().is_empty() {
            return Err(Error::InvalidTarget(trimmed));
        }
    }
    match split_host_and_port(rest.as_str()) {
        Ok((host, port)) => Ok((user, host, port)),
        Err(e) => Err(e),
    }
}

/// The target that the command line gives.
pub fn resolve_target_parts(connection: &ConnectionArgs) -> (r: Result<TargetParts, Error>)
    ensures
        parts_result(r) == target_of(*connection),
{
    if connection.target.is_some() && (connection.host.is_some() || connection.user.is_some()
        || connection.port.is_some()) {
        return Err(Error::MixedTarget);
    }
    if let Some(target) = &connection.target {
        return parse_target(target.as_str());
    }
    match &connection.host {
        Some(host) => Ok((copy_text(&connection.user), host.clone(), connection.port)),
        None => Err(Error::MissingTarget),
    }
}

fn is_absolute_text(s: &str) -> (r: bool)
    ensures
        r == absolute_text(s@),
{
    let chars = text::chars_of(s);
    chars.len() > 0 && chars[0] == '/'
}

/// Checks a connection before anything is done for it, and gives its target.
pub fn check_connection(connection: &ConnectionArgs) -> (r: Result<TargetParts, Error>)
    ensures
        parts_result(r) == checked(*connection),
{
    if !is_absolute_text(connection.remote_cwd.as_str()) {
        return Err(Error::RemoteCwdNotAbsolute);
    }
    if !is_absolute_text(connection.remote_home.as_str()) {
        return Err(Error::RemoteHomeNotAbsolute);
    }
    for i in 0..connection.remote_bin_dir.len()
        invariant
            absolute_text(connection.remote_cwd@),
            absolute_text(connection.remote_home@),
            forall|k: int|
                0 <= k < i ==> absolute_text((#[trigger] connection.remote_bin_dir@[k])@),
    {
        if !is_absolute_text(connection.remote_bin_dir[i].as_str()) {
            assert(!absolute_text(connection.remote_bin_dir@[i as int]@));
            return Err(Error::RemoteBinDirNotAbsolute);
        }
    }
    resolve_target_parts(connection)
}

/// `path` seen from the current directory.
pub fn absolutize(path: &OsText, current_dir: &OsText) -> (r: OsText)
    ensures
        r@ == path::joined(current_dir@, path@),
{
    path::join(current_dir, path)
}

/// Where a host is contacted as `user@host`.
pub open spec fn destination_of(user: Option<Seq<char>>, host: Seq<char>) -> Seq<char> {
    match user {
        Some(user) => user + "@"@ + host,
        None => host,
    }
}

/// A host as it stands before a colon and a path: in brackets, if it has a colon itself.
pub open spec fn host_before_colon(host: Seq<char>) -> Seq<char> {
    if host.contains(':') && !(host.len() > 0 && host[0] == '[') {
        "["@ + host + "]"@
    } else {
        host
    }
}

impl TeleportConfig {
    /// The configuration for a connection. The identity file and the shared directory are given
    /// as they were resolved on disk; they count only where the connection names them.
    pub fn from_connection(
        connection: ConnectionArgs,
        identity_file: Option<OsText>,
        shared_dir: Option<OsText>,
    ) -> (r: Result<Self, Error>)
        ensures
            match r {
                Err(e) => checked(connection) == Err::<TargetView, ErrorView>(e@),
                Ok(c) => {
                    &&& checked(connection) == Ok::<_, ErrorView>(
                        (util::opt_text(c.user), c.host@, c.port),
                    )
                    &&& c.identity_file == (if connection.identity_file is Some {
                        identity_file
                    } else {
                        None
                    })
                    &&& c.ssh_options == connection.ssh_option
                    &&& c.batch_mode == connection.batch_mode
                    &&& c.remote_cwd == connection.remote_cwd
                    &&& c.remote_home == connection.remote_home
                    &&& c.remote_shell == connection.remote_shell
                    &&& c.remote_bin_dirs == connection.remote_bin_dir
                    &&& c.shared_dir == (if connection.shared_dir is Some {
                        shared_dir
                    } else {
                        None
                    })
                },
            },
    {
        let (user, host, port) = match check_connection(&connection) {
            Ok(parts) => parts,
            Err(e) => return Err(e),
        };
        Ok(
            TeleportConfig {
                host,
                user,
                port,
                identity_file: match connection.identity_file {
                    Some(_) => identity_file,
                    None => None,
                },
                ssh_options: connection.ssh_option,
                batch_mode: connection.batch_mode,
                remote_cwd: connection.remote_cwd,
                remote_home: connection.remote_home,
                remote_shell: connection.remote_shell,
                remote_bin_dirs: connection.remote_bin_dir,
                shared_dir: match connection.shared_dir {
                    Some(_) => shared_dir,
                    None => None,
                },
            },
        )
    }

    /// The destination that ssh is given.
    pub open spec fn destination(&self) -> Seq<char> {
        destination_of(util::opt_text(self.user), self.host@)
    }

    /// The destination that ssh is given.
    pub fn ssh_destination(&self) -> (r: String)
        ensures
            r@ == self.destination(),
    {
        match &self.user {
            Some(user) => user.clone().concat("@").concat(self.host.as_str()),
            None => self.host.clone(),
        }
    }

    /// The remote root as sshfs is given it.
    pub open spec fn remote_root(&self) -> Seq<char> {
        destination_of(util::opt_text(self.user), host_before_colon(self.host@)) + ":/"@
    }

    /// The remote root as sshfs is given it.
    pub fn sshfs_source_root(&self) -> (r: String)
        ensures
            r@ == self.remote_root(),
    {
        let chars = text::chars_of(self.host.as_str());
        let host = if text::has_char(self.host.as_str(), ':') && !(chars.len() > 0 && chars[0]
            == '[') {
            "[".to_string().concat(self.host.as_str()).concat("]")
        } else {
            self.host.clone()
        };
        match &self.user {
            Some(user) => user.clone().concat("@").concat(host.as_str()).concat(":/"),
            None => host.concat(":/"),
        }
    }
}

} // verus!
