//! What can go wrong, and how it is said.
use vstd::prelude::*;
use crate::decimal::NumberError;
use crate::os_text;
use crate::os_text::OsText;

verus! {

/// An error, with texts of type `T` and paths of type `P`.
#[derive(Debug, PartialEq, Eq)]
pub enum ErrorOf<T, P> {
    /// The remote working directory is not an absolute path.
    RemoteCwdNotAbsolute,
    /// The remote home directory is not an absolute path.
    RemoteHomeNotAbsolute,
    /// A directory of remote binaries is not an absolute path.
    RemoteBinDirNotAbsolute,
    /// The target is given in two ways.
    MixedTarget,
    /// No target is given.
    MissingTarget,
    /// The target is empty or white space.
    EmptyTarget,
    /// The user or the host before or behind the `@` of this target is empty.
    InvalidTarget(T),
    /// This target opens a bracket that nothing closes.
    UnclosedBracket(T),
    /// This follows the bracket of a target, and is no port.
    InvalidTargetSuffix(T),
    /// This port of a target is no port number.
    InvalidTargetPort(T, NumberError),
    /// This program is not on the search path.
    BinaryNotFound(T),
    /// A process ended with neither an exit code nor a signal.
    NoExitStatus,
    /// There is no command to run.
    MissingCommand,
    /// The identity file is gone.
    IdentityFileMissing(P),
    /// The directory of the Codex package is gone.
    CodexRootMissing(P),
    /// The Node binary is gone.
    NodeMissing(P),
    /// None of the remote shells works.
    NoRemoteShell,
    /// A remote probe failed with this on its error output.
    ProbeFailed(T),
    /// The remote root could not be mounted; this was the exit status.
    MountFailed(T),
    /// This program could not unmount; that was its exit status.
    UnmountFailed(T, T),
    /// The shared connection could not be set up; this was the exit status.
    SshMasterFailed(T),
    /// A local program was not found, in these words.
    LocalBinaryMissing(T),
    /// The Codex binary lies in no directory.
    CodexBinaryWithoutParent,
    /// The `bin` directory of the Codex binary lies in no directory.
    CodexBinaryWithoutRoot,
    /// There is no package next to this Codex binary.
    CodexRootNotFound(P),
    /// An argument of a wrapped command is not UTF-8.
    WrapperArgumentNotText,
    /// There is no shared directory to pull into.
    PullNeedsSharedDir,
    /// An argument of a pull is not UTF-8.
    PullArgumentNotText,
    /// A pull was asked for without saying of what.
    PullUsage,
    /// A pull failed with this on its error output.
    PullFailed(T),
    /// There is no shared directory to push from.
    PushNeedsSharedDir,
    /// An argument of a push is not UTF-8.
    PushArgumentNotText,
    /// A push takes two arguments.
    PushUsage,
    /// The current directory is not UTF-8.
    CurrentDirNotText,
    /// Neither this shared path nor a directory above it exists.
    NoExistingParent(P),
    /// A path does not lie in this shared directory.
    OutsideSharedDir(P),
    /// This path ends in no file name.
    NoFileName(T),
    /// This environment variable is not set.
    EnvMissing(T),
    /// This environment variable holds what is quoted so, which is not UTF-8.
    EnvNotText(T, T),
    /// The environment holds this for the port, and it is no port number.
    InvalidEnvPort(T, NumberError),
}

pub type Error = ErrorOf<String, OsText>;

/// What an error says: the characters of its texts, the bytes of its paths.
pub type ErrorView = ErrorOf<Seq<char>, Seq<u8>>;

impl View for ErrorOf<String, OsText> {
    type V = ErrorOf<Seq<char>, Seq<u8>>;

    open spec fn view(&self) -> ErrorOf<Seq<char>, Seq<u8>> {
        match *self {
            ErrorOf::RemoteCwdNotAbsolute => ErrorOf::RemoteCwdNotAbsolute,
            ErrorOf::RemoteHomeNotAbsolute => ErrorOf::RemoteHomeNotAbsolute,
            ErrorOf::RemoteBinDirNotAbsolute => ErrorOf::RemoteBinDirNotAbsolute,
            ErrorOf::MixedTarget => ErrorOf::MixedTarget,
            ErrorOf::MissingTarget => ErrorOf::MissingTarget,
            ErrorOf::EmptyTarget => ErrorOf::EmptyTarget,
            ErrorOf::InvalidTarget(a) => ErrorOf::InvalidTarget(a@),
            ErrorOf::UnclosedBracket(a) => ErrorOf::UnclosedBracket(a@),
            ErrorOf::InvalidTargetSuffix(a) => ErrorOf::InvalidTargetSuffix(a@),
            ErrorOf::InvalidTargetPort(a, b) => ErrorOf::InvalidTargetPort(a@, b),
            ErrorOf::BinaryNotFound(a) => ErrorOf::BinaryNotFound(a@),
            ErrorOf::NoExitStatus => ErrorOf::NoExitStatus,
            ErrorOf::MissingCommand => ErrorOf::MissingCommand,
            ErrorOf::IdentityFileMissing(a) => ErrorOf::IdentityFileMissing(a@),
            ErrorOf::CodexRootMissing(a) => ErrorOf::CodexRootMissing(a@),
            ErrorOf::NodeMissing(a) => ErrorOf::NodeMissing(a@),
            ErrorOf::NoRemoteShell => ErrorOf::NoRemoteShell,
            ErrorOf::ProbeFailed(a) => ErrorOf::ProbeFailed(a@),
            ErrorOf::MountFailed(a) => ErrorOf::MountFailed(a@),
            ErrorOf::UnmountFailed(a, b) => ErrorOf::UnmountFailed(a@, b@),
            ErrorOf::SshMasterFailed(a) => ErrorOf::SshMasterFailed(a@),
            ErrorOf::LocalBinaryMissing(a) => ErrorOf::LocalBinaryMissing(a@),
            ErrorOf::CodexBinaryWithoutParent => ErrorOf::CodexBinaryWithoutParent,
            ErrorOf::CodexBinaryWithoutRoot => ErrorOf::CodexBinaryWithoutRoot,
            ErrorOf::CodexRootNotFound(a) => ErrorOf::CodexRootNotFound(a@),
            ErrorOf::WrapperArgumentNotText => ErrorOf::WrapperArgumentNotText,
            ErrorOf::PullNeedsSharedDir => ErrorOf::PullNeedsSharedDir,
            ErrorOf::PullArgumentNotText => ErrorOf::PullArgumentNotText,
            ErrorOf::PullUsage => ErrorOf::PullUsage,
            ErrorOf::PullFailed(a) => ErrorOf::PullFailed(a@),
            ErrorOf::PushNeedsSharedDir => ErrorOf::PushNeedsSharedDir,
            ErrorOf::PushArgumentNotText => ErrorOf::PushArgumentNotText,
            ErrorOf::PushUsage => ErrorOf::PushUsage,
            ErrorOf::CurrentDirNotText => ErrorOf::CurrentDirNotText,
            ErrorOf::NoExistingParent(a) => ErrorOf::NoExistingParent(a@),
            ErrorOf::OutsideSharedDir(a) => ErrorOf::OutsideSharedDir(a@),
            ErrorOf::NoFileName(a) => ErrorOf::NoFileName(a@),
            ErrorOf::EnvMissing(a) => ErrorOf::EnvMissing(a@),
            ErrorOf::EnvNotText(a, b) => ErrorOf::EnvNotText(a@, b@),
            ErrorOf::InvalidEnvPort(a, b) => ErrorOf::InvalidEnvPort(a@, b),
        }
    }
}

impl ErrorOf<Seq<char>, Seq<u8>> {
    /// The error in words.
    pub open spec fn text(self) -> Seq<char> {
        match self {
            ErrorOf::RemoteCwdNotAbsolute => "--remote-cwd must be an absolute path"@,
            ErrorOf::RemoteHomeNotAbsolute => "--remote-home must be an absolute path"@,
            ErrorOf::RemoteBinDirNotAbsolute => "--remote-bin-dir must be an absolute path"@,
            ErrorOf::MixedTarget => "do not mix TARGET with legacy --host/--user/--port"@,
            ErrorOf::MissingTarget => "missing TARGET or --host"@,
            ErrorOf::EmptyTarget => "TARGET must not be empty"@,
            ErrorOf::InvalidTarget(a) => "invalid TARGET: "@ + a,
            ErrorOf::UnclosedBracket(a) => "invalid bracketed TARGET: "@ + a,
            ErrorOf::InvalidTargetSuffix(a) => "invalid bracketed TARGET suffix: "@ + a,
            ErrorOf::InvalidTargetPort(a, b) => "invalid TARGET port: "@ + a + ": "@ + b.text(),
            ErrorOf::BinaryNotFound(a) => "required binary not found on PATH: "@ + a,
            ErrorOf::NoExitStatus => "process exited without code or signal"@,
            ErrorOf::MissingCommand => "missing command after `exec --`"@,
            ErrorOf::IdentityFileMissing(a) => {
                "identity file does not exist: "@ + os_text::shown(a)
            },
            ErrorOf::CodexRootMissing(a) => {
                "codex package root does not exist: "@ + os_text::shown(a)
            },
            ErrorOf::NodeMissing(a) => "node binary does not exist: "@ + os_text::shown(a),
            ErrorOf::NoRemoteShell => {
                "failed to find a working remote shell; tried [\"/bin/sh\", \"/bin/ash\", \"/bin/dash\", \"/bin/bash\", \"/usr/bin/bash\", \"sh\"]"@
            },
            ErrorOf::ProbeFailed(a) => "remote probe failed: "@ + a,
            ErrorOf::MountFailed(a) => "sshfs mount failed with status "@ + a,
            ErrorOf::UnmountFailed(a, b) => a + " returned "@ + b,
            ErrorOf::SshMasterFailed(a) => {
                "failed to establish shared SSH master connection: "@ + a
            },
            ErrorOf::LocalBinaryMissing(a) => a,
            ErrorOf::CodexBinaryWithoutParent => "codex binary has no parent directory"@,
            ErrorOf::CodexBinaryWithoutRoot => "codex binary is missing package root"@,
            ErrorOf::CodexRootNotFound(a) => {
                "could not locate Codex package root next to "@ + os_text::shown(a)
            },
            ErrorOf::WrapperArgumentNotText => "wrapper argument is not valid UTF-8"@,
            ErrorOf::PullNeedsSharedDir => "teleport-pull requires --shared-dir"@,
            ErrorOf::PullArgumentNotText => "teleport-pull argument is not valid UTF-8"@,
            ErrorOf::PullUsage => "usage: teleport-pull <remote-path> [local-path-under-/shared]"@,
            ErrorOf::PullFailed(a) => "teleport-pull failed: "@ + a,
            ErrorOf::PushNeedsSharedDir => "teleport-push requires --shared-dir"@,
            ErrorOf::PushArgumentNotText => "teleport-push argument is not valid UTF-8"@,
            ErrorOf::PushUsage => "usage: teleport-push <local-path-under-/shared> <remote-path>"@,
            ErrorOf::CurrentDirNotText => "current dir is not valid UTF-8"@,
            ErrorOf::NoExistingParent(a) => {
                "shared path has no existing parent: "@ + os_text::shown(a)
            },
            ErrorOf::OutsideSharedDir(a) => "shared path must stay under "@ + os_text::shown(a),
            ErrorOf::NoFileName(a) => "path has no valid file name: "@ + a,
            ErrorOf::EnvMissing(a) => {
                "missing required environment variable `"@
                    + a
                    + "`: environment variable not found"@
            },
            ErrorOf::EnvNotText(a, b) => {
                "missing required environment variable `"@
                    + a
                    + "`: environment variable was not valid unicode: "@
                    + b
            },
            ErrorOf::InvalidEnvPort(a, b) => {
                "invalid TELEPORT_REMOTE_PORT: "@ + a + ": "@ + b.text()
            },
        }
    }
}

/// One text behind the other.
fn with(start: &str, more: &str) -> (r: String)
    ensures
        r@ == start@ + more@,
{
    start.to_string().concat(more)
}

impl ErrorOf<String, OsText> {
    /// The error in words, causes included.
    pub fn message(&self) -> (r: String)
        ensures
            r@ == self@.text(),
    {
        match self {
            ErrorOf::RemoteCwdNotAbsolute => "--remote-cwd must be an absolute path".to_string(),
            ErrorOf::RemoteHomeNotAbsolute => "--remote-home must be an absolute path".to_string(),
            ErrorOf::RemoteBinDirNotAbsolute => {
                "--remote-bin-dir must be an absolute path".to_string()
            },
            ErrorOf::MixedTarget => {
                "do not mix TARGET with legacy --host/--user/--port".to_string()
            },
            ErrorOf::MissingTarget => "missing TARGET or --host".to_string(),
            ErrorOf::EmptyTarget => "TARGET must not be empty".to_string(),
            ErrorOf::InvalidTarget(a) => with("invalid TARGET: ", a.as_str()),
            ErrorOf::UnclosedBracket(a) => with("invalid bracketed TARGET: ", a.as_str()),
            ErrorOf::InvalidTargetSuffix(a) => {
                with("invalid bracketed TARGET suffix: ", a.as_str())
            },
            ErrorOf::InvalidTargetPort(a, b) => {
                with("invalid TARGET port: ", a.as_str()).concat(": ").concat(b.message().as_str())
            },
            ErrorOf::BinaryNotFound(a) => with("required binary not found on PATH: ", a.as_str()),
            ErrorOf::NoExitStatus => "process exited without code or signal".to_string(),
            ErrorOf::MissingCommand => "missing command after `exec --`".to_string(),
            ErrorOf::IdentityFileMissing(a) => {
                with("identity file does not exist: ", a.shown().as_str())
            },
            ErrorOf::CodexRootMissing(a) => {
                with("codex package root does not exist: ", a.shown().as_str())
            },
            ErrorOf::NodeMissing(a) => with("node binary does not exist: ", a.shown().as_str()),
            ErrorOf::NoRemoteShell => {
                "failed to find a working remote shell; tried [\"/bin/sh\", \"/bin/ash\", \"/bin/dash\", \"/bin/bash\", \"/usr/bin/bash\", \"sh\"]".to_string()
            },
            ErrorOf::ProbeFailed(a) => with("remote probe failed: ", a.as_str()),
            ErrorOf::MountFailed(a) => with("sshfs mount failed with status ", a.as_str()),
            ErrorOf::UnmountFailed(a, b) => with(a.as_str(), " returned ").concat(b.as_str()),
            ErrorOf::SshMasterFailed(a) => {
                with("failed to establish shared SSH master connection: ", a.as_str())
            },
            ErrorOf::LocalBinaryMissing(a) => a.clone(),
            ErrorOf::CodexBinaryWithoutParent => "codex binary has no parent directory".to_string(),
            ErrorOf::CodexBinaryWithoutRoot => "codex binary is missing package root".to_string(),
            ErrorOf::CodexRootNotFound(a) => {
                with("could not locate Codex package root next to ", a.shown().as_str())
            },
            ErrorOf::WrapperArgumentNotText => "wrapper argument is not valid UTF-8".to_string(),
            ErrorOf::PullNeedsSharedDir => "teleport-pull requires --shared-dir".to_string(),
            ErrorOf::PullArgumentNotText => "teleport-pull argument is not valid UTF-8".to_string(),
            ErrorOf::PullUsage => {
                "usage: teleport-pull <remote-path> [local-path-under-/shared]".to_string()
            },
            ErrorOf::PullFailed(a) => with("teleport-pull failed: ", a.as_str()),
            ErrorOf::PushNeedsSharedDir => "teleport-push requires --shared-dir".to_string(),
            ErrorOf::PushArgumentNotText => "teleport-push argument is not valid UTF-8".to_string(),
            ErrorOf::PushUsage => {
                "usage: teleport-push <local-path-under-/shared> <remote-path>".to_string()
            },
            ErrorOf::CurrentDirNotText => "current dir is not valid UTF-8".to_string(),
            ErrorOf::NoExistingParent(a) => {
                with("shared path has no existing parent: ", a.shown().as_str())
            },
            ErrorOf::OutsideSharedDir(a) => {
                with("shared path must stay under ", a.shown().as_str())
            },
            ErrorOf::NoFileName(a) => with("path has no valid file name: ", a.as_str()),
            ErrorOf::EnvMissing(a) => {
                with("missing required environment variable `", a.as_str())
                    .concat("`: environment variable not found")
            },
            ErrorOf::EnvNotText(a, b) => {
                with("missing required environment variable `", a.as_str())
                    .concat("`: environment variable was not valid unicode: ").concat(b.as_str())
            },
            ErrorOf::InvalidEnvPort(a, b) => {
                with("invalid TELEPORT_REMOTE_PORT: ", a.as_str())
                    .concat(": ").concat(b.message().as_str())
            },
        }
    }
}

/// An error that names one thing says it at the end, whatever it is: the words before it are the
/// same for each.
pub proof fn errors_name_their_subject(t: Seq<char>, p: Seq<u8>)
    ensures
        ({
            let none = Seq::<char>::empty();
            &&& ErrorView::InvalidTarget(t).text() == ErrorView::InvalidTarget(none).text() + t
            &&& ErrorView::UnclosedBracket(t).text() == ErrorView::UnclosedBracket(none).text() + t
            &&& ErrorView::InvalidTargetSuffix(t).text() == ErrorView::InvalidTargetSuffix(
                none,
            ).text() + t
            &&& ErrorView::BinaryNotFound(t).text() == ErrorView::BinaryNotFound(none).text() + t
            &&& ErrorView::ProbeFailed(t).text() == ErrorView::ProbeFailed(none).text() + t
            &&& ErrorView::MountFailed(t).text() == ErrorView::MountFailed(none).text() + t
            &&& ErrorView::SshMasterFailed(t).text() == ErrorView::SshMasterFailed(none).text() + t
            &&& ErrorView::LocalBinaryMissing(t).text() == t
            &&& ErrorView::PullFailed(t).text() == ErrorView::PullFailed(none).text() + t
            &&& ErrorView::NoFileName(t).text() == ErrorView::NoFileName(none).text() + t
            &&& os_text::shown(p).is_suffix_of(ErrorView::IdentityFileMissing(p).text())
            &&& os_text::shown(p).is_suffix_of(ErrorView::CodexRootMissing(p).text())
            &&& os_text::shown(p).is_suffix_of(ErrorView::NodeMissing(p).text())
            &&& os_text::shown(p).is_suffix_of(ErrorView::CodexRootNotFound(p).text())
            &&& os_text::shown(p).is_suffix_of(ErrorView::NoExistingParent(p).text())
            &&& os_text::shown(p).is_suffix_of(ErrorView::OutsideSharedDir(p).text())
        }),
{
    let none = Seq::<char>::empty();
    assert(ErrorView::InvalidTarget(none).text() =~= "invalid TARGET: "@);
    assert(ErrorView::UnclosedBracket(none).text() =~= "invalid bracketed TARGET: "@);
    assert(ErrorView::InvalidTargetSuffix(none).text() =~= "invalid bracketed TARGET suffix: "@);
    assert(ErrorView::BinaryNotFound(none).text() =~= "required binary not found on PATH: "@);
    assert(ErrorView::ProbeFailed(none).text() =~= "remote probe failed: "@);
    assert(ErrorView::MountFailed(none).text() =~= "sshfs mount failed with status "@);
    assert(ErrorView::SshMasterFailed(none).text()
        =~= "failed to establish shared SSH master connection: "@);
    assert(ErrorView::PullFailed(none).text() =~= "teleport-pull failed: "@);
    assert(ErrorView::NoFileName(none).text() =~= "path has no valid file name: "@);
    let said = os_text::shown(p);
    lemma_suffix("identity file does not exist: "@, said);
    lemma_suffix("codex package root does not exist: "@, said);
    lemma_suffix("node binary does not exist: "@, said);
    lemma_suffix("could not locate Codex package root next to "@, said);
    lemma_suffix("shared path has no existing parent: "@, said);
    lemma_suffix("shared path must stay under "@, said);
}

proof fn lemma_suffix(words: Seq<char>, said: Seq<char>)
    ensures
        said.is_suffix_of(words + said),
{
    let all = words + said;
    assert(all.subrange(all.len() - said.len(), all.len() as int) =~= said);
}

/// An error that names two things says both.
pub proof fn errors_name_both_things(a: Seq<char>, b: Seq<char>, e: NumberError)
    ensures
        ({
            let none = Seq::<char>::empty();
            let port = ErrorView::InvalidTargetPort(a, e).text();
            let var = ErrorView::InvalidEnvPort(a, e).text();
            let unset = ErrorView::EnvMissing(a).text();
            let quoted = ErrorView::EnvNotText(a, b).text();
            &&& port == "invalid TARGET port: "@ + a + seq![':', ' '] + e.text()
            &&& var == "invalid TELEPORT_REMOTE_PORT: "@ + a + seq![':', ' '] + e.text()
            &&& ErrorView::UnmountFailed(a, b).text() == a + ErrorView::UnmountFailed(none, none).text()
                + b
            &&& quoted == ErrorView::EnvNotText(a, none).text() + b
            &&& exists|x: Seq<char>, y: Seq<char>| unset == #[trigger] (x + a + y)
            &&& exists|x: Seq<char>, y: Seq<char>| quoted == #[trigger] (x + a + y)
        }),
{
    let none = Seq::<char>::empty();
    reveal_strlit(": ");
    assert(": "@ =~= seq![':', ' ']);
    assert(ErrorView::UnmountFailed(none, none).text() =~= " returned "@);
    assert(ErrorView::UnmountFailed(a, b).text() =~= a + " returned "@ + b);
    let front = "missing required environment variable `"@;
    let back = "`: environment variable was not valid unicode: "@;
    assert(ErrorView::EnvNotText(a, none).text() =~= front + a + back);
    assert(ErrorView::EnvMissing(a).text() == front + a + "`: environment variable not found"@);
    assert(ErrorView::EnvNotText(a, b).text() =~= front + a + (back + b));
}

} // verus!
