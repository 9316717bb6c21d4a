//! Moving files between the hosts: a pull copies a remote file into the shared directory, a push
//! copies a file of the shared directory to the remote host. Local paths that lie outside the
//! shared directory are refused.
use vstd::prelude::*;
use vstd::utf8::{decode_utf8, encode_utf8, valid_utf8};
use crate::decimal;
use crate::error::{Error, ErrorView};
use crate::os_text;
use crate::os_text::{OsText, PathSet};
use crate::path;
use crate::shell;
use crate::text;
use crate::util;
use crate::util::ProcessStatus;
use crate::wrapper;
use crate::wrapper::{CommandLine, WrapperEnv};

verus! {

/// Where a pulled file goes, with texts of type `T` and paths of type `P`.
#[derive(Debug, PartialEq, Eq)]
pub enum PullDestinationOf<T, P> {
    /// To a path that was asked for, and that has yet to be resolved.
    Given(T),
    /// To this path in the shared directory.
    InShared(P),
}

pub type PullDestination = PullDestinationOf<String, OsText>;

/// What a destination says.
pub type DestinationView = PullDestinationOf<Seq<char>, Seq<u8>>;

impl View for PullDestinationOf<String, OsText> {
    type V = PullDestinationOf<Seq<char>, Seq<u8>>;

    open spec fn view(&self) -> PullDestinationOf<Seq<char>, Seq<u8>> {
        match *self {
            PullDestinationOf::Given(p) => PullDestinationOf::Given(p@),
            PullDestinationOf::InShared(p) => PullDestinationOf::InShared(p@),
        }
    }
}

/// A pull that can be made.
#[derive(Debug)]
pub struct PullPlan {
    pub remote_path: String,
    pub destination: PullDestination,
    pub command: CommandLine,
}

/// A push that can be made, once the local path is resolved.
#[derive(Debug)]
pub struct PushPlan {
    pub local_path: String,
    pub remote_path: String,
    pub command: CommandLine,
}

/// What a pull runs on the remote host.
pub open spec fn pull_script() -> Seq<char> {
    "cat -- \"$1\""@
}

/// What a push runs on the remote host: the file is written beside its place and then moved
/// there.
pub open spec fn push_script() -> Seq<char> {
    "dst=$1; dir=$(dirname -- \"$dst\") || exit 1; mkdir -p -- \"$dir\" || exit 1; tmp=$(mktemp \"${dst}.XXXXXX\") || exit 1; trap 'rm -f -- \"$tmp\"' EXIT; cat > \"$tmp\" && mv -f -- \"$tmp\" \"$dst\""@
}

/// The arguments of the ssh command that runs a script on the remote host with one argument.
pub open spec fn script_args(env: wrapper::EnvView, script: Seq<char>, arg: Seq<char>) -> Seq<
    Seq<u8>,
> {
    wrapper::env_connection_args(env) + seq![
        os_text::bytes_of("--"),
        encode_utf8(wrapper::shell_script(env.remote_shell, script, arg)),
    ]
}

fn script_command(env: &WrapperEnv, script: &str, arg: &str) -> (r: CommandLine)
    ensures
        r.program@ == encode_utf8(env.host_ssh@),
        r.args@ == script_args(env@, script@, arg@),
{
    let mut command = wrapper::ssh_command_from_env(env);
    command.args.push_pair(
        "--",
        wrapper::shell_with_arg(env.remote_shell.as_str(), script, arg).as_str(),
    );
    command
}

/// The last component of a path, which must be a name.
pub fn file_basename(p: &str) -> (r: Result<String, Error>)
    ensures
        match r {
            Ok(name) => util::name_text(encode_utf8(p@)) == Some(name@),
            Err(e) => util::name_text(encode_utf8(p@)) is None && e@ == ErrorView::NoFileName(p@),
        },
{
    match util::file_name(&OsText::from_text(p)) {
        Some(name) => Ok(name),
        None => Err(Error::NoFileName(p.to_string())),
    }
}

/// What a pull is to do: its remote path, and where it goes to. Without a second argument that is
/// the name of the remote file in the shared directory.
pub open spec fn planned_pull(shared_dir: Option<Seq<u8>>, args: Seq<Seq<u8>>) -> Result<
    (Seq<char>, DestinationView),
    ErrorView,
> {
    let texts = wrapper::decoded(args);
    match shared_dir {
        None => Err(ErrorView::PullNeedsSharedDir),
        Some(shared) => if !wrapper::all_text(args) {
            Err(ErrorView::PullArgumentNotText)
        } else if args.len() == 0 {
            Err(ErrorView::PullUsage)
        } else if args.len() > 1 {
            Ok((texts[0], DestinationView::Given(texts[1])))
        } else {
            match util::name_text(encode_utf8(texts[0])) {
                Some(name) => Ok(
                    (
                        texts[0],
                        DestinationView::InShared(path::joined(shared, encode_utf8(name))),
                    ),
                ),
                None => Err(ErrorView::NoFileName(texts[0])),
            }
        },
    }
}

/// Plans a pull: the first argument is the remote path, the second, if there is one, the local
/// path.
pub fn plan_pull(env: &WrapperEnv, args: &Vec<OsText>) -> (r: Result<PullPlan, Error>)
    ensures
        ({
            let planned = planned_pull(util::opt_bytes(env.shared_dir), os_text::os_views(args@));
            match r {
                Err(e) => planned == Err::<(Seq<char>, DestinationView), _>(e@),
                Ok(plan) => {
                    &&& planned == Ok::<_, ErrorView>(
                        (plan.remote_path@, plan.destination@),
                    )
                    &&& plan.command.program@ == encode_utf8(env.host_ssh@)
                    &&& plan.command.args@ == script_args(
                        env@,
                        pull_script(),
                        plan.remote_path@,
                    )
                },
            }
        }),
{
    let shared = match &env.shared_dir {
        Some(shared) => shared.clone(),
        None => return Err(Error::PullNeedsSharedDir),
    };
    let texts = match wrapper::texts_of(args) {
        Some(texts) => texts,
        None => return Err(Error::PullArgumentNotText),
    };
    assert forall|i: int| 0 <= i < texts@.len() implies (#[trigger] texts@[i])@
        == wrapper::decoded(os_text::os_views(args@))[i] by {
        assert(text::views(texts@)[i] == texts@[i]@);
    }
    assert(texts@.len() == text::views(texts@).len());
    if texts.len() == 0 {
        return Err(Error::PullUsage);
    }
    let remote_path = texts[0].clone();
    let destination = if texts.len() > 1 {
        PullDestination::Given(texts[1].clone())
    } else {
        match file_basename(remote_path.as_str()) {
            Ok(name) => PullDestination::InShared(path::join_text(&shared, name.as_str())),
            Err(e) => return Err(e),
        }
    };
    let command = script_command(env, "cat -- \"$1\"", remote_path.as_str());
    Ok(PullPlan { remote_path, destination, command })
}

/// Whether a pull went well: otherwise its error output says why not.
pub fn check_pull(status: ProcessStatus, stderr: &OsText) -> (r: Result<(), Error>)
    ensures
        match r {
            Ok(_) => status.code == Some(0i32),
            Err(e) => status.code != Some(0i32) && e@ == ErrorView::PullFailed(
                text::trimmed(os_text::shown(stderr@)),
            ),
        },
{
    if status.success() {
        Ok(())
    } else {
        Err(Error::PullFailed(text::trim(stderr.shown().as_str())))
    }
}

/// Plans a push: the first argument is the local path, the second the remote path.
pub fn plan_push(env: &WrapperEnv, args: &Vec<OsText>) -> (r: Result<PushPlan, Error>)
    ensures
        ({
            let given = os_text::os_views(args@);
            match r {
                Err(e) => if env.shared_dir is None {
                    e@ == ErrorView::PushNeedsSharedDir
                } else if !wrapper::all_text(given) {
                    e@ == ErrorView::PushArgumentNotText
                } else {
                    given.len() != 2 && e@ == ErrorView::PushUsage
                },
                Ok(plan) => {
                    &&& env.shared_dir is Some
                    &&& wrapper::all_text(given)
                    &&& given.len() == 2
                    &&& plan.local_path@ == wrapper::decoded(given)[0]
                    &&& plan.remote_path@ == wrapper::decoded(given)[1]
                    &&& plan.command.program@ == encode_utf8(env.host_ssh@)
                    &&& plan.command.args@ == script_args(
                        env@,
                        push_script(),
                        plan.remote_path@,
                    )
                },
            }
        }),
{
    if env.shared_dir.is_none() {
        return Err(Error::PushNeedsSharedDir);
    }
    let texts = match wrapper::texts_of(args) {
        Some(texts) => texts,
        None => return Err(Error::PushArgumentNotText),
    };
    assert forall|i: int| 0 <= i < texts@.len() implies (#[trigger] texts@[i])@
        == wrapper::decoded(os_text::os_views(args@))[i] by {
        assert(text::views(texts@)[i] == texts@[i]@);
    }
    assert(texts@.len() == text::views(texts@).len());
    if texts.len() != 2 {
        return Err(Error::PushUsage);
    }
    let local_path = texts[0].clone();
    let remote_path = texts[1].clone();
    let command = script_command(
        env,
        "dst=$1; dir=$(dirname -- \"$dst\") || exit 1; mkdir -p -- \"$dir\" || exit 1; tmp=$(mktemp \"${dst}.XXXXXX\") || exit 1; trap 'rm -f -- \"$tmp\"' EXIT; cat > \"$tmp\" && mv -f -- \"$tmp\" \"$dst\"",
        remote_path.as_str(),
    );
    Ok(PushPlan { local_path, remote_path, command })
}

/// The path that a user means, seen from the current directory.
pub fn absolute_shared_candidate(raw: &str, current_dir: &OsText) -> (r: OsText)
    ensures
        r@ == path::joined(current_dir@, encode_utf8(raw@)),
{
    path::join_text(current_dir, raw)
}

/// A path that exists, from `p` upward, and the names below it that do not; `None` where there is
/// none.
pub open spec fn climb(p: Seq<u8>, present: Set<Seq<u8>>) -> Option<(Seq<u8>, Seq<Seq<u8>>)>
    decreases p.len(),
{
    proof {
        path::parent_drops_the_last_component(p);
    }
    if present.contains(p) {
        Some((p, seq![]))
    } else {
        match (path::final_name(p), path::parent_of(p)) {
            (Some(name), Some(dir)) => match climb(dir, present) {
                Some((existing, tail)) => Some((existing, tail.push(name))),
                None => None,
            },
            _ => None,
        }
    }
}

/// The paths that `climb` may ask for: `p` and all paths above it.
pub open spec fn climbed(p: Seq<u8>) -> Seq<Seq<u8>>
    decreases p.len(),
{
    proof {
        path::parent_drops_the_last_component(p);
    }
    match path::parent_of(p) {
        Some(dir) => seq![p] + climbed(dir),
        None => seq![p],
    }
}

/// A path and all paths above it: those whose presence decides where a path is split.
pub fn ancestors(p: &OsText) -> (r: Vec<OsText>)
    ensures
        os_text::os_views(r@) == climbed(p@),
{
    let mut out: Vec<OsText> = Vec::new();
    let mut current = p.clone();
    assert(os_text::os_views(out@) + climbed(p@) =~= climbed(p@));
    loop
        invariant
            os_text::os_views(out@) + climbed(current@) == climbed(p@),
        decreases current@.len(),
    {
        let copy = current.clone();
        let ghost done = os_text::os_views(out@);
        assert(os_text::os_views(out@.push(copy)) =~= done.push(current@));
        out.push(copy);
        match path::parent(&current) {
            Some(dir) => {
                proof {
                    path::parent_drops_the_last_component(current@);
                    assert(done + climbed(current@) =~= done.push(current@) + climbed(dir@));
                }
                current = dir;
            },
            None => {
                assert(done + climbed(current@) =~= done.push(current@));
                return out;
            },
        }
    }
}

/// Splits a path into a part that exists and the names below it that do not.
pub fn split_existing_parent(p: &OsText, present: &PathSet) -> (r: Result<
    (OsText, Vec<OsText>),
    Error,
>)
    ensures
        match r {
            Ok((existing, tail)) => climb(p@, present@) == Some(
                (existing@, os_text::os_views(tail@)),
            ),
            Err(e) => climb(p@, present@) is None && e@ == ErrorView::NoExistingParent(p@),
        },
    decreases p@.len(),
{
    if present.contains(p) {
        let none: Vec<OsText> = Vec::new();
        assert(os_text::os_views(none@) =~= seq![]);
        return Ok((p.clone(), none));
    }
    let name = match path::file_name(p) {
        Some(name) => name,
        None => return Err(Error::NoExistingParent(p.clone())),
    };
    let dir = match path::parent(p) {
        Some(dir) => dir,
        None => return Err(Error::NoExistingParent(p.clone())),
    };
    proof {
        path::parent_drops_the_last_component(p@);
    }
    match split_existing_parent(&dir, present) {
        Ok((existing, mut tail)) => {
            assert(os_text::os_views(tail@.push(name)) =~= os_text::os_views(tail@).push(name@));
            tail.push(name);
            Ok((existing, tail))
        },
        Err(_) => Err(Error::NoExistingParent(p.clone())),
    }
}

/// Whether a path lies in the shared directory.
pub fn ensure_within_shared_dir(p: &OsText, shared_dir: &OsText) -> (r: Result<(), Error>)
    ensures
        match r {
            Ok(_) => path::within(p@, shared_dir@),
            Err(e) => !path::within(p@, shared_dir@) && e@ == ErrorView::OutsideSharedDir(
                shared_dir@,
            ),
        },
{
    if path::starts_with(p, shared_dir) {
        Ok(())
    } else {
        Err(Error::OutsideSharedDir(shared_dir.clone()))
    }
}

/// The local file of a push: its path, with all links resolved, must lie in the shared directory.
pub fn resolve_existing_shared_path(canonical: &OsText, shared_dir: &OsText) -> (r: Result<
    OsText,
    Error,
>)
    ensures
        match r {
            Ok(p) => path::within(canonical@, shared_dir@) && p@ == canonical@,
            Err(e) => !path::within(canonical@, shared_dir@) && e@ == ErrorView::OutsideSharedDir(
                shared_dir@,
            ),
        },
{
    match ensure_within_shared_dir(canonical, shared_dir) {
        Ok(_) => Ok(canonical.clone()),
        Err(e) => Err(e),
    }
}

/// The local file of a pull: the directory that exists, with all links resolved, must lie in the
/// shared directory; the names that do not exist yet follow.
pub fn resolve_shared_output_path(
    canonical_parent: &OsText,
    tail: &Vec<OsText>,
    shared_dir: &OsText,
) -> (r: Result<OsText, Error>)
    ensures
        match r {
            Ok(p) => path::within(canonical_parent@, shared_dir@) && p@ == path::joined_all(
                canonical_parent@,
                os_text::os_views(tail@),
            ),
            Err(e) => !path::within(canonical_parent@, shared_dir@) && e@
                == ErrorView::OutsideSharedDir(shared_dir@),
        },
{
    if let Err(e) = ensure_within_shared_dir(canonical_parent, shared_dir) {
        return Err(e);
    }
    let mut current = canonical_parent.clone();
    let ghost all = os_text::os_views(tail@);
    for i in 0..tail.len()
        invariant
            all == os_text::os_views(tail@),
            current@ == path::joined_all(canonical_parent@, all.take(i as int)),
    {
        proof {
            assert(all.take(i + 1).drop_last() =~= all.take(i as int));
            assert(all.take(i + 1).last() == tail@[i as int]@);
        }
        current = path::join(&current, &tail[i]);
    }
    assert(all.take(all.len() as int) =~= all);
    Ok(current)
}

/// The names that a path is split into are plain: they lead down, never up or elsewhere.
pub proof fn climbed_names_are_plain(p: Seq<u8>, present: Set<Seq<u8>>)
    ensures
        climb(p, present) matches Some((existing, tail)) ==> present.contains(existing)
            && forall|i: int|
            0 <= i < tail.len() ==> !(#[trigger] tail[i]).contains(path::SLASH) && path::counts(
                tail[i],
            ) && tail[i] != path::above(),
    decreases p.len(),
{
    path::parent_drops_the_last_component(p);
    path::final_names_are_plain(p);
    if !present.contains(p) {
        if let Some(dir) = path::parent_of(p) {
            climbed_names_are_plain(dir, present);
        }
    }
}

/// A pulled file never leaves the shared directory: whatever path is asked for, once the part of
/// it that exists was found to lie in the shared directory, the whole does.
pub proof fn pulls_stay_in_the_shared_directory(
    p: Seq<u8>,
    present: Set<Seq<u8>>,
    canonical_parent: Seq<u8>,
    shared_dir: Seq<u8>,
)
    requires
        path::within(canonical_parent, shared_dir),
    ensures
        climb(p, present) matches Some((existing, tail)) ==> path::within(
            path::joined_all(canonical_parent, tail),
            shared_dir,
        ),
{
    climbed_names_are_plain(p, present);
    if let Some((existing, tail)) = climb(p, present) {
        path::joining_adds_components(canonical_parent, tail);
        let base = path::components_of(shared_dir);
        let dir = path::components_of(canonical_parent);
        assert((dir + tail).subrange(0, base.len() as int) =~= dir.subrange(0, base.len() as int));
    }
}

/// A pull without a local path puts the file right into the shared directory, whatever the remote
/// path is.
pub proof fn default_pulls_stay_in_the_shared_directory(shared_dir: Seq<u8>, remote_path: Seq<char>)
    ensures
        util::name_text(encode_utf8(remote_path)) matches Some(name) ==> path::components_of(
            path::joined(shared_dir, encode_utf8(name)),
        ) == path::components_of(shared_dir).push(encode_utf8(name)),
{
    let p = encode_utf8(remote_path);
    path::final_names_are_plain(p);
    if let Some(name) = util::name_text(p) {
        let bytes = path::final_name(p)->0;
        vstd::utf8::decode_utf8_encode_utf8(bytes);
        path::joining_adds_a_component(shared_dir, bytes);
    }
}

/// The presence of a path and of all those above it is all that matters for where it is split.
pub proof fn ancestors_decide(p: Seq<u8>, a: Set<Seq<u8>>, b: Set<Seq<u8>>)
    requires
        forall|q: Seq<u8>| #[trigger] climbed(p).contains(q) ==> (a.contains(q) <==> b.contains(q)),
    ensures
        climb(p, a) == climb(p, b),
    decreases p.len(),
{
    path::parent_drops_the_last_component(p);
    assert(climbed(p)[0] == p);
    assert(climbed(p).contains(p));
    if let Some(dir) = path::parent_of(p) {
        assert forall|q: Seq<u8>| #[trigger] climbed(dir).contains(q) implies (a.contains(q)
            <==> b.contains(q)) by {
            let i = choose|i: int| 0 <= i < climbed(dir).len() && climbed(dir)[i] == q;
            assert(climbed(p)[i + 1] == q);
            assert(climbed(p).contains(q));
        }
        ancestors_decide(dir, a, b);
    }
}

/// A pull and a push connect exactly like a wrapped command of the same environment, and hand the
/// remote host one more argument: its shell, told to run the script with the path.
pub proof fn transfers_connect_like_wrapped_commands(
    env: wrapper::EnvView,
    script: Seq<char>,
    arg: Seq<char>,
)
    ensures
        ({
            let args = script_args(env, script, arg);
            let connection = wrapper::connection_of(env);
            let n = args.len();
            &&& n == connection.len() + 2
            &&& args.take(n - 2) == connection
            &&& args[n - 3] == encode_utf8(env.destination)
            &&& args[n - 2] == encode_utf8("--"@)
            &&& exists|text: Seq<char>|
                args[n - 1] == encode_utf8(text) && #[trigger] shell::words(text) == Some(
                    seq![env.remote_shell, "-c"@, script, "sh"@, arg],
                )
            &&& env.port matches Some(p) ==> exists|j: int|
                0 <= j < n - 4 && #[trigger] args[j] == encode_utf8("-p"@) && args[j + 1]
                    == encode_utf8(decimal::decimal(p as nat))
        }),
{
    let args = script_args(env, script, arg);
    let connection = wrapper::connection_of(env);
    wrapper::connections_name_the_host(env);
    wrapper::shell_scripts_keep_their_words(env.remote_shell, script, arg);
    assert(wrapper::env_connection_args(env) == connection);
    assert(args.take(args.len() - 2) =~= connection);
    let text = wrapper::shell_script(env.remote_shell, script, arg);
    assert(args.last() == encode_utf8(text));
    assert(shell::words(text) is Some);
    if let Some(p) = env.port {
        let j = choose|j: int|
            0 <= j < connection.len() - 2 && #[trigger] connection[j] == encode_utf8("-p"@)
                && connection[j + 1] == encode_utf8(decimal::decimal(p as nat));
        assert(args[j] == connection[j]);
        assert(args[j + 1] == connection[j + 1]);
    }
}

/// What a pull is asked for: there must be a shared directory, text, and a remote path; the second
/// argument is where it goes, and without one it goes by the name of the remote file.
pub proof fn pulls_are_planned_from_their_arguments(shared_dir: Option<Seq<u8>>, args: Seq<Seq<u8>>)
    ensures
        ({
            let r = planned_pull(shared_dir, args);
            let all = forall|i: int| 0 <= i < args.len() ==> valid_utf8(#[trigger] args[i]);
            &&& shared_dir is None ==> r == Err::<(Seq<char>, DestinationView), _>(
                ErrorView::PullNeedsSharedDir,
            )
            &&& shared_dir is Some && !all ==> r == Err::<(Seq<char>, DestinationView), _>(
                ErrorView::PullArgumentNotText,
            )
            &&& shared_dir is Some && args.len() == 0 ==> r == Err::<
                (Seq<char>, DestinationView),
                _,
            >(ErrorView::PullUsage)
            &&& shared_dir is Some && all && args.len() >= 2 ==> r == Ok::<_, ErrorView>(
                (decode_utf8(args[0]), DestinationView::Given(decode_utf8(args[1]))),
            )
            &&& shared_dir is Some && all && args.len() == 1 ==> match path::final_name(args[0]) {
                Some(name) if valid_utf8(name) => r == Ok::<_, ErrorView>(
                    (
                        decode_utf8(args[0]),
                        DestinationView::InShared(path::joined(shared_dir->0, name)),
                    ),
                ),
                _ => r == Err::<(Seq<char>, DestinationView), _>(
                    ErrorView::NoFileName(decode_utf8(args[0])),
                ),
            }
        }),
{
    if args.len() == 1 && valid_utf8(args[0]) {
        vstd::utf8::decode_utf8_encode_utf8(args[0]);
        assert(wrapper::decoded(args)[0] == decode_utf8(args[0]));
        if let Some(name) = path::final_name(args[0]) {
            if valid_utf8(name) {
                vstd::utf8::decode_utf8_encode_utf8(name);
            }
        }
    }
    if args.len() >= 2 {
        assert(wrapper::decoded(args)[0] == decode_utf8(args[0]));
        assert(wrapper::decoded(args)[1] == decode_utf8(args[1]));
    }
}

/// The paths above a path: it is the first, each is the parent of the one before, and the last has
/// none.
pub proof fn paths_above_follow_each_other(p: Seq<u8>, i: int)
    ensures
        climbed(p).len() > 0,
        climbed(p)[0] == p,
        path::parent_of(climbed(p).last()) is None,
        0 <= i < climbed(p).len() - 1 ==> path::parent_of(climbed(p)[i]) == Some(climbed(p)[i + 1]),
    decreases p.len(),
{
    path::parent_drops_the_last_component(p);
    if let Some(dir) = path::parent_of(p) {
        paths_above_follow_each_other(dir, i - 1);
        assert(climbed(p).last() == climbed(dir).last());
        if i > 0 && i < climbed(p).len() - 1 {
            assert(climbed(p)[i] == climbed(dir)[i - 1]);
            assert(climbed(p)[i + 1] == climbed(dir)[i]);
        }
    }
}

/// A path is split at the nearest one above it that exists: none below that exists, and the names
/// that follow lead back to the path.
pub proof fn paths_are_split_at_the_nearest_that_exists(p: Seq<u8>, present: Set<Seq<u8>>)
    ensures
        climb(p, present) matches Some((existing, tail)) ==> {
            &&& present.contains(existing)
            &&& tail.len() < climbed(p).len()
            &&& climbed(p)[tail.len() as int] == existing
            &&& forall|j: int| 0 <= j < tail.len() ==> !present.contains(#[trigger] climbed(p)[j])
            &&& path::components_of(p) == path::components_of(existing) + tail
        },
        climb(p, present) is None ==> exists|k: int|
            0 <= k < climbed(p).len() && (path::final_name(#[trigger] climbed(p)[k]) is None
                || path::parent_of(climbed(p)[k]) is None) && forall|j: int|
                0 <= j <= k ==> !present.contains(#[trigger] climbed(p)[j]),
    decreases p.len(),
{
    path::parent_drops_the_last_component(p);
    path::ends_of_paths(p);
    assert(climbed(p)[0] == p);
    if present.contains(p) {
        assert(path::components_of(p) + Seq::<Seq<u8>>::empty() =~= path::components_of(p));
    } else if path::final_name(p) is Some && path::parent_of(p) is Some {
        let dir = path::parent_of(p)->0;
        let name = path::final_name(p)->0;
        paths_are_split_at_the_nearest_that_exists(dir, present);
        assert forall|j: int| 0 <= j < climbed(dir).len() implies #[trigger] climbed(p)[j + 1]
            == climbed(dir)[j] by {}
        match climb(dir, present) {
            Some((existing, front)) => {
                let tail = front.push(name);
                assert forall|j: int| 0 <= j < tail.len() implies !present.contains(
                    #[trigger] climbed(p)[j],
                ) by {
                    if j > 0 {
                        assert(climbed(p)[(j - 1) + 1] == climbed(dir)[j - 1]);
                    }
                }
                assert(climbed(p)[front.len() as int + 1] == climbed(dir)[front.len() as int]);
                assert(path::components_of(p) =~= path::components_of(p).drop_last().push(name));
                assert(path::components_of(p) =~= path::components_of(existing) + tail);
            },
            None => {
                let k = choose|k: int|
                    0 <= k < climbed(dir).len() && (path::final_name(
                        #[trigger] climbed(dir)[k],
                    ) is None || path::parent_of(climbed(dir)[k]) is None) && forall|j: int|
                        0 <= j <= k ==> !present.contains(#[trigger] climbed(dir)[j]);
                assert(climbed(p)[k + 1] == climbed(dir)[k]);
                assert forall|j: int| 0 <= j <= k + 1 implies !present.contains(
                    #[trigger] climbed(p)[j],
                ) by {
                    if j > 0 {
                        assert(climbed(p)[(j - 1) + 1] == climbed(dir)[j - 1]);
                    }
                }
            },
        }
    }
}

} // verus!
