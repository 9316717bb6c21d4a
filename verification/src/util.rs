//! Small tools: quoting for a shell, paths below paths, programs on the search path, the
//! directories that a bind mount needs, and exit statuses.
use vstd::prelude::*;
use vstd::utf8::{decode_utf8, encode_utf8, valid_utf8};
use crate::error::Error;
use crate::os_text;
use crate::os_text::{ArgList, OsText, PathSet};
use crate::path;
use crate::text;

verus! {

/// Whether `path` is `prefix` or goes on behind it with a slash.
pub open spec fn under(path: Seq<char>, prefix: Seq<char>) -> bool {
    path == prefix || prefix.push('/').is_prefix_of(path)
}

/// What stands for a single quote between single quotes: the quotes are closed, a quote in
/// double quotes follows, and they are opened again.
pub open spec fn quoted_quote() -> Seq<char> {
    seq!['\'', '"', '\'', '"', '\'']
}

/// `s` as it stands between single quotes.
pub open spec fn quoted_body(s: Seq<char>) -> Seq<char>
    decreases s.len(),
{
    if s.len() == 0 {
        seq![]
    } else if s.last() == '\'' {
        quoted_body(s.drop_last()) + quoted_quote()
    } else {
        quoted_body(s.drop_last()).push(s.last())
    }
}

/// `s` as one word of a shell command.
pub open spec fn escaped(s: Seq<char>) -> Seq<char> {
    seq!['\''] + quoted_body(s) + seq!['\'']
}

/// Whether `path` is `prefix` or goes on behind it with a slash.
pub fn path_is_under(path: &str, prefix: &str) -> (r: bool)
    ensures
        r == under(path@, prefix@),
{
    if text::text_equal(path, prefix) {
        return true;
    }
    let mut dir = prefix.to_string();
    dir.push('/');
    text::starts_with(path, dir.as_str())
}

/// Everything is under itself.
pub proof fn under_is_reflexive(path: Seq<char>)
    ensures
        under(path, path),
{
}

/// What is under something is under all that it is under.
pub proof fn under_is_transitive(a: Seq<char>, b: Seq<char>, c: Seq<char>)
    requires
        under(a, b),
        under(b, c),
    ensures
        under(a, c),
{
    if a != b && b != c {
        let d = c.push('/');
        assert(b.subrange(0, d.len() as int) =~= d);
        assert(a.subrange(0, b.len() as int + 1) =~= b.push('/'));
        assert(a.subrange(0, d.len() as int) =~= d) by {
            assert forall|i: int| 0 <= i < d.len() implies a[i] == d[i] by {
                assert(a.subrange(0, b.len() as int + 1)[i] == b.push('/')[i]);
                assert(b.subrange(0, d.len() as int)[i] == d[i]);
            }
        }
    }
}

/// Quotes a text so that a shell reads it as one word, as it is.
pub fn shell_escape(value: &str) -> (r: String)
    ensures
        r@ == escaped(value@),
{
    let mut out = String::new();
    out.push('\'');
    assert(out@ =~= seq!['\''] + quoted_body(value@.take(0)));
    for ch in it: value.chars()
        invariant
            it.seq() == value@,
            out@ == seq!['\''] + quoted_body(value@.take(it.index() as int)),
    {
        let ghost done = value@.take(it.index() as int);
        proof {
            let next = value@.take(it.index() as int + 1);
            assert(next.drop_last() =~= done);
            assert(next.last() == ch);
            assert(seq!['\''] + quoted_body(done).push(ch) =~= (seq!['\''] + quoted_body(
                done,
            )).push(ch));
            assert(seq!['\''] + (quoted_body(done) + quoted_quote()) =~= (seq!['\''] + quoted_body(
                done,
            )) + quoted_quote());
        }
        if ch == '\'' {
            proof {
                reveal_strlit("'\"'\"'");
                assert("'\"'\"'"@ =~= quoted_quote());
            }
            out.append("'\"'\"'");
        } else {
            out.push(ch);
        }
    }
    assert(value@.take(value@.len() as int) =~= value@);
    out.push('\'');
    assert(out@ =~= escaped(value@));
    out
}

/// The last component of a path as text, where it is a name and UTF-8.
pub open spec fn name_text(p: Seq<u8>) -> Option<Seq<char>> {
    match path::final_name(p) {
        Some(name) => if valid_utf8(name) {
            Some(decode_utf8(name))
        } else {
            None
        },
        None => None,
    }
}

/// The last component of a path as text, where it is a name and UTF-8.
pub fn file_name(p: &OsText) -> (r: Option<String>)
    ensures
        r is Some <==> name_text(p@) is Some,
        r matches Some(name) ==> name_text(p@) == Some(name@),
{
    match path::file_name(p) {
        Some(name) => name.to_text(),
        None => None,
    }
}

/// What is known of a file: whether it is a regular one, and its mode.
#[derive(Clone, Copy, Debug)]
pub struct FileFacts {
    pub is_file: bool,
    pub mode: u32,
}

/// Whether a file can be run: it is there, it is a regular one, and someone may execute it.
pub fn is_executable_file(file: Option<FileFacts>) -> (r: bool)
    ensures
        r == (file matches Some(facts) && facts.is_file && facts.mode & 0o111 != 0),
{
    match file {
        Some(facts) => facts.is_file && facts.mode & 0o111 != 0,
        None => false,
    }
}

/// Each directory of a list with `name` joined on.
pub open spec fn names_in(dirs: Seq<Seq<u8>>, name: Seq<u8>) -> Seq<Seq<u8>> {
    dirs.map_values(|dir: Seq<u8>| path::joined(dir, name))
}

/// The paths at which a program is looked for: `name` itself if it is absolute, then `name` in
/// each directory of the search path.
pub open spec fn candidates(name: Seq<u8>, search_path: Option<Seq<u8>>) -> Seq<Seq<u8>> {
    (if path::absolute(name) {
        seq![name]
    } else {
        seq![]
    }) + (match search_path {
        Some(dirs) => names_in(text::split(dirs, 58), name),
        None => seq![],
    })
}

/// The first of `list` that is in `set`.
pub open spec fn first_in(list: Seq<Seq<u8>>, set: Set<Seq<u8>>) -> Option<Seq<u8>>
    decreases list.len(),
{
    if list.len() == 0 {
        None
    } else if set.contains(list[0]) {
        Some(list[0])
    } else {
        first_in(list.drop_first(), set)
    }
}

/// What an optional byte string holds.
pub open spec fn opt_bytes(t: Option<OsText>) -> Option<Seq<u8>> {
    match t {
        Some(t) => Some(t@),
        None => None,
    }
}

/// What an optional text holds.
pub open spec fn opt_text(t: Option<String>) -> Option<Seq<char>> {
    match t {
        Some(t) => Some(t@),
        None => None,
    }
}

/// The paths at which a program is looked for, in order.
pub fn path_candidates(name: &str, search_path: &Option<OsText>) -> (r: Vec<OsText>)
    ensures
        os_text::os_views(r@) == candidates(encode_utf8(name@), opt_bytes(*search_path)),
{
    let file = OsText::from_text(name);
    let mut out: Vec<OsText> = Vec::new();
    if path::is_absolute(&file) {
        out.push(file.clone());
    }
    let ghost start = os_text::os_views(out@);
    assert(start =~= (if path::absolute(file@) {
        seq![file@]
    } else {
        seq![]
    }));
    if let Some(dirs) = search_path {
        let list = path::split_bytes(dirs, 58);
        let ghost all = names_in(os_text::os_views(list@), file@);
        assert(start + all.take(0) =~= start);
        for i in 0..list.len()
            invariant
                all == names_in(os_text::os_views(list@), file@),
                os_text::os_views(out@) == start + all.take(i as int),
        {
            let candidate = path::join(&list[i], &file);
            proof {
                assert(all[i as int] == candidate@);
                assert(start + all.take(i + 1) =~= (start + all.take(i as int)).push(candidate@));
                assert(os_text::os_views(out@.push(candidate)) =~= os_text::os_views(out@).push(
                    candidate@,
                ));
            }
            out.push(candidate);
        }
        assert(all.take(list@.len() as int) =~= all);
    } else {
        assert(start + Seq::<Seq<u8>>::empty() =~= start);
    }
    out
}

/// Where a program is: the first of its candidates that is among the files seen to be
/// executable.
pub fn find_in_path(name: &str, search_path: &Option<OsText>, executable: &PathSet) -> (r: Option<
    OsText,
>)
    ensures
        opt_bytes(r) == first_in(
            candidates(encode_utf8(name@), opt_bytes(*search_path)),
            executable@,
        ),
{
    let list = path_candidates(name, search_path);
    let ghost all = os_text::os_views(list@);
    assert(all.skip(0) =~= all);
    for i in 0..list.len()
        invariant
            all == os_text::os_views(list@),
            all == candidates(encode_utf8(name@), opt_bytes(*search_path)),
            first_in(all, executable@) == first_in(all.skip(i as int), executable@),
    {
        assert(all.skip(i as int)[0] == list@[i as int]@);
        assert(all.skip(i as int).drop_first() =~= all.skip(i + 1));
        if executable.contains(&list[i]) {
            return Some(list[i].clone());
        }
    }
    None
}

/// Whether a program is there, given where it was found.
pub fn ensure_binary_exists(name: &str, found: &Option<OsText>) -> (r: Result<(), Error>)
    ensures
        match r {
            Ok(_) => *found is Some,
            Err(e) => *found is None && e@ == crate::error::ErrorView::BinaryNotFound(name@),
        },
{
    match found {
        Some(_) => Ok(()),
        None => Err(Error::BinaryNotFound(name.to_string())),
    }
}

/// The arguments that create the directories `parts[0]`, `parts[0]/parts[1]` and so on; the root
/// needs none.
pub open spec fn dir_args(parts: Seq<Seq<u8>>) -> Seq<Seq<u8>>
    decreases parts.len(),
{
    if parts.len() == 0 || parts == seq![path::root()] {
        seq![]
    } else {
        dir_args(parts.drop_last()) + seq![
            os_text::bytes_of("--dir"),
            path::joined_all(seq![], parts),
        ]
    }
}

/// Appends the arguments that create a directory and all those above it.
pub fn prepare_bind_dir(args: &mut ArgList, target: &OsText)
    ensures
        final(args)@ == old(args)@ + dir_args(path::components_of(target@)),
{
    let parts = path::components(target);
    let ghost all = path::components_of(target@);
    let ghost start = args@;
    let mut current = OsText::from_bytes(Vec::new());
    assert(start + dir_args(all.take(0)) =~= start);
    assert(path::joined_all(seq![], all.take(0)) =~= Seq::<u8>::empty());
    for i in 0..parts.len()
        invariant
            all == os_text::os_views(parts@),
            current@ == path::joined_all(seq![], all.take(i as int)),
            args@ == start + dir_args(all.take(i as int)),
    {
        current = path::join(&current, &parts[i]);
        let ghost done = all.take(i + 1);
        proof {
            assert(done.drop_last() =~= all.take(i as int));
            assert(done.last() == parts@[i as int]@);
        }
        let bytes = parts[i].as_bytes();
        let is_root = i == 0 && bytes.len() == 1 && bytes[0] == path::SLASH;
        assert(is_root <==> done == seq![path::root()]) by {
            if is_root {
                assert(bytes@ =~= path::root());
                assert(done =~= seq![path::root()]);
            }
            if done == seq![path::root()] {
                assert(done[0] == bytes@);
                assert(done.len() == 1);
            }
        }
        if !is_root {
            args.push_text("--dir");
            args.push_os(&current);
            proof {
                let more = seq![os_text::bytes_of("--dir"), current@];
                assert(args@ =~= start + (dir_args(all.take(i as int)) + more));
            }
        } else {
            assert(dir_args(all.take(0)) =~= dir_args(done));
        }
    }
    assert(all.take(parts@.len() as int) =~= all);
}

/// The arguments that create all directories above a path.
pub open spec fn parent_dir_args(target: Seq<u8>) -> Seq<Seq<u8>> {
    match path::parent_of(target) {
        Some(dir) => dir_args(path::components_of(dir)),
        None => seq![],
    }
}

/// Appends the arguments that create all directories above a path.
pub fn prepare_bind_parent(args: &mut ArgList, target: &OsText)
    ensures
        final(args)@ == old(args)@ + parent_dir_args(target@),
{
    match path::parent(target) {
        Some(dir) => {
            prepare_bind_dir(args, &dir);
        },
        None => {
            assert(args@ + Seq::<Seq<u8>>::empty() =~= args@);
        },
    }
}

/// The arguments that mount a directory of the host read-only, if it is there.
pub open spec fn ro_bind_args(source: Seq<u8>, target: Seq<u8>, present: Set<Seq<u8>>) -> Seq<
    Seq<u8>,
> {
    if present.contains(source) {
        dir_args(path::components_of(target)) + seq![
            os_text::bytes_of("--ro-bind"),
            source,
            target,
        ]
    } else {
        seq![]
    }
}

/// Appends the arguments that mount a directory of the host read-only, if it is among the paths
/// that are present.
pub fn add_ro_bind_if_exists(args: &mut ArgList, source: &str, target: &str, present: &PathSet)
    ensures
        final(args)@ == old(args)@ + ro_bind_args(
            encode_utf8(source@),
            encode_utf8(target@),
            present@,
        ),
{
    let ghost start = args@;
    if present.contains(&OsText::from_text(source)) {
        prepare_bind_dir(args, &OsText::from_text(target));
        args.push_triple("--ro-bind", source, target);
        assert(args@ =~= start + ro_bind_args(
            encode_utf8(source@),
            encode_utf8(target@),
            present@,
        ));
    } else {
        assert(start + Seq::<Seq<u8>>::empty() =~= start);
    }
}

/// How a process ended: with an exit code, or killed by a signal.
#[derive(Clone, Copy, Debug)]
pub struct ProcessStatus {
    pub code: Option<i32>,
    pub signal: Option<i32>,
}

impl ProcessStatus {
    /// Whether the process ended well: with the exit code zero.
    pub fn success(&self) -> (r: bool)
        ensures
            r == (self.code == Some(0i32)),
    {
        match self.code {
            Some(code) => code == 0,
            None => false,
        }
    }

    /// A signal is small enough to be added to 128.
    pub open spec fn signal_fits(self) -> bool {
        self.signal matches Some(signal) ==> signal <= i32::MAX - 128
    }
}

/// What follows from the end of a wrapped process.
#[derive(Clone, Copy, Debug, PartialEq, Eq, Structural)]
pub enum ExitAction {
    /// Go on.
    Return,
    /// End with this code.
    Exit(i32),
}

/// Passes the end of a wrapped process on: the code of a failed one, or 128 and the signal that
/// killed it.
pub fn propagate_exit_status(status: ProcessStatus) -> (r: Result<ExitAction, Error>)
    requires
        status.signal_fits(),
    ensures
        match r {
            Ok(ExitAction::Return) => status.code == Some(0i32),
            Ok(ExitAction::Exit(code)) => match status.code {
                Some(c) => c != 0 && code == c,
                None => status.signal matches Some(signal) && code == 128 + signal,
            },
            Err(e) => status.code is None && status.signal is None && e@
                == crate::error::ErrorView::NoExitStatus,
        },
{
    if status.success() {
        return Ok(ExitAction::Return);
    }
    if let Some(code) = status.code {
        return Ok(ExitAction::Exit(code));
    }
    if let Some(signal) = status.signal {
        return Ok(ExitAction::Exit(128 + signal));
    }
    Err(Error::NoExitStatus)
}

/// The low eight bits of a number.
pub open spec fn low_byte(n: int) -> int {
    n % 256
}

fn low_byte_of(n: i32) -> (r: u8)
    ensures
        r == low_byte(n as int),
{
    let shifted: i64 = n as i64 + 0x1_0000_0000;
    (shifted % 256) as u8
}

/// The exit code to end with after the sandbox: the low byte of its code, or of 128 and the
/// signal that killed it.
pub fn exit_code_from_status(status: ProcessStatus) -> (r: Result<u8, Error>)
    requires
        status.signal_fits(),
    ensures
        match r {
            Ok(code) => code == (match status.code {
                Some(c) => low_byte(c as int),
                None => low_byte(128 + status.signal->0 as int),
            }) && (status.code is Some || status.signal is Some),
            Err(e) => status.code is None && status.signal is None && e@
                == crate::error::ErrorView::NoExitStatus,
        },
{
    if let Some(code) = status.code {
        return Ok(low_byte_of(code));
    }
    if let Some(signal) = status.signal {
        return Ok(low_byte_of(128 + signal));
    }
    Err(Error::NoExitStatus)
}

/// To be under a path is to be it, or to go on behind it with a slash.
pub proof fn being_under_is_going_on(path: Seq<char>, prefix: Seq<char>)
    ensures
        under(path, prefix) <==> path == prefix || exists|rest: Seq<char>|
            path == #[trigger] (prefix + seq!['/'] + rest),
{
    let front = prefix.push('/');
    if path != prefix && under(path, prefix) {
        let rest = path.skip(front.len() as int);
        assert(front =~= prefix + seq!['/']);
        assert(path =~= path.subrange(0, front.len() as int) + rest);
    }
    if exists|rest: Seq<char>| path == #[trigger] (prefix + seq!['/'] + rest) {
        let rest = choose|rest: Seq<char>| path == #[trigger] (prefix + seq!['/'] + rest);
        assert(path.subrange(0, front.len() as int) =~= front);
    }
}

/// Texts are quoted character by character, between two single quotes: a single quote in them
/// becomes five characters, and every other one stays.
pub proof fn quoting_goes_character_by_character(a: Seq<char>, c: char)
    ensures
        escaped(Seq::empty()) == seq!['\'', '\''],
        escaped(a.push(c)) == escaped(a).drop_last() + (if c == '\'' {
            seq!['\'', '"', '\'', '"', '\'']
        } else {
            seq![c]
        }) + seq!['\''],
{
    assert(a.push(c).drop_last() =~= a);
    assert(escaped(Seq::empty()) =~= seq!['\'', '\'']);
    assert(escaped(a).drop_last() =~= seq!['\''] + quoted_body(a));
    assert(escaped(a.push(c)) =~= escaped(a).drop_last() + (if c == '\'' {
        seq!['\'', '"', '\'', '"', '\'']
    } else {
        seq![c]
    }) + seq!['\'']);
}

/// A program is looked for under its own name where that is absolute, and then in every directory
/// of the search path, in order.
pub proof fn every_directory_is_searched(name: Seq<u8>, search_path: Option<Seq<u8>>, i: int)
    ensures
        ({
            let list = candidates(name, search_path);
            let first: int = if name.len() > 0 && name[0] == 47u8 {
                1
            } else {
                0
            };
            let dirs = match search_path {
                Some(dirs) => text::split(dirs, 58u8),
                None => seq![],
            };
            &&& list.len() == first + dirs.len()
            &&& first == 1 ==> list[0] == name
            &&& 0 <= i < dirs.len() ==> list[first + i] == path::joined(dirs[i], name)
        }),
{
}

/// The first of a list that is in a set: it is in both, and none before it is in the set. There is
/// none only where none of the list is in the set.
pub proof fn the_first_is_found(list: Seq<Seq<u8>>, set: Set<Seq<u8>>)
    ensures
        match first_in(list, set) {
            Some(p) => exists|k: int|
                0 <= k < list.len() && #[trigger] list[k] == p && set.contains(p) && forall|j: int|
                    0 <= j < k ==> !set.contains(#[trigger] list[j]),
            None => forall|j: int| 0 <= j < list.len() ==> !set.contains(#[trigger] list[j]),
        },
    decreases list.len(),
{
    if list.len() > 0 && !set.contains(list[0]) {
        let rest = list.drop_first();
        the_first_is_found(rest, set);
        if let Some(p) = first_in(rest, set) {
            let k = choose|k: int|
                0 <= k < rest.len() && #[trigger] rest[k] == p && set.contains(p) && forall|j: int|
                    0 <= j < k ==> !set.contains(#[trigger] rest[j]);
            assert(list[k + 1] == p);
            assert forall|j: int| 0 <= j < k + 1 implies !set.contains(#[trigger] list[j]) by {
                if j > 0 {
                    assert(list[j] == rest[j - 1]);
                }
            }
        } else {
            assert forall|j: int| 0 <= j < list.len() implies !set.contains(
                #[trigger] list[j],
            ) by {
                if j > 0 {
                    assert(list[j] == rest[j - 1]);
                }
            }
        }
    }
}

/// Every directory on the way down is created, in order, and the root is not: for each further
/// component `--dir`, and the components up to it joined.
pub proof fn every_directory_on_the_way_is_created(parts: Seq<Seq<u8>>, i: int)
    requires
        parts.len() > 0,
    ensures
        ({
            let skipped: int = if parts[0] == seq![47u8] {
                1
            } else {
                0
            };
            &&& dir_args(parts).len() == 2 * (parts.len() - skipped)
            &&& skipped <= i < parts.len() ==> dir_args(parts)[2 * (i - skipped)] == encode_utf8(
                "--dir"@,
            ) && dir_args(parts)[2 * (i - skipped) + 1] == path::joined_all(
                seq![],
                parts.take(i + 1),
            )
        }),
    decreases parts.len(),
{
    let skipped: int = if parts[0] == path::root() {
        1
    } else {
        0
    };
    let init = parts.drop_last();
    if parts.len() == 1 {
        assert(parts =~= seq![parts[0]]);
        assert(dir_args(init) =~= seq![]);
        assert(parts.take(1) =~= parts);
        if skipped == 0 {
            assert(parts != seq![path::root()]) by {
                assert(seq![path::root()][0] == path::root());
            }
        }
    } else {
        every_directory_on_the_way_is_created(init, i);
        assert(parts != seq![path::root()]);
        if skipped <= i < init.len() {
            assert(init.take(i + 1) =~= parts.take(i + 1));
            assert(dir_args(parts)[2 * (i - skipped)] == dir_args(init)[2 * (i - skipped)]);
            assert(dir_args(parts)[2 * (i - skipped) + 1] == dir_args(init)[2 * (i - skipped) + 1]);
        } else if i == init.len() {
            assert(parts.take(i + 1) =~= parts);
        }
    }
}

/// A directory of the host is mounted where it is there, and behind the directories above its
/// place; where it is not, nothing is mounted.
pub proof fn directories_are_mounted_where_they_are_there(
    source: Seq<u8>,
    target: Seq<u8>,
    present: Set<Seq<u8>>,
)
    ensures
        !present.contains(source) ==> ro_bind_args(source, target, present).len() == 0,
        present.contains(source) ==> ({
            let args = ro_bind_args(source, target, present);
            let n = args.len();
            &&& n >= 3
            &&& args[n - 3] == encode_utf8("--ro-bind"@)
            &&& args[n - 2] == source
            &&& args[n - 1] == target
            &&& args.take(n - 3) == dir_args(path::components_of(target))
        }),
        path::parent_of(target) matches Some(dir) ==> parent_dir_args(target) == dir_args(
            path::components_of(dir),
        ),
{
    if present.contains(source) {
        let args = ro_bind_args(source, target, present);
        assert(args.take(args.len() - 3) =~= dir_args(path::components_of(target)));
    }
}

/// An exit code is what is left of a number without multiples of 256; a number that is one byte stays
/// as it is.
pub proof fn exit_codes_wrap_around(n: int)
    ensures
        0 <= low_byte(n) < 256,
        low_byte(n + 256) == low_byte(n),
        0 <= n < 256 ==> low_byte(n) == n,
{
}

/// The name of `dir/name` is `name`, where that is a name and not a dot or two.
pub proof fn files_are_named_by_their_last_component(dir: Seq<u8>, name: Seq<char>)
    requires
        !encode_utf8(name).contains(path::SLASH),
        name.len() > 0,
        name != seq!['.'],
        name != seq!['.', '.'],
    ensures
        name_text(path::joined(dir, encode_utf8(name))) == Some(name),
{
    let bytes = encode_utf8(name);
    os_text::lemma_text_shown(name);
    lemma_no_dots(name);
    assert(bytes.len() > 0) by {
        if bytes.len() == 0 {
            vstd::utf8::encode_utf8_decode_utf8(Seq::empty());
            assert(bytes =~= encode_utf8(Seq::empty()));
        }
    }
    path::joining_adds_a_component(dir, bytes);
    path::ends_of_paths(path::joined(dir, bytes));
    let parts = path::components_of(dir).push(bytes);
    assert(parts.last() == bytes);
    if bytes == seq![47u8] {
        assert(bytes[0] == path::SLASH);
    }
}

/// A name that is neither one dot nor two is not encoded like them.
proof fn lemma_no_dots(name: Seq<char>)
    requires
        name != seq!['.'],
        name != seq!['.', '.'],
    ensures
        encode_utf8(name) != seq![46u8],
        encode_utf8(name) != seq![46u8, 46u8],
{
    let one = seq!['.'];
    let two = seq!['.', '.'];
    vstd::utf8::is_ascii_chars_encode_utf8(one);
    vstd::utf8::is_ascii_chars_encode_utf8(two);
    assert(encode_utf8(one) =~= seq![46u8]);
    assert(encode_utf8(two) =~= seq![46u8, 46u8]);
    vstd::utf8::encode_utf8_decode_utf8(name);
    vstd::utf8::encode_utf8_decode_utf8(one);
    vstd::utf8::encode_utf8_decode_utf8(two);
}

} // verus!
