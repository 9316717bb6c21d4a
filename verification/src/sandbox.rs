//! Which directories of the remote host the sandbox shows, and where they come from.
use vstd::prelude::*;
use vstd::utf8::encode_utf8;
use crate::config;
use crate::config::{RemoteProfile, TeleportConfig};
use crate::names;
use crate::os_text::OsText;
use crate::path;
use crate::text;
use crate::util;

verus! {

/// Whether a directory is under one of a list.
pub open spec fn covered(targets: Seq<Seq<char>>, dir: Seq<char>) -> bool {
    exists|i: int| 0 <= i < targets.len() && util::under(dir, #[trigger] targets[i])
}

/// A list of directories with each of `dirs` at its end that is under none before it.
pub open spec fn extended(targets: Seq<Seq<char>>, dirs: Seq<Seq<char>>) -> Seq<Seq<char>>
    decreases dirs.len(),
{
    if dirs.len() == 0 {
        targets
    } else {
        let front = extended(targets, dirs.drop_last());
        if covered(front, dirs.last()) {
            front
        } else {
            front.push(dirs.last())
        }
    }
}

/// The directories that are mounted for every remote host: the usual ones, and the working
/// directory if it is in none of them.
pub open spec fn base_targets(remote_cwd: Seq<char>) -> Seq<Seq<char>> {
    names::in_order(
        extended(config::literals(config::REMOTE_BIND_DIRS@), seq![remote_cwd]).to_set(),
    )
}

/// The directories that are mounted: those of every remote host, then those that hold programs,
/// then those that were asked for, each if it is in none before it.
pub open spec fn bind_targets(
    remote_cwd: Seq<char>,
    exec_dirs: Seq<Seq<char>>,
    bin_dirs: Seq<Seq<char>>,
) -> Seq<Seq<char>> {
    names::in_order(extended(extended(base_targets(remote_cwd), exec_dirs), bin_dirs).to_set())
}

/// The directories whose programs are replaced: those that hold programs and those that were
/// asked for.
pub open spec fn overlay_targets(exec_dirs: Seq<Seq<char>>, bin_dirs: Seq<Seq<char>>) -> Seq<
    Seq<char>,
> {
    names::in_order((exec_dirs + bin_dirs).to_set())
}

fn is_covered(targets: &Vec<String>, dir: &str) -> (r: bool)
    ensures
        r == covered(text::views(targets@), dir@),
{
    let ghost all = text::views(targets@);
    for i in 0..targets.len()
        invariant
            all == text::views(targets@),
            forall|k: int| 0 <= k < i ==> !util::under(dir@, #[trigger] all[k]),
    {
        assert(all[i as int] == targets@[i as int]@);
        if util::path_is_under(dir, targets[i].as_str()) {
            assert(util::under(dir@, all[i as int]));
            return true;
        }
    }
    false
}

fn extend_targets(targets: &mut Vec<String>, dirs: &Vec<String>)
    ensures
        text::views(final(targets)@) == extended(text::views(old(targets)@), text::views(dirs@)),
{
    let ghost start = text::views(targets@);
    let ghost all = text::views(dirs@);
    for i in 0..dirs.len()
        invariant
            all == text::views(dirs@),
            text::views(targets@) == extended(start, all.take(i as int)),
    {
        proof {
            assert(all.take(i + 1).drop_last() =~= all.take(i as int));
            assert(all.take(i + 1).last() == dirs@[i as int]@);
        }
        if !is_covered(targets, dirs[i].as_str()) {
            let dir = dirs[i].clone();
            proof {
                text::lemma_views_push(targets@, dir);
            }
            targets.push(dir);
        }
    }
    assert(all.take(all.len() as int) =~= all);
}

/// The directories that are mounted for every remote host.
pub fn base_remote_bind_targets(config: &TeleportConfig) -> (r: Vec<String>)
    ensures
        text::views(r@) == base_targets(config.remote_cwd@),
        names::sorted(text::views(r@)),
        text::views(r@).to_set() == extended(
            config::literals(config::REMOTE_BIND_DIRS@),
            seq![config.remote_cwd@],
        ).to_set(),
{
    let mut targets: Vec<String> = Vec::new();
    let ghost fixed = config::literals(config::REMOTE_BIND_DIRS@);
    for i in 0..config::REMOTE_BIND_DIRS.len()
        invariant
            fixed == config::literals(config::REMOTE_BIND_DIRS@),
            text::views(targets@) == fixed.take(i as int),
    {
        let dir = config::REMOTE_BIND_DIRS[i].to_string();
        proof {
            text::lemma_views_push(targets@, dir);
            assert(fixed.take(i + 1) =~= fixed.take(i as int).push(dir@));
        }
        targets.push(dir);
    }
    assert(fixed.take(fixed.len() as int) =~= fixed);
    let mut cwd: Vec<String> = Vec::new();
    cwd.push(config.remote_cwd.clone());
    assert(text::views(cwd@) =~= seq![config.remote_cwd@]);
    extend_targets(&mut targets, &cwd);
    names::sort_names(&targets)
}

/// The directories that are mounted.
pub fn remote_bind_targets(config: &TeleportConfig, profile: &RemoteProfile) -> (r: Vec<String>)
    requires
        profile.exec_names_by_dir.wf(),
    ensures
        text::views(r@) == bind_targets(
            config.remote_cwd@,
            profile.exec_names_by_dir.dirs(),
            text::views(config.remote_bin_dirs@),
        ),
        names::sorted(text::views(r@)),
        text::views(r@).to_set() == extended(
            extended(base_targets(config.remote_cwd@), profile.exec_names_by_dir.dirs()),
            text::views(config.remote_bin_dirs@),
        ).to_set(),
{
    let mut targets = base_remote_bind_targets(config);
    extend_targets(&mut targets, &profile.exec_names_by_dir.keys());
    extend_targets(&mut targets, &config.remote_bin_dirs);
    names::sort_names(&targets)
}

/// The directories whose programs are replaced.
pub fn overlay_target_dirs(config: &TeleportConfig, profile: &RemoteProfile) -> (r: Vec<String>)
    requires
        profile.exec_names_by_dir.wf(),
    ensures
        text::views(r@) == overlay_targets(
            profile.exec_names_by_dir.dirs(),
            text::views(config.remote_bin_dirs@),
        ),
        names::sorted(text::views(r@)),
        text::views(r@).to_set() == profile.exec_names_by_dir@.dom().union(
            text::views(config.remote_bin_dirs@).to_set(),
        ),
{
    let mut targets = profile.exec_names_by_dir.keys();
    let mut more = text::copy_texts(&config.remote_bin_dirs);
    let ghost a = text::views(targets@);
    let ghost b = text::views(more@);
    targets.append(&mut more);
    proof {
        assert(text::views(targets@) =~= a + b);
        vstd::seq_lib::seq_to_set_distributes_over_add(a, b);
    }
    names::sort_names(&targets)
}

/// Where the programs of a directory are replaced from.
pub open spec fn overlay_source(root: Seq<u8>, target: Seq<char>) -> Seq<u8> {
    path::joined(root, encode_utf8(text::without_leading(target, '/')))
}

/// Where the programs of a directory are replaced from.
pub fn overlay_source_dir(exec_overlay_root: &OsText, target: &str) -> (r: OsText)
    ensures
        r@ == overlay_source(exec_overlay_root@, target@),
{
    path::join_text(exec_overlay_root, text::trim_leading(target, '/').as_str())
}

/// Where a remote directory is in the mount of the remote root.
pub open spec fn remote_source(mount: Seq<u8>, target: Seq<char>) -> Seq<u8> {
    if target == "/"@ {
        mount
    } else {
        path::joined(mount, encode_utf8(text::without_leading(target, '/')))
    }
}

/// Where a remote directory is in the mount of the remote root.
pub fn source_for_remote_target(remote_root_mount: &OsText, target: &str) -> (r: OsText)
    ensures
        r@ == remote_source(remote_root_mount@, target@),
{
    if text::text_equal(target, "/") {
        return remote_root_mount.clone();
    }
    path::join_text(remote_root_mount, text::trim_leading(target, '/').as_str())
}

/// The working directory is always mounted, in one of the directories of every remote host.
pub proof fn the_working_directory_is_mounted(remote_cwd: Seq<char>)
    ensures
        covered(base_targets(remote_cwd), remote_cwd),
{
    let fixed = config::literals(config::REMOTE_BIND_DIRS@);
    let list = extended(fixed, seq![remote_cwd]);
    assert(seq![remote_cwd].drop_last() =~= seq![]);
    assert(seq![remote_cwd].last() == remote_cwd);
    assert(extended(fixed, seq![]) == fixed);
    if !covered(fixed, remote_cwd) {
        assert(list == fixed.push(remote_cwd));
        assert(list[fixed.len() as int] == remote_cwd);
    }
    assert(covered(list, remote_cwd));
    names::every_list_has_an_order(list);
    lemma_covered_by_set(list, base_targets(remote_cwd), remote_cwd);
}

/// What is covered depends only on which directories a list has.
proof fn lemma_covered_by_set(a: Seq<Seq<char>>, b: Seq<Seq<char>>, dir: Seq<char>)
    requires
        a.to_set() == b.to_set(),
        covered(a, dir),
    ensures
        covered(b, dir),
{
    let i = choose|i: int| 0 <= i < a.len() && util::under(dir, #[trigger] a[i]);
    assert(a.to_set().contains(a[i]));
    assert(b.contains(a[i]));
    let j = choose|j: int| 0 <= j < b.len() && b[j] == a[i];
    assert(util::under(dir, b[j]));
}

proof fn lemma_extended_grows(targets: Seq<Seq<char>>, dirs: Seq<Seq<char>>)
    ensures
        targets.is_prefix_of(extended(targets, dirs)),
        forall|i: int| 0 <= i < dirs.len() ==> covered(extended(targets, dirs), #[trigger] dirs[i]),
    decreases dirs.len(),
{
    if dirs.len() == 0 {
        assert(targets.subrange(0, targets.len() as int) =~= targets);
    } else {
        let init = dirs.drop_last();
        let front = extended(targets, init);
        let all = extended(targets, dirs);
        lemma_extended_grows(targets, init);
        assert(front.subrange(0, targets.len() as int) =~= targets);
        assert(all.subrange(0, targets.len() as int) =~= targets);
        assert forall|i: int| 0 <= i < dirs.len() implies covered(all, #[trigger] dirs[i]) by {
            if i < init.len() {
                assert(covered(front, init[i]));
                let k = choose|k: int| 0 <= k < front.len() && util::under(
                    init[i],
                    #[trigger] front[k],
                );
                assert(all[k] == front[k]);
                assert(util::under(dirs[i], all[k]));
            } else if !covered(front, dirs.last()) {
                assert(all[front.len() as int] == dirs[i]);
                assert(util::under(dirs[i], all[front.len() as int]));
            }
        }
    }
}

proof fn lemma_covered_in_prefix(a: Seq<Seq<char>>, b: Seq<Seq<char>>, dir: Seq<char>)
    requires
        a.is_prefix_of(b),
        covered(a, dir),
    ensures
        covered(b, dir),
{
    let i = choose|i: int| 0 <= i < a.len() && util::under(dir, #[trigger] a[i]);
    assert(b.subrange(0, a.len() as int)[i] == b[i]);
    assert(util::under(dir, b[i]));
}

/// Every directory that the sandbox needs of the remote host is mounted: the usual ones, the
/// working directory, those that hold programs, and those that were asked for.
pub proof fn needed_directories_are_mounted(
    remote_cwd: Seq<char>,
    exec_dirs: Seq<Seq<char>>,
    bin_dirs: Seq<Seq<char>>,
    dir: Seq<char>,
)
    requires
        config::literals(config::REMOTE_BIND_DIRS@).contains(dir) || dir == remote_cwd
            || exec_dirs.contains(dir) || bin_dirs.contains(dir),
    ensures
        covered(bind_targets(remote_cwd, exec_dirs, bin_dirs), dir),
{
    let fixed = config::literals(config::REMOTE_BIND_DIRS@);
    let list = extended(fixed, seq![remote_cwd]);
    let base = base_targets(remote_cwd);
    let one = extended(base, exec_dirs);
    let two = extended(one, bin_dirs);
    names::every_list_has_an_order(list);
    names::every_list_has_an_order(two);
    lemma_extended_grows(fixed, seq![remote_cwd]);
    lemma_extended_grows(base, exec_dirs);
    lemma_extended_grows(one, bin_dirs);
    if bin_dirs.contains(dir) {
        let i = choose|i: int| 0 <= i < bin_dirs.len() && bin_dirs[i] == dir;
        assert(covered(two, bin_dirs[i]));
    } else if exec_dirs.contains(dir) {
        let i = choose|i: int| 0 <= i < exec_dirs.len() && exec_dirs[i] == dir;
        assert(covered(one, exec_dirs[i]));
        lemma_covered_in_prefix(one, two, dir);
    } else {
        if dir == remote_cwd {
            the_working_directory_is_mounted(remote_cwd);
        } else {
            let i = choose|i: int| 0 <= i < fixed.len() && fixed[i] == dir;
            assert(util::under(dir, fixed[i]));
            assert(covered(fixed, dir));
            lemma_covered_in_prefix(fixed, list, dir);
            lemma_covered_by_set(list, base, dir);
        }
        lemma_covered_in_prefix(base, one, dir);
        lemma_covered_in_prefix(one, two, dir);
    }
    lemma_covered_by_set(two, bind_targets(remote_cwd, exec_dirs, bin_dirs), dir);
}

proof fn lemma_without_leading(s: Seq<char>)
    ensures
        ({
            let t = text::without_leading(s, '/');
            t.len() == 0 || t[0] != '/'
        }),
    decreases s.len(),
{
    if s.len() > 0 && s[0] == '/' {
        lemma_without_leading(s.drop_first());
    }
}

/// What is mounted comes from where it should: the source of a remote directory lies in the mount
/// of the remote root, the source of replaced programs in the directory made for them.
pub proof fn sources_stay_in_their_roots(root: Seq<u8>, target: Seq<char>)
    requires
        root.len() > 0,
    ensures
        path::within(remote_source(root, target), root),
        path::within(overlay_source(root, target), root),
{
    let t = text::without_leading(target, '/');
    lemma_without_leading(target);
    path::lemma_relative(t);
    path::joining_stays_within(root, encode_utf8(t));
    let parts = path::components_of(root);
    assert(parts.subrange(0, parts.len() as int) =~= parts);
}

/// The directory in which the sandbox starts: the remote working directory, as it is mounted.
pub fn start_dir_for_bwrap(config: &TeleportConfig) -> (r: String)
    ensures
        r@ == config.remote_cwd@,
{
    proof {
        the_working_directory_is_mounted(config.remote_cwd@);
    }
    if is_covered(&base_remote_bind_targets(config), config.remote_cwd.as_str()) {
        config.remote_cwd.clone()
    } else {
        "/root".to_string()
    }
}

/// Directories are added one after the other, each that is under none that is there already.
pub proof fn directories_are_added_one_by_one(
    targets: Seq<Seq<char>>,
    dirs: Seq<Seq<char>>,
    dir: Seq<char>,
)
    ensures
        extended(targets, Seq::empty()) == targets,
        ({
            let before = extended(targets, dirs);
            let there = exists|i: int| 0 <= i < before.len() && util::under(dir, #[trigger] before[i]);
            extended(targets, dirs.push(dir)) == (if there {
                before
            } else {
                before.push(dir)
            })
        }),
{
    assert(dirs.push(dir).drop_last() =~= dirs);
}

proof fn lemma_extended_from(targets: Seq<Seq<char>>, dirs: Seq<Seq<char>>)
    ensures
        forall|i: int|
            0 <= i < extended(targets, dirs).len() ==> targets.contains(
                #[trigger] extended(targets, dirs)[i],
            ) || dirs.contains(extended(targets, dirs)[i]),
    decreases dirs.len(),
{
    let all = extended(targets, dirs);
    if dirs.len() == 0 {
        assert forall|i: int| 0 <= i < all.len() implies targets.contains(#[trigger] all[i]) by {}
    } else {
        let init = dirs.drop_last();
        let front = extended(targets, init);
        lemma_extended_from(targets, init);
        assert forall|i: int| 0 <= i < all.len() implies targets.contains(#[trigger] all[i])
            || dirs.contains(all[i]) by {
            if i < front.len() {
                assert(all[i] == front[i]);
                if init.contains(front[i]) {
                    let k = choose|k: int| 0 <= k < init.len() && init[k] == front[i];
                    assert(dirs[k] == front[i]);
                }
            } else {
                assert(dirs[dirs.len() - 1] == all[i]);
            }
        }
    }
}

/// Nothing else of the remote host is mounted than the usual directories, the working directory,
/// those that hold programs, and those that were asked for.
pub proof fn only_needed_directories_are_mounted(
    remote_cwd: Seq<char>,
    exec_dirs: Seq<Seq<char>>,
    bin_dirs: Seq<Seq<char>>,
    dir: Seq<char>,
)
    requires
        bind_targets(remote_cwd, exec_dirs, bin_dirs).contains(dir),
    ensures
        config::literals(config::REMOTE_BIND_DIRS@).contains(dir) || dir == remote_cwd
            || exec_dirs.contains(dir) || bin_dirs.contains(dir),
{
    let fixed = config::literals(config::REMOTE_BIND_DIRS@);
    let list = extended(fixed, seq![remote_cwd]);
    let base = base_targets(remote_cwd);
    let one = extended(base, exec_dirs);
    let two = extended(one, bin_dirs);
    names::every_list_has_an_order(list);
    names::every_list_has_an_order(two);
    lemma_extended_from(fixed, seq![remote_cwd]);
    lemma_extended_from(base, exec_dirs);
    lemma_extended_from(one, bin_dirs);
    let targets = bind_targets(remote_cwd, exec_dirs, bin_dirs);
    assert(targets.to_set().contains(dir));
    assert(two.to_set().contains(dir));
    let i = choose|i: int| 0 <= i < two.len() && two[i] == dir;
    if !bin_dirs.contains(two[i]) {
        let j = choose|j: int| 0 <= j < one.len() && one[j] == dir;
        if !exec_dirs.contains(one[j]) {
            assert(base.contains(dir));
            assert(base.to_set().contains(dir));
            assert(list.to_set().contains(dir));
            let m = choose|m: int| 0 <= m < list.len() && list[m] == dir;
            if !fixed.contains(list[m]) {
                let x = choose|x: int|
                    0 <= x < seq![remote_cwd].len() && seq![remote_cwd][x] == dir;
                assert(x == 0);
            }
        }
    }
}

/// The directories whose programs are replaced are those that hold programs and those that were
/// asked for, all of them and no others.
pub proof fn replaced_directories_are_all_that_hold_programs(
    exec_dirs: Seq<Seq<char>>,
    bin_dirs: Seq<Seq<char>>,
    dir: Seq<char>,
)
    ensures
        overlay_targets(exec_dirs, bin_dirs).contains(dir) <==> exec_dirs.contains(dir)
            || bin_dirs.contains(dir),
{
    let all = exec_dirs + bin_dirs;
    names::every_list_has_an_order(all);
    let list = overlay_targets(exec_dirs, bin_dirs);
    assert(list.contains(dir) <==> list.to_set().contains(dir));
    assert(all.contains(dir) <==> all.to_set().contains(dir));
    if exec_dirs.contains(dir) {
        let i = choose|i: int| 0 <= i < exec_dirs.len() && exec_dirs[i] == dir;
        assert(all[i] == dir);
    }
    if bin_dirs.contains(dir) {
        let i = choose|i: int| 0 <= i < bin_dirs.len() && bin_dirs[i] == dir;
        assert(all[exec_dirs.len() + i] == dir);
    }
    if all.contains(dir) {
        let i = choose|i: int| 0 <= i < all.len() && all[i] == dir;
        if i < exec_dirs.len() {
            assert(exec_dirs[i] == dir);
        } else {
            assert(bin_dirs[i - exec_dirs.len()] == dir);
        }
    }
}

/// A directory comes from its own place in a root: behind the components of the root stand its own,
/// without the root that it begins with.
pub proof fn sources_are_at_their_own_place(root: Seq<u8>, target: Seq<char>)
    requires
        root.len() > 0,
    ensures
        path::components_of(remote_source(root, target)) == path::components_of(root)
            + path::components_of(
            seq![path::SLASH] + encode_utf8(text::without_leading(target, '/')),
        ).skip(1),
        path::components_of(overlay_source(root, target)) == path::components_of(root)
            + path::components_of(
            seq![path::SLASH] + encode_utf8(text::without_leading(target, '/')),
        ).skip(1),
{
    let t = text::without_leading(target, '/');
    let rel = encode_utf8(t);
    lemma_without_leading(target);
    path::lemma_relative(t);
    let b = root.drop_last();
    if root.last() == path::SLASH {
        assert(b.push(path::SLASH) =~= root);
        if b.len() == 0 {
            assert(root =~= seq![path::SLASH]);
            path::names_are_components(seq![path::DOT]);
            assert(path::joined(root, rel) =~= seq![path::SLASH] + rel);
            let all = path::components_of(seq![path::SLASH] + rel);
            assert(all =~= seq![path::root()] + all.skip(1));
        } else {
            path::components_go_on(b, rel);
            path::components_go_on(b, Seq::empty());
            assert(b.push(path::SLASH) + Seq::<u8>::empty() =~= root);
            path::names_are_components(seq![path::DOT]);
            assert(seq![path::SLASH] + Seq::<u8>::empty() =~= seq![path::SLASH]);
            assert(path::components_of(seq![path::SLASH]).skip(1) =~= seq![]);
            assert(path::components_of(root) =~= path::components_of(b));
        }
    } else {
        path::components_go_on(root, rel);
    }
    reveal_strlit("/");
    if target == "/"@ {
        assert(target.drop_first() =~= Seq::<char>::empty());
        assert(text::without_leading(target.drop_first(), '/') =~= Seq::<char>::empty());
        assert(rel =~= Seq::<u8>::empty());
        path::names_are_components(seq![path::DOT]);
        assert(seq![path::SLASH] + rel =~= seq![path::SLASH]);
        assert(path::components_of(seq![path::SLASH]).skip(1) =~= seq![]);
        assert(path::components_of(root) + Seq::<Seq<u8>>::empty() =~= path::components_of(root));
    }
}

/// The usual directories of the remote host come from it, whatever else does.
pub proof fn the_usual_directories_are_mounted(
    remote_cwd: Seq<char>,
    exec_dirs: Seq<Seq<char>>,
    bin_dirs: Seq<Seq<char>>,
    i: int,
)
    requires
        0 <= i < 8,
    ensures
        bind_targets(remote_cwd, exec_dirs, bin_dirs).contains(
            seq![
                "/root"@,
                "/home"@,
                "/opt"@,
                "/srv"@,
                "/mnt"@,
                "/media"@,
                "/usr/local"@,
                "/var/tmp"@,
            ][i],
        ),
{
    let fixed = config::literals(config::REMOTE_BIND_DIRS@);
    let usual = seq![
        "/root"@,
        "/home"@,
        "/opt"@,
        "/srv"@,
        "/mnt"@,
        "/media"@,
        "/usr/local"@,
        "/var/tmp"@,
    ];
    assert(fixed =~= usual);
    let list = extended(fixed, seq![remote_cwd]);
    let base = base_targets(remote_cwd);
    let one = extended(base, exec_dirs);
    let two = extended(one, bin_dirs);
    names::every_list_has_an_order(list);
    names::every_list_has_an_order(two);
    lemma_extended_grows(fixed, seq![remote_cwd]);
    lemma_extended_grows(base, exec_dirs);
    lemma_extended_grows(one, bin_dirs);
    lemma_prefix_holds(fixed, list, usual[i]);
    assert(list.to_set().contains(usual[i]));
    assert(base.to_set().contains(usual[i]));
    lemma_prefix_holds(base, one, usual[i]);
    lemma_prefix_holds(one, two, usual[i]);
    assert(two.to_set().contains(usual[i]));
    assert(bind_targets(remote_cwd, exec_dirs, bin_dirs).to_set().contains(usual[i]));
}

proof fn lemma_prefix_holds(a: Seq<Seq<char>>, b: Seq<Seq<char>>, dir: Seq<char>)
    requires
        a.is_prefix_of(b),
        a.contains(dir),
    ensures
        b.contains(dir),
{
    let i = choose|i: int| 0 <= i < a.len() && a[i] == dir;
    assert(b.subrange(0, a.len() as int)[i] == dir);
    assert(b[i] == dir);
}

/// What is mounted, and what is replaced, is mounted in the order of the names, each once. So what
/// lies in another directory comes behind it.
pub proof fn directories_are_mounted_in_order(
    remote_cwd: Seq<char>,
    exec_dirs: Seq<Seq<char>>,
    bin_dirs: Seq<Seq<char>>,
)
    ensures
        names::sorted(bind_targets(remote_cwd, exec_dirs, bin_dirs)),
        names::sorted(overlay_targets(exec_dirs, bin_dirs)),
{
    names::every_list_has_an_order(
        extended(extended(base_targets(remote_cwd), exec_dirs), bin_dirs),
    );
    names::every_list_has_an_order(exec_dirs + bin_dirs);
}

proof fn lemma_covered_stays_out(targets: Seq<Seq<char>>, dirs: Seq<Seq<char>>, dir: Seq<char>)
    requires
        covered(targets, dir),
        !targets.contains(dir),
    ensures
        covered(extended(targets, dirs), dir),
        !extended(targets, dirs).contains(dir),
    decreases dirs.len(),
{
    if dirs.len() > 0 {
        let init = dirs.drop_last();
        let front = extended(targets, init);
        let all = extended(targets, dirs);
        lemma_covered_stays_out(targets, init, dir);
        lemma_extended_grows(targets, dirs);
        lemma_covered_in_prefix(targets, all, dir);
        if all.contains(dir) {
            let i = choose|i: int| 0 <= i < all.len() && all[i] == dir;
            if i < front.len() {
                assert(front[i] == dir);
            } else {
                assert(dirs.last() == dir);
            }
        }
    }
}

/// A directory that lies in a usual one, or in the working directory, comes with that and is not
/// mounted again.
pub proof fn directories_are_not_mounted_again(
    remote_cwd: Seq<char>,
    exec_dirs: Seq<Seq<char>>,
    bin_dirs: Seq<Seq<char>>,
    dir: Seq<char>,
    i: int,
)
    requires
        ({
            let usual = seq![
                "/root"@,
                "/home"@,
                "/opt"@,
                "/srv"@,
                "/mnt"@,
                "/media"@,
                "/usr/local"@,
                "/var/tmp"@,
            ];
            &&& !usual.contains(dir)
            &&& dir != remote_cwd
            &&& util::under(dir, remote_cwd) || (0 <= i < 8 && util::under(dir, usual[i]))
        }),
    ensures
        !bind_targets(remote_cwd, exec_dirs, bin_dirs).contains(dir),
{
    let fixed = config::literals(config::REMOTE_BIND_DIRS@);
    let usual = seq![
        "/root"@,
        "/home"@,
        "/opt"@,
        "/srv"@,
        "/mnt"@,
        "/media"@,
        "/usr/local"@,
        "/var/tmp"@,
    ];
    assert(fixed =~= usual);
    let list = extended(fixed, seq![remote_cwd]);
    let base = base_targets(remote_cwd);
    let one = extended(base, exec_dirs);
    let two = extended(one, bin_dirs);
    names::every_list_has_an_order(list);
    names::every_list_has_an_order(two);
    lemma_extended_from(fixed, seq![remote_cwd]);
    lemma_extended_grows(fixed, seq![remote_cwd]);
    if list.contains(dir) {
        let k = choose|k: int| 0 <= k < list.len() && list[k] == dir;
        if seq![remote_cwd].contains(list[k]) {
            let m = choose|m: int| 0 <= m < seq![remote_cwd].len() && seq![remote_cwd][m] == dir;
            assert(m == 0);
        }
        assert(false);
    }
    assert(covered(list, dir)) by {
        if util::under(dir, remote_cwd) {
            assert(covered(list, seq![remote_cwd][0]));
            let k = choose|k: int|
                0 <= k < list.len() && util::under(remote_cwd, #[trigger] list[k]);
            util::under_is_transitive(dir, remote_cwd, list[k]);
            assert(util::under(dir, list[k]));
        } else {
            assert(util::under(dir, fixed[i]));
            assert(covered(fixed, dir));
            lemma_covered_in_prefix(fixed, list, dir);
        }
    }
    assert(base.to_set() == list.to_set());
    if base.contains(dir) {
        assert(base.to_set().contains(dir));
        assert(list.to_set().contains(dir));
    }
    lemma_covered_by_set(list, base, dir);
    lemma_covered_stays_out(base, exec_dirs, dir);
    lemma_covered_stays_out(one, bin_dirs, dir);
    let targets = bind_targets(remote_cwd, exec_dirs, bin_dirs);
    if targets.contains(dir) {
        assert(targets.to_set().contains(dir));
        assert(two.to_set().contains(dir));
    }
}

} // verus!
