//! What holds of targets: each way of writing one is read back as what was written.
use vstd::prelude::*;
use crate::config;
use crate::config::{ConnectionArgs, TargetView, TeleportConfig};
use crate::decimal;
use crate::error::ErrorView;
use crate::text;
use crate::util;

verus! {

/// A port behind a host.
pub open spec fn port_text(port: Option<u16>) -> Seq<char> {
    match port {
        Some(port) => seq![':'] + decimal::decimal(port as nat),
        None => seq![],
    }
}

/// A user before a host.
pub open spec fn user_text(user: Option<Seq<char>>) -> Seq<char> {
    match user {
        Some(user) => user + seq!['@'],
        None => seq![],
    }
}

/// `[user@]host[:port]`.
pub open spec fn plain_target(parts: TargetView) -> Seq<char> {
    user_text(parts.0) + (parts.1 + port_text(parts.2))
}

/// `[user@][host][:port]`, the host in brackets.
pub open spec fn bracketed_target(parts: TargetView) -> Seq<char> {
    user_text(parts.0) + (seq!['['] + parts.1 + seq![']'] + port_text(parts.2))
}

/// The user has no `@`; without a user the host has none.
pub open spec fn at_sign_is_clear(parts: TargetView) -> bool {
    match parts.0 {
        Some(user) => !user.contains('@'),
        None => !parts.1.contains('@'),
    }
}

/// A text that is neither wrapped in white space nor starts with a scheme.
pub open spec fn bare(s: Seq<char>) -> bool {
    text::trimmed(s) == s && !"ssh://"@.is_prefix_of(s)
}

proof fn lemma_port_plain(port: Option<u16>)
    ensures
        !port_text(port).contains('@'),
        !port_text(port).contains(']'),
        port matches Some(p) ==> {
            &&& !port_text(port).skip(1).contains(':')
            &&& port_text(port)[0] == ':'
            &&& port_text(port).len() >= 2
            &&& port_text(port).skip(1) == decimal::decimal(p as nat)
            &&& decimal::all_digits(decimal::decimal(p as nat))
            &&& config::parsed_port(decimal::decimal(p as nat)) == Ok::<u16, ErrorView>(p)
        },
{
    if let Some(p) = port {
        let d = decimal::decimal(p as nat);
        decimal::decimal_is_digits(p as nat);
        decimal::decimal_reads_back(p);
        assert(port_text(port).skip(1) =~= d);
        assert forall|i: int| 0 <= i < port_text(port).len() implies port_text(port)[i] != '@'
            && port_text(port)[i] != ']' && (i > 0 ==> port_text(port)[i] != ':') by {
            if i > 0 {
                assert(port_text(port)[i] == d[i - 1]);
                assert(decimal::digit(d[i - 1]));
            }
        }
        assert forall|i: int| 0 <= i < d.len() implies d[i] != ':' by {
            assert(decimal::digit(d[i]));
        }
    }
}

proof fn lemma_cut(parts: TargetView, rest: Seq<char>)
    requires
        parts.0 matches Some(user) ==> !user.contains('@'),
        parts.0 is None ==> !rest.contains('@'),
    ensures
        config::cut(user_text(parts.0) + rest, '@') == (parts.0, rest),
{
    let s = user_text(parts.0) + rest;
    match parts.0 {
        Some(user) => {
            let k = user.len() as int;
            assert(s[k] == '@');
            assert forall|i: int| 0 <= i < k implies s[i] != '@' by {
                assert(s[i] == user[i]);
            }
            text::lemma_first_at_is(s, '@', k);
            assert(s.take(k) =~= user);
            assert(s.skip(k + 1) =~= rest);
        },
        None => {
            assert(s =~= rest);
        },
    }
}

proof fn lemma_host_and_port(host: Seq<char>, port: Option<u16>)
    requires
        !host.contains(':'),
    ensures
        config::parsed_host_and_port(host + port_text(port)) == Ok::<_, ErrorView>((host, port)),
{
    let s = host + port_text(port);
    lemma_port_plain(port);
    match port {
        Some(p) => {
            let k = host.len() as int;
            assert(s[k] == ':');
            assert(s.contains(':'));
            text::lemma_last_at(s, ':');
            let last = text::last_at(s, ':');
            assert(last == k) by {
                if last > k {
                    assert(s[last] == port_text(port).skip(1)[last - k - 1]);
                    assert(port_text(port).skip(1).contains(':'));
                }
            }
            assert(s.take(k) =~= host);
            assert(s.skip(k + 1) =~= decimal::decimal(p as nat));
        },
        None => {
            assert(s =~= host);
        },
    }
}

/// A target written as `[user@]host[:port]` is read as that user, host and port. The host has no
/// colon and opens no bracket, the user is not empty.
pub proof fn plain_targets_read_back(parts: TargetView)
    requires
        at_sign_is_clear(parts),
        parts.0 matches Some(user) ==> user.len() > 0,
        parts.1.len() > 0,
        !parts.1.contains(':'),
        parts.1[0] != '[',
        bare(plain_target(parts)),
    ensures
        config::parsed_target(plain_target(parts)) == Ok::<_, ErrorView>(parts),
{
    let rest = parts.1 + port_text(parts.2);
    lemma_port_plain(parts.2);
    assert(parts.0 is None ==> !rest.contains('@')) by {
        if parts.0 is None && rest.contains('@') {
            let i = choose|i: int| 0 <= i < rest.len() && rest[i] == '@';
            if i < parts.1.len() {
                assert(parts.1[i] == '@');
            } else {
                assert(port_text(parts.2)[i - parts.1.len()] == '@');
            }
        }
    }
    lemma_cut(parts, rest);
    assert(rest[0] == parts.1[0]);
    lemma_host_and_port(parts.1, parts.2);
    assert(plain_target(parts).len() > 0);
}

/// A target written with its host in brackets is read as that user, host and port, whatever else
/// the host has: colons, as in an IPv6 address, are part of it.
pub proof fn bracketed_targets_read_back(parts: TargetView)
    requires
        at_sign_is_clear(parts),
        !parts.1.contains(']'),
        bare(bracketed_target(parts)),
    ensures
        config::parsed_target(bracketed_target(parts)) == Ok::<_, ErrorView>(parts),
{
    let rest = seq!['['] + parts.1 + seq![']'] + port_text(parts.2);
    let k: int = parts.1.len() as int + 1;
    lemma_port_plain(parts.2);
    assert(parts.0 is None ==> !rest.contains('@')) by {
        if parts.0 is None && rest.contains('@') {
            let i = choose|i: int| 0 <= i < rest.len() && rest[i] == '@';
            if 1 <= i < k {
                assert(parts.1[i - 1] == '@');
            } else if i > k {
                assert(port_text(parts.2)[i - k - 1] == '@');
            }
        }
    }
    lemma_cut(parts, rest);
    assert(rest[0] == '[');
    assert(rest[k] == ']');
    assert forall|i: int| 0 <= i < k implies rest[i] != ']' by {
        if i > 0 {
            assert(rest[i] == parts.1[i - 1]);
        }
    }
    text::lemma_first_at_is(rest, ']', k);
    assert(rest.contains(']'));
    assert(rest.subrange(1, k) =~= parts.1);
    assert(rest.skip(k + 1) =~= port_text(parts.2));
    assert(bracketed_target(parts).len() > 0);
}

proof fn lemma_trimmed_start(s: Seq<char>)
    ensures
        ({
            let t = text::trimmed_start(s);
            t.len() > 0 ==> !text::white_space(t[0])
        }),
    decreases s.len(),
{
    if s.len() > 0 && text::white_space(s[0]) {
        lemma_trimmed_start(s.drop_first());
    }
}

proof fn lemma_trimmed_end(s: Seq<char>)
    ensures
        ({
            let t = text::trimmed_end(s);
            &&& t.is_prefix_of(s)
            &&& t.len() > 0 ==> !text::white_space(t.last())
        }),
    decreases s.len(),
{
    if s.len() > 0 && text::white_space(s.last()) {
        let init = s.drop_last();
        lemma_trimmed_end(init);
        let t = text::trimmed_end(init);
        assert(init.subrange(0, t.len() as int) =~= s.subrange(0, t.len() as int));
    } else {
        assert(s.subrange(0, s.len() as int) =~= s);
    }
}

/// White space around a target does not matter.
pub proof fn white_space_around_does_not_matter(raw: Seq<char>)
    ensures
        text::trimmed(text::trimmed(raw)) == text::trimmed(raw),
        config::parsed_target(text::trimmed(raw)) == config::parsed_target(raw),
{
    let a = text::trimmed_start(raw);
    let b = text::trimmed_end(a);
    lemma_trimmed_start(raw);
    lemma_trimmed_end(a);
    if b.len() > 0 {
        assert(b[0] == a.subrange(0, b.len() as int)[0]);
    }
    assert(text::trimmed_start(b) == b);
    assert(text::trimmed_end(b) == b);
}

/// The scheme before a target does not matter: with it and without it, the target is accepted
/// alike, and read as the same user, host and port.
pub proof fn the_scheme_does_not_matter(t: Seq<char>)
    requires
        bare(t),
        t.len() > 0,
    ensures
        config::parsed_target("ssh://"@ + t) is Ok <==> config::parsed_target(t) is Ok,
        config::parsed_target(t) is Ok ==> config::parsed_target("ssh://"@ + t)
            == config::parsed_target(t),
{
    reveal_strlit("ssh://");
    let scheme = "ssh://"@;
    let s = scheme + t;
    let a = text::trimmed_start(t);
    lemma_trimmed_end(a);
    assert(!text::white_space(t.last()));
    assert(s[0] == 's');
    assert(s.last() == t.last());
    assert(text::trimmed(s) == s);
    assert(s.subrange(0, 6) =~= scheme);
    assert(s.skip(6) =~= t);
}

/// Without an opening bracket, a target is a user before the first `@` and what follows it. Neither
/// may be empty where there is an `@`. What follows is a host, a colon and a port where there is one
/// colon with digits behind it.
pub proof fn plain_targets_are_read_part_by_part(
    user: Option<Seq<char>>,
    host: Seq<char>,
    tail: Seq<char>,
)
    requires
        ({
            let rest = host + seq![':'] + tail;
            &&& at_sign_is_clear((user, rest, None))
            &&& rest[0] != '['
            &&& !tail.contains(':')
            &&& bare(user_text(user) + rest)
        }),
    ensures
        ({
            let rest = host + seq![':'] + tail;
            let s = user_text(user) + rest;
            let r = config::parsed_target(s);
            let no_user = user matches Some(u) && u.len() == 0;
            let port = decimal::all_digits(tail) && !host.contains(':');
            &&& no_user ==> r == Err::<TargetView, _>(ErrorView::InvalidTarget(s))
            &&& !no_user && !port ==> r == Ok::<TargetView, ErrorView>((user, rest, None))
            &&& !no_user && port ==> match decimal::parsed_u16(tail) {
                Ok(p) => r == Ok::<_, ErrorView>((user, host, Some(p))),
                Err(e) => r == Err::<TargetView, _>(ErrorView::InvalidTargetPort(tail, e)),
            }
        }),
{
    let rest = host + seq![':'] + tail;
    let k = host.len() as int;
    lemma_cut((user, rest, None), rest);
    assert(rest[k] == ':');
    assert(rest.contains(':'));
    text::lemma_last_at(rest, ':');
    let last = text::last_at(rest, ':');
    if last > k {
        assert(rest[last] == tail[last - k - 1]);
        assert(tail.contains(':'));
    }
    assert(rest.take(k) =~= host);
    assert(rest.skip(k + 1) =~= tail);
}

/// Without a colon and an opening bracket, all that follows the user is the host.
pub proof fn hosts_alone_are_read(user: Option<Seq<char>>, host: Seq<char>)
    requires
        at_sign_is_clear((user, host, None)),
        !host.contains(':'),
        host.len() == 0 || host[0] != '[',
        bare(user_text(user) + host),
        user is Some || host.len() > 0,
    ensures
        ({
            let s = user_text(user) + host;
            let r = config::parsed_target(s);
            let nothing = user matches Some(u) && (u.len() == 0 || host.len() == 0);
            &&& nothing ==> r == Err::<TargetView, _>(ErrorView::InvalidTarget(s))
            &&& !nothing ==> r == Ok::<TargetView, ErrorView>((user, host, None))
        }),
{
    lemma_cut((user, host, None), host);
    assert((user_text(user) + host).len() > 0);
}

/// With an opening bracket, the host is what stands between it and the first closing one. Behind
/// that comes nothing, or a colon and a port; anything else is no target.
pub proof fn bracketed_targets_are_read_part_by_part(
    user: Option<Seq<char>>,
    host: Seq<char>,
    suffix: Seq<char>,
)
    requires
        at_sign_is_clear((user, host, None)),
        user is None ==> !suffix.contains('@'),
        !host.contains(']'),
        bare(user_text(user) + (seq!['['] + host + seq![']'] + suffix)),
    ensures
        ({
            let r = config::parsed_target(user_text(user) + (seq!['['] + host + seq![']'] + suffix));
            &&& suffix.len() == 0 ==> r == Ok::<TargetView, ErrorView>((user, host, None))
            &&& suffix.len() > 0 && suffix[0] != ':' ==> r == Err::<TargetView, _>(
                ErrorView::InvalidTargetSuffix(suffix),
            )
            &&& suffix.len() > 0 && suffix[0] == ':' ==> match decimal::parsed_u16(suffix.skip(1)) {
                Ok(p) => r == Ok::<_, ErrorView>((user, host, Some(p))),
                Err(e) => r == Err::<TargetView, _>(
                    ErrorView::InvalidTargetPort(suffix.skip(1), e),
                ),
            }
        }),
{
    let rest = seq!['['] + host + seq![']'] + suffix;
    let k: int = host.len() as int + 1;
    assert(user is None ==> !rest.contains('@')) by {
        if user is None && rest.contains('@') {
            let i = choose|i: int| 0 <= i < rest.len() && rest[i] == '@';
            if 1 <= i < k {
                assert(host[i - 1] == '@');
            } else if i > k {
                assert(suffix[i - k - 1] == '@');
            }
        }
    }
    lemma_cut((user, host, None), rest);
    assert(rest[0] == '[');
    assert(rest[k] == ']');
    assert forall|i: int| 0 <= i < k implies rest[i] != ']' by {
        if i > 0 {
            assert(rest[i] == host[i - 1]);
        }
    }
    text::lemma_first_at_is(rest, ']', k);
    assert(rest.contains(']'));
    assert(rest.subrange(1, k) =~= host);
    assert(rest.skip(k + 1) =~= suffix);
    assert((user_text(user) + rest).len() > 0);
}

/// A bracket that nothing closes makes no target, and nor does nothing at all.
pub proof fn brackets_must_be_closed(user: Option<Seq<char>>, rest: Seq<char>)
    requires
        at_sign_is_clear((user, rest, None)),
        rest.len() > 0,
        rest[0] == '[',
        !rest.contains(']'),
        bare(user_text(user) + rest),
    ensures
        config::parsed_target(user_text(user) + rest) == Err::<TargetView, _>(
            ErrorView::UnclosedBracket(user_text(user) + rest),
        ),
        config::parsed_target(Seq::empty()) == Err::<TargetView, _>(ErrorView::EmptyTarget),
{
    lemma_cut((user, rest, None), rest);
    assert((user_text(user) + rest).len() > 0);
    assert(text::trimmed(Seq::<char>::empty()) =~= Seq::<char>::empty());
}

/// A connection is given as a whole or in parts, not both, and not neither.
pub proof fn connections_are_given_in_one_way(c: ConnectionArgs)
    ensures
        c.target matches Some(target) ==> {
            &&& c.host is None && c.user is None && c.port is None ==> config::target_of(c)
                == config::parsed_target(target@)
            &&& c.host is Some || c.user is Some || c.port is Some ==> config::target_of(c) == Err::<
                TargetView,
                _,
            >(ErrorView::MixedTarget)
        },
        c.target is None ==> {
            &&& c.host matches Some(host) ==> match config::target_of(c) {
                Ok((user, name, port)) => {
                    &&& name == host@
                    &&& port == c.port
                    &&& user is Some <==> c.user is Some
                    &&& c.user matches Some(u) ==> user == Some(u@)
                },
                Err(_) => false,
            }
            &&& c.host is None ==> config::target_of(c) == Err::<TargetView, _>(
                ErrorView::MissingTarget,
            )
        },
{
}

/// A connection is accepted with absolute remote paths only; the working directory is looked at
/// first, then the home directory, then every directory of programs, and the target last.
pub proof fn accepted_connections_have_absolute_paths(c: ConnectionArgs, i: int)
    ensures
        ({
            let r = config::checked(c);
            let slash = |s: Seq<char>| s.len() > 0 && s[0] == '/';
            &&& !slash(c.remote_cwd@) ==> r == Err::<TargetView, _>(ErrorView::RemoteCwdNotAbsolute)
            &&& slash(c.remote_cwd@) && !slash(c.remote_home@) ==> r == Err::<TargetView, _>(
                ErrorView::RemoteHomeNotAbsolute,
            )
            &&& slash(c.remote_cwd@) && slash(c.remote_home@) && 0 <= i < c.remote_bin_dir@.len()
                && !slash(c.remote_bin_dir@[i]@) ==> r == Err::<TargetView, _>(
                ErrorView::RemoteBinDirNotAbsolute,
            )
            &&& slash(c.remote_cwd@) && slash(c.remote_home@) && (forall|k: int|
                0 <= k < c.remote_bin_dir@.len() ==> slash((#[trigger] c.remote_bin_dir@[k])@)) ==> r
                == config::target_of(c)
        }),
{
    if 0 <= i < c.remote_bin_dir@.len() && !config::absolute_text(c.remote_bin_dir@[i]@) {
        assert(!config::absolute_text((c.remote_bin_dir@[i])@));
    }
}

/// The destination is the host, with the user and an `@` before it where there is one; the remote
/// root is that and `:/`, with brackets around a host that holds a colon and has none.
pub proof fn destinations_name_user_and_host(user: Option<Seq<char>>, host: Seq<char>)
    ensures
        config::destination_of(user, host) == user_text(user) + host,
        !host.contains(':') ==> config::host_before_colon(host) == host,
        host.len() > 0 && host[0] == '[' ==> config::host_before_colon(host) == host,
        host.contains(':') && host[0] != '[' ==> config::host_before_colon(host) == seq!['['] + host
            + seq![']'],
{
    reveal_strlit("@");
    reveal_strlit("[");
    reveal_strlit("]");
    assert("@"@ =~= seq!['@']);
    assert("["@ =~= seq!['[']);
    assert("]"@ =~= seq![']']);
    assert(config::destination_of(user, host) =~= user_text(user) + host);
    assert(config::host_before_colon(host) =~= (if host.contains(':') && host[0] != '[' {
        seq!['['] + host + seq![']']
    } else {
        host
    }));
}

/// The remote root of a configuration is the root of the host that it names.
pub proof fn the_remote_root_is_that_of_the_host(config: &TeleportConfig)
    ensures
        config.destination() == user_text(util::opt_text(config.user)) + config.host@,
        config.remote_root() == user_text(util::opt_text(config.user)) + config::host_before_colon(
            config.host@,
        ) + seq![':', '/'],
{
    destinations_name_user_and_host(util::opt_text(config.user), config.host@);
    destinations_name_user_and_host(
        util::opt_text(config.user),
        config::host_before_colon(config.host@),
    );
    reveal_strlit(":/");
    assert(":/"@ =~= seq![':', '/']);
}

} // verus!
