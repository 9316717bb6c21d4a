//! Paths of a Unix file system, as sequences of bytes: components, joining, parents.
use vstd::prelude::*;
use vstd::utf8::encode_utf8;
use crate::os_text;
use crate::os_text::OsText;
use crate::text;

verus! {

pub const SLASH: u8 = 47;

pub const DOT: u8 = 46;

/// The root component.
pub open spec fn root() -> Seq<u8> {
    seq![SLASH]
}

/// The component for the directory itself.
pub open spec fn here() -> Seq<u8> {
    seq![DOT]
}

/// The component for the directory above.
pub open spec fn above() -> Seq<u8> {
    seq![DOT, DOT]
}

pub open spec fn absolute(p: Seq<u8>) -> bool {
    p.len() > 0 && p[0] == SLASH
}

/// Whether a piece between slashes is a component, when it is not the first one.
pub open spec fn counts(piece: Seq<u8>) -> bool {
    piece.len() > 0 && piece != here()
}

/// The pieces that are components.
pub open spec fn kept(pieces: Seq<Seq<u8>>) -> Seq<Seq<u8>>
    decreases pieces.len(),
{
    if pieces.len() == 0 {
        seq![]
    } else if counts(pieces.last()) {
        kept(pieces.drop_last()).push(pieces.last())
    } else {
        kept(pieces.drop_last())
    }
}

/// The components of a path: the root, if the path is absolute, then its names. Repeated and
/// trailing slashes do not matter, and `.` matters only as the first component of a relative
/// path.
pub open spec fn components_of(p: Seq<u8>) -> Seq<Seq<u8>> {
    let pieces = text::split(p, SLASH);
    if p.len() == 0 {
        seq![]
    } else if absolute(p) {
        seq![root()] + kept(pieces.skip(1))
    } else {
        seq![pieces[0]] + kept(pieces.skip(1))
    }
}

/// `p` seen from the directory `base`.
pub open spec fn joined(base: Seq<u8>, p: Seq<u8>) -> Seq<u8> {
    if absolute(p) || base.len() == 0 {
        p
    } else if base.last() == SLASH {
        base + p
    } else {
        base.push(SLASH) + p
    }
}

/// `base` with each of `names` joined on, in order.
pub open spec fn joined_all(base: Seq<u8>, names: Seq<Seq<u8>>) -> Seq<u8>
    decreases names.len(),
{
    if names.len() == 0 {
        base
    } else {
        joined(joined_all(base, names.drop_last()), names.last())
    }
}

/// The last component of a path, where it is a name.
pub open spec fn final_name(p: Seq<u8>) -> Option<Seq<u8>> {
    let parts = components_of(p);
    if parts.len() == 0 || parts.last() == root() || parts.last() == here() || parts.last()
        == above() {
        None
    } else {
        Some(parts.last())
    }
}

/// The shortest prefix of `p`, from length `n` on, that has the components `parts`; `p` where
/// there is none.
pub open spec fn shortest_prefix(p: Seq<u8>, parts: Seq<Seq<u8>>, n: int) -> Seq<u8>
    decreases p.len() - n,
{
    if n >= p.len() || components_of(p.take(n)) == parts {
        p.take(n)
    } else {
        shortest_prefix(p, parts, n + 1)
    }
}

/// The path without its last component; the root and the empty path have none.
pub open spec fn parent_of(p: Seq<u8>) -> Option<Seq<u8>> {
    let parts = components_of(p);
    if parts.len() == 0 || parts.last() == root() {
        None
    } else {
        Some(shortest_prefix(p, parts.drop_last(), 0))
    }
}

/// Whether `p` is `base` or lies below it, component by component.
pub open spec fn within(p: Seq<u8>, base: Seq<u8>) -> bool {
    components_of(base).is_prefix_of(components_of(p))
}

proof fn lemma_kept_push(pieces: Seq<Seq<u8>>, piece: Seq<u8>)
    ensures
        kept(pieces.push(piece)) == if counts(piece) {
            kept(pieces).push(piece)
        } else {
            kept(pieces)
        },
{
    assert(pieces.push(piece).drop_last() =~= pieces);
}

/// A last piece adds a component if it counts as one.
proof fn lemma_components_last(b: Seq<u8>, t: Seq<u8>)
    requires
        !t.contains(SLASH),
    ensures
        components_of(b.push(SLASH) + t) == if counts(t) {
            components_of(b.push(SLASH)).push(t)
        } else {
            components_of(b.push(SLASH))
        },
{
    let none = Seq::<u8>::empty();
    let p = b.push(SLASH) + t;
    let q = b.push(SLASH) + none;
    assert(q =~= b.push(SLASH));
    text::lemma_split_append(b, SLASH, t);
    text::lemma_split_append(b, SLASH, none);
    text::lemma_split_pieces(b, SLASH);
    let pieces = text::split(b, SLASH);
    assert(pieces.push(t).skip(1) =~= pieces.skip(1).push(t));
    assert(pieces.push(none).skip(1) =~= pieces.skip(1).push(none));
    lemma_kept_push(pieces.skip(1), t);
    lemma_kept_push(pieces.skip(1), none);
    assert(!counts(none));
    assert(p[0] == q[0]);
    assert(pieces.push(t)[0] == pieces[0]);
    assert(pieces.push(none)[0] == pieces[0]);
    let k = kept(pieces.skip(1));
    assert(seq![root()] + k.push(t) =~= (seq![root()] + k).push(t));
    assert(seq![pieces[0]] + k.push(t) =~= (seq![pieces[0]] + k).push(t));
}

/// A slash at the end changes no component.
proof fn lemma_components_trailing(b: Seq<u8>)
    requires
        b.len() > 0,
    ensures
        components_of(b.push(SLASH)) == components_of(b),
{
    let none = Seq::<u8>::empty();
    assert(b.push(SLASH) + none =~= b.push(SLASH));
    text::lemma_split_append(b, SLASH, none);
    text::lemma_split_pieces(b, SLASH);
    let pieces = text::split(b, SLASH);
    assert(pieces.push(none).skip(1) =~= pieces.skip(1).push(none));
    lemma_kept_push(pieces.skip(1), none);
    assert(pieces.push(none)[0] == pieces[0]);
    assert(b.push(SLASH)[0] == b[0]);
}

/// Joining a name on adds it as the last component.
pub proof fn joining_adds_a_component(base: Seq<u8>, name: Seq<u8>)
    requires
        !name.contains(SLASH),
        counts(name),
    ensures
        components_of(joined(base, name)) == components_of(base).push(name),
{
    assert(!absolute(name)) by {
        if absolute(name) {
            assert(name[0] == SLASH);
        }
    }
    if base.len() == 0 {
        text::lemma_split_whole(name, SLASH);
        let pieces = seq![name];
        assert(pieces.skip(1) =~= Seq::<Seq<u8>>::empty());
        assert(components_of(name) =~= components_of(base).push(name));
    } else if base.last() == SLASH {
        let b = base.drop_last();
        assert(b.push(SLASH) =~= base);
        lemma_components_last(b, name);
    } else {
        lemma_components_last(base, name);
        lemma_components_trailing(base);
    }
}

/// Joining names on, one after the other, adds them as the last components.
pub proof fn joining_adds_components(base: Seq<u8>, names: Seq<Seq<u8>>)
    requires
        forall|i: int|
            0 <= i < names.len() ==> !(#[trigger] names[i]).contains(SLASH) && counts(names[i]),
    ensures
        components_of(joined_all(base, names)) == components_of(base) + names,
    decreases names.len(),
{
    if names.len() == 0 {
        assert(components_of(base) + names =~= components_of(base));
    } else {
        let init = names.drop_last();
        assert forall|i: int| 0 <= i < init.len() implies !(#[trigger] init[i]).contains(SLASH)
            && counts(init[i]) by {
            assert(init[i] == names[i]);
        }
        joining_adds_components(base, init);
        assert(names.last() == names[names.len() - 1]);
        joining_adds_a_component(joined_all(base, init), names.last());
        assert(components_of(base) + names =~= (components_of(base) + init).push(names.last()));
    }
}

proof fn lemma_kept_add(a: Seq<Seq<u8>>, b: Seq<Seq<u8>>)
    ensures
        kept(a + b) == kept(a) + kept(b),
    decreases b.len(),
{
    if b.len() == 0 {
        assert(a + b =~= a);
        assert(kept(a) + kept(b) =~= kept(a));
    } else {
        lemma_kept_add(a, b.drop_last());
        assert((a + b).drop_last() =~= a + b.drop_last());
        assert((a + b).last() == b.last());
        assert(kept(a + b) =~= kept(a) + kept(b));
    }
}

proof fn lemma_split_add(b: Seq<u8>, rel: Seq<u8>)
    ensures
        text::split(b.push(SLASH) + rel, SLASH) == text::split(b, SLASH) + text::split(rel, SLASH),
    decreases rel.len(),
{
    text::lemma_last_at(rel, SLASH);
    let k = text::last_at(rel, SLASH);
    if k < 0 {
        text::lemma_split_append(b, SLASH, rel);
        text::lemma_split_whole(rel, SLASH);
        assert(text::split(b, SLASH).push(rel) =~= text::split(b, SLASH) + seq![rel]);
    } else {
        let front = rel.take(k);
        let last = rel.skip(k + 1);
        assert(!last.contains(SLASH)) by {
            if last.contains(SLASH) {
                let i = choose|i: int| 0 <= i < last.len() && last[i] == SLASH;
                assert(rel[k + 1 + i] == SLASH);
            }
        }
        assert(rel =~= front.push(SLASH) + last);
        let whole = b.push(SLASH) + front;
        assert(b.push(SLASH) + rel =~= whole.push(SLASH) + last);
        lemma_split_add(b, front);
        text::lemma_split_append(whole, SLASH, last);
        text::lemma_split_append(front, SLASH, last);
        assert((text::split(b, SLASH) + text::split(front, SLASH)).push(last) =~= text::split(
            b,
            SLASH,
        ) + text::split(front, SLASH).push(last));
    }
}

proof fn lemma_components_prefix(b: Seq<u8>, rel: Seq<u8>)
    ensures
        components_of(b.push(SLASH)).is_prefix_of(components_of(b.push(SLASH) + rel)),
{
    let p = b.push(SLASH) + rel;
    lemma_split_add(b, rel);
    text::lemma_split_pieces(b, SLASH);
    let x = text::split(b, SLASH);
    let y = text::split(rel, SLASH);
    assert((x + y).skip(1) =~= x.skip(1) + y);
    lemma_kept_add(x.skip(1), y);
    let none = Seq::<u8>::empty();
    text::lemma_split_append(b, SLASH, none);
    assert(b.push(SLASH) + none =~= b.push(SLASH));
    assert(x.push(none).skip(1) =~= x.skip(1).push(none));
    lemma_kept_push(x.skip(1), none);
    assert(p[0] == b.push(SLASH)[0]);
    let head = components_of(b.push(SLASH))[0];
    assert(components_of(b.push(SLASH)) =~= seq![head] + kept(x.skip(1)));
    assert(components_of(p) =~= seq![head] + (kept(x.skip(1)) + kept(y)));
    assert(components_of(p).subrange(0, components_of(b.push(SLASH)).len() as int)
        =~= components_of(b.push(SLASH)));
}

/// What goes on behind a path with a slash lies in it, component by component.
pub proof fn going_on_stays_within(base: Seq<u8>, rest: Seq<u8>)
    requires
        base.len() > 0,
    ensures
        within(base.push(SLASH) + rest, base),
{
    lemma_components_prefix(base, rest);
    lemma_components_trailing(base);
}

/// What is joined on to a directory, and is not absolute, lies in it, component by component.
pub proof fn joining_stays_within(base: Seq<u8>, rel: Seq<u8>)
    requires
        base.len() > 0,
        !absolute(rel),
    ensures
        within(joined(base, rel), base),
{
    if base.last() == SLASH {
        let b = base.drop_last();
        assert(b.push(SLASH) =~= base);
        lemma_components_prefix(b, rel);
    } else {
        going_on_stays_within(base, rel);
    }
}

/// No component holds a slash but the root.
proof fn lemma_components_plain(p: Seq<u8>)
    ensures
        forall|i: int|
            0 <= i < components_of(p).len() && components_of(p)[i] != root() ==> !(
            #[trigger] components_of(p)[i]).contains(SLASH),
        forall|i: int| 0 <= i < components_of(p).len() ==> (#[trigger] components_of(p)[i]).len() > 0,
{
    if p.len() > 0 {
        let pieces = text::split(p, SLASH);
        text::lemma_split_pieces(p, SLASH);
        lemma_kept_from(pieces.skip(1));
        let tail = kept(pieces.skip(1));
        let all = components_of(p);
        assert(!absolute(p) ==> pieces[0].len() > 0) by {
            if !absolute(p) {
                text::lemma_first_at(p, SLASH);
                let k = text::first_at(p, SLASH);
                assert(k > 0);
                if k < p.len() {
                    assert(pieces[0] == p.take(k));
                } else {
                    assert(pieces[0] == p);
                }
            }
        }
        assert forall|i: int| 0 <= i < all.len() implies (all[i] != root()
            ==> !(#[trigger] all[i]).contains(SLASH)) && all[i].len() > 0 by {
            if i > 0 {
                assert(all[i] == tail[i - 1]);
                assert(pieces.skip(1).contains(tail[i - 1]));
                let k = choose|k: int| 0 <= k < pieces.skip(1).len() && pieces.skip(1)[k] == tail[i - 1];
                assert(pieces[k + 1] == tail[i - 1]);
            } else if !absolute(p) {
                assert(all[0] == pieces[0]);
            }
        }
    }
}

proof fn lemma_kept_from(pieces: Seq<Seq<u8>>)
    ensures
        forall|i: int| 0 <= i < kept(pieces).len() ==> counts(#[trigger] kept(pieces)[i])
            && pieces.contains(kept(pieces)[i]),
    decreases pieces.len(),
{
    if pieces.len() > 0 {
        let init = pieces.drop_last();
        lemma_kept_from(init);
        assert forall|i: int| 0 <= i < kept(pieces).len() implies counts(#[trigger] kept(pieces)[i])
            && pieces.contains(kept(pieces)[i]) by {
            if i < kept(init).len() {
                assert(kept(pieces)[i] == kept(init)[i]);
                let k = choose|k: int| 0 <= k < init.len() && init[k] == kept(init)[i];
                assert(pieces[k] == kept(init)[i]);
            } else {
                assert(kept(pieces)[i] == pieces.last());
                assert(pieces[pieces.len() - 1] == pieces.last());
            }
        }
    }
}

/// A final name is a plain component: no slash in it, and neither `.` nor `..`.
pub proof fn final_names_are_plain(p: Seq<u8>)
    ensures
        final_name(p) matches Some(name) ==> !name.contains(SLASH) && counts(name) && name
            != above(),
{
    lemma_components_plain(p);
    let parts = components_of(p);
    if parts.len() > 0 {
        assert(parts.last() == parts[parts.len() - 1]);
    }
}

/// Some proper prefix of a path with a parent has all its components but the last.
proof fn lemma_parent_exists(p: Seq<u8>) -> (n: int)
    requires
        components_of(p).len() > 0,
        components_of(p).last() != root(),
    ensures
        0 <= n < p.len(),
        components_of(p.take(n)) == components_of(p).drop_last(),
    decreases p.len(),
{
    text::lemma_last_at(p, SLASH);
    let k = text::last_at(p, SLASH);
    if k < 0 {
        text::lemma_split_whole(p, SLASH);
        assert(seq![p].skip(1) =~= Seq::<Seq<u8>>::empty());
        assert(!absolute(p)) by {
            if absolute(p) {
                assert(p[0] == SLASH);
            }
        }
        assert(components_of(p) =~= seq![p]);
        assert(components_of(p.take(0)) =~= components_of(p).drop_last());
        0
    } else {
        let b = p.take(k);
        let t = p.skip(k + 1);
        assert(!t.contains(SLASH)) by {
            if t.contains(SLASH) {
                let i = choose|i: int| 0 <= i < t.len() && t[i] == SLASH;
                assert(p[k + 1 + i] == SLASH);
            }
        }
        let a = b.push(SLASH);
        assert(a + t =~= p);
        assert(a =~= p.take(k + 1));
        lemma_components_last(b, t);
        if counts(t) {
            assert(components_of(a).push(t).drop_last() =~= components_of(a));
            k + 1
        } else {
            if b.len() == 0 {
                let none = Seq::<u8>::empty();
                text::lemma_split_append(none, SLASH, none);
                text::lemma_split_whole(none, SLASH);
                assert(a =~= none.push(SLASH) + none);
                let pieces = text::split(a, SLASH);
                assert(pieces =~= seq![none].push(none));
                assert(pieces.skip(1) =~= seq![none]);
                lemma_kept_push(Seq::empty(), none);
                assert(seq![none] =~= Seq::<Seq<u8>>::empty().push(none));
                assert(kept(pieces.skip(1)) =~= Seq::<Seq<u8>>::empty());
                assert(components_of(p) =~= seq![root()]);
                assert(false);
            }
            lemma_components_trailing(b);
            let n = lemma_parent_exists(b);
            assert(b.take(n) =~= p.take(n));
            n
        }
    }
}

proof fn lemma_shortest_prefix(p: Seq<u8>, parts: Seq<Seq<u8>>, n: int, m: int)
    requires
        0 <= n <= m < p.len(),
        components_of(p.take(m)) == parts,
    ensures
        components_of(shortest_prefix(p, parts, n)) == parts,
        shortest_prefix(p, parts, n).len() <= m,
        shortest_prefix(p, parts, n).is_prefix_of(p),
    decreases m - n,
{
    if components_of(p.take(n)) != parts {
        lemma_shortest_prefix(p, parts, n + 1, m);
    }
}

/// The parent of a path is a proper prefix of it, with all its components but the last.
pub proof fn parent_drops_the_last_component(p: Seq<u8>)
    ensures
        parent_of(p) matches Some(q) ==> q.len() < p.len() && q.is_prefix_of(p) && components_of(q)
            == components_of(p).drop_last(),
{
    if parent_of(p) is Some {
        let m = lemma_parent_exists(p);
        lemma_shortest_prefix(p, components_of(p).drop_last(), 0, m);
    }
}

/// What a text without leading slashes encodes is no absolute path.
pub proof fn lemma_relative(s: Seq<char>)
    requires
        s.len() == 0 || s[0] != '/',
    ensures
        !absolute(vstd::utf8::encode_utf8(s)),
{
    let bytes = vstd::utf8::encode_utf8(s);
    if absolute(bytes) {
        if s.len() == 0 {
            assert(bytes.len() == 0);
        } else {
            vstd::utf8::encode_utf8_valid_utf8(s);
            vstd::utf8::encode_utf8_decode_utf8(s);
            assert(bytes[0] == 47);
            assert(vstd::utf8::is_leading_byte_width_1(bytes[0])) by {
                assert(0x00u8 <= 47u8 <= 0x7fu8);
            }
            let first = vstd::utf8::decode_first_scalar(bytes) as char;
            assert(vstd::utf8::decode_utf8(bytes)[0] == first);
            assert(vstd::utf8::codepoint_width_1(47u8) == 47u32) by (bit_vector);
            assert(first == '/');
        }
    }
}

/// What lies in something lies in all that it lies in.
pub proof fn within_is_transitive(a: Seq<u8>, b: Seq<u8>, c: Seq<u8>)
    requires
        within(a, b),
        within(b, c),
    ensures
        within(a, c),
{
    let x = components_of(a);
    let y = components_of(b);
    let z = components_of(c);
    assert(x.subrange(0, y.len() as int) =~= y);
    assert(y.subrange(0, z.len() as int) =~= z);
    assert(x.subrange(0, z.len() as int) =~= z) by {
        assert forall|i: int| 0 <= i < z.len() implies x[i] == z[i] by {
            assert(x.subrange(0, y.len() as int)[i] == y[i]);
            assert(y.subrange(0, z.len() as int)[i] == z[i]);
        }
    }
}

/// The bytes from `from` up to `to`.
fn bytes_between(bytes: &Vec<u8>, from: usize, to: usize) -> (r: OsText)
    requires
        from <= to <= bytes@.len(),
    ensures
        r@ == bytes@.subrange(from as int, to as int),
{
    let mut out: Vec<u8> = Vec::new();
    let mut i: usize = from;
    while i < to
        invariant
            from <= i <= to <= bytes@.len(),
            out@ == bytes@.subrange(from as int, i as int),
        decreases to - i,
    {
        out.push(bytes[i]);
        i = i + 1;
    }
    OsText::from_bytes(out)
}

proof fn lemma_os_views_push(list: Seq<OsText>, t: OsText)
    ensures
        os_text::os_views(list.push(t)) == os_text::os_views(list).push(t@),
{
    assert(os_text::os_views(list.push(t)) =~= os_text::os_views(list).push(t@));
}

/// The pieces of a byte string between the separators `c`.
pub fn split_bytes(s: &OsText, c: u8) -> (r: Vec<OsText>)
    ensures
        os_text::os_views(r@) == text::split(s@, c),
{
    let bytes = s.as_bytes();
    let mut out: Vec<OsText> = Vec::new();
    let mut start: usize = 0;
    let mut i: usize = 0;
    assert(s@.skip(0) =~= s@);
    assert(os_text::os_views(out@) + text::split(s@, c) =~= text::split(s@, c));
    while i < bytes.len()
        invariant
            bytes@ == s@,
            start <= i <= bytes@.len(),
            forall|k: int| start <= k < i ==> bytes@[k] != c,
            os_text::os_views(out@) + text::split(s@.skip(start as int), c) == text::split(s@, c),
        decreases bytes@.len() - i,
    {
        if bytes[i] == c {
            let piece = bytes_between(bytes, start, i);
            proof {
                let rest = s@.skip(start as int);
                assert(rest[i - start] == c);
                text::lemma_first_at_is(rest, c, i - start);
                assert(rest.take(i - start) =~= piece@);
                assert(rest.skip(i - start + 1) =~= s@.skip(i + 1));
                lemma_os_views_push(out@, piece);
                assert(os_text::os_views(out@) + text::split(rest, c) =~= os_text::os_views(
                    out@,
                ).push(piece@) + text::split(s@.skip(i + 1), c));
            }
            out.push(piece);
            start = i + 1;
        }
        i = i + 1;
    }
    let piece = bytes_between(bytes, start, bytes.len());
    proof {
        let rest = s@.skip(start as int);
        assert(rest =~= piece@);
        assert(!rest.contains(c)) by {
            if rest.contains(c) {
                let k = choose|k: int| 0 <= k < rest.len() && rest[k] == c;
                assert(bytes@[start + k] == c);
            }
        }
        text::lemma_split_whole(rest, c);
        lemma_os_views_push(out@, piece);
        assert(os_text::os_views(out@) + text::split(rest, c) =~= os_text::os_views(out@).push(
            piece@,
        ));
    }
    out.push(piece);
    out
}

/// Whether a path starts at the root.
pub fn is_absolute(p: &OsText) -> (r: bool)
    ensures
        r == absolute(p@),
{
    let bytes = p.as_bytes();
    bytes.len() > 0 && bytes[0] == SLASH
}

fn does_count(piece: &OsText) -> (r: bool)
    ensures
        r == counts(piece@),
{
    let bytes = piece.as_bytes();
    assert(bytes@.len() == 1 && bytes@[0] == DOT ==> bytes@ =~= here());
    bytes.len() > 0 && !(bytes.len() == 1 && bytes[0] == DOT)
}

/// The components of a path.
pub fn components(p: &OsText) -> (r: Vec<OsText>)
    ensures
        os_text::os_views(r@) == components_of(p@),
{
    let mut out: Vec<OsText> = Vec::new();
    if p.as_bytes().len() == 0 {
        assert(os_text::os_views(out@) =~= components_of(p@));
        return out;
    }
    let pieces = split_bytes(p, SLASH);
    let ghost all = os_text::os_views(pieces@);
    proof {
        text::lemma_split_pieces(p@, SLASH);
    }
    assert(all[0] == pieces@[0]@);
    let first = if is_absolute(p) {
        let mut slash: Vec<u8> = Vec::new();
        slash.push(SLASH);
        assert(slash@ =~= root());
        OsText::from_bytes(slash)
    } else {
        pieces[0].clone()
    };
    let ghost head = seq![first@];
    out.push(first);
    assert(os_text::os_views(out@) =~= head + kept(all.skip(1).take(0)));
    for i in 1..pieces.len()
        invariant
            all == os_text::os_views(pieces@),
            pieces@.len() >= 1,
            os_text::os_views(out@) == head + kept(all.skip(1).take(i - 1)),
    {
        proof {
            let rest = all.skip(1);
            assert(rest.take(i as int) =~= rest.take(i - 1).push(pieces@[i as int]@));
            lemma_kept_push(rest.take(i - 1), pieces@[i as int]@);
            let k = kept(rest.take(i - 1));
            assert(head + k.push(pieces@[i as int]@) =~= (head + k).push(pieces@[i as int]@));
        }
        if does_count(&pieces[i]) {
            let piece = pieces[i].clone();
            proof {
                lemma_os_views_push(out@, piece);
            }
            out.push(piece);
        }
    }
    assert(all.skip(1).take(pieces@.len() - 1) =~= all.skip(1));
    out
}

/// `p` seen from the directory `base`.
pub fn join(base: &OsText, p: &OsText) -> (r: OsText)
    ensures
        r@ == joined(base@, p@),
{
    let b = base.as_bytes();
    let tail = p.as_bytes();
    if is_absolute(p) || b.len() == 0 {
        return p.clone();
    }
    let mut out: Vec<u8> = base.clone().into_bytes();
    if b[b.len() - 1] != SLASH {
        out.push(SLASH);
    }
    let ghost start = out@;
    for i in 0..tail.len()
        invariant
            tail@ == p@,
            out@ == start + p@.take(i as int),
    {
        assert(start + p@.take(i + 1) =~= (start + p@.take(i as int)).push(p@[i as int]));
        out.push(tail[i]);
    }
    assert(p@.take(p@.len() as int) =~= p@);
    OsText::from_bytes(out)
}

/// The file or directory that a text names, seen from the directory `base`.
pub fn join_text(base: &OsText, p: &str) -> (r: OsText)
    ensures
        r@ == joined(base@, encode_utf8(p@)),
{
    join(base, &OsText::from_text(p))
}

/// The last component of a path, where it is a name.
pub fn file_name(p: &OsText) -> (r: Option<OsText>)
    ensures
        r is Some <==> final_name(p@) is Some,
        r matches Some(name) ==> final_name(p@) == Some(name@),
{
    let parts = components(p);
    if parts.len() == 0 {
        return None;
    }
    let last = parts[parts.len() - 1].clone();
    let bytes = last.as_bytes();
    assert(components_of(p@).last() == last@);
    assert(bytes@.len() == 1 && bytes@[0] == SLASH ==> bytes@ =~= root());
    assert(bytes@.len() == 1 && bytes@[0] == DOT ==> bytes@ =~= here());
    assert(bytes@.len() == 2 && bytes@[0] == DOT && bytes@[1] == DOT ==> bytes@ =~= above());
    if bytes.len() == 1 && (bytes[0] == SLASH || bytes[0] == DOT) {
        return None;
    }
    if bytes.len() == 2 && bytes[0] == DOT && bytes[1] == DOT {
        return None;
    }
    Some(last)
}

fn same_parts(a: &Vec<OsText>, b: &Vec<OsText>, n: usize) -> (r: bool)
    requires
        n <= b@.len(),
    ensures
        r == (os_text::os_views(a@) == os_text::os_views(b@).take(n as int)),
{
    let ghost x = os_text::os_views(a@);
    let ghost y = os_text::os_views(b@).take(n as int);
    if a.len() != n {
        assert(x.len() != y.len());
        return false;
    }
    for i in 0..n
        invariant
            n <= b@.len(),
            a@.len() == n,
            x == os_text::os_views(a@),
            y == os_text::os_views(b@).take(n as int),
            forall|k: int| 0 <= k < i ==> a@[k]@ == b@[k]@,
    {
        if !a[i].same(&b[i]) {
            assert(x[i as int] != y[i as int]);
            return false;
        }
    }
    assert(x =~= y);
    true
}

/// The path without its last component.
pub fn parent(p: &OsText) -> (r: Option<OsText>)
    ensures
        r is Some <==> parent_of(p@) is Some,
        r matches Some(q) ==> parent_of(p@) == Some(q@),
{
    let parts = components(p);
    if parts.len() == 0 {
        return None;
    }
    let last = parts[parts.len() - 1].as_bytes();
    assert(components_of(p@).last() == last@);
    assert(last@.len() == 1 && last@[0] == SLASH ==> last@ =~= root());
    if last.len() == 1 && last[0] == SLASH {
        return None;
    }
    let bytes = p.as_bytes();
    let ghost wanted = components_of(p@).drop_last();
    assert(wanted =~= os_text::os_views(parts@).take(parts@.len() - 1));
    let mut n: usize = 0;
    while n < bytes.len()
        invariant
            bytes@ == p@,
            n <= bytes@.len(),
            parts@.len() >= 1,
            wanted == os_text::os_views(parts@).take(parts@.len() - 1),
            parent_of(p@) == Some(shortest_prefix(p@, wanted, 0)),
            shortest_prefix(p@, wanted, 0) == shortest_prefix(p@, wanted, n as int),
        decreases bytes@.len() - n,
    {
        let front = bytes_between(bytes, 0, n);
        assert(front@ =~= p@.take(n as int));
        if same_parts(&components(&front), &parts, parts.len() - 1) {
            return Some(front);
        }
        n = n + 1;
    }
    assert(p@.take(n as int) =~= p@);
    Some(p.clone())
}

/// Whether `p` is `base` or lies below it, component by component.
pub fn starts_with(p: &OsText, base: &OsText) -> (r: bool)
    ensures
        r == within(p@, base@),
{
    let a = components(p);
    let b = components(base);
    assert(within(p@, base@) <==> b@.len() <= a@.len() && components_of(base@)
        =~= components_of(p@).take(b@.len() as int));
    b.len() <= a.len() && same_parts(&b, &a, b.len())
}

/// Behind a path and a slash, the components go on with those of what follows.
pub proof fn components_go_on(a: Seq<u8>, b: Seq<u8>)
    requires
        a.len() > 0,
    ensures
        components_of(a.push(SLASH) + b) == components_of(a) + components_of(
            seq![SLASH] + b,
        ).skip(1),
{
    let p = a.push(SLASH) + b;
    let none = Seq::<u8>::empty();
    let x = text::split(a, SLASH);
    let y = text::split(b, SLASH);
    text::lemma_split_pieces(a, SLASH);
    lemma_split_add(a, b);
    assert((x + y).skip(1) =~= x.skip(1) + y);
    lemma_kept_add(x.skip(1), y);
    lemma_split_add(none, b);
    text::lemma_split_whole(none, SLASH);
    assert(none.push(SLASH) + b =~= seq![SLASH] + b);
    assert((seq![none] + y).skip(1) =~= y);
    assert(components_of(seq![SLASH] + b).skip(1) =~= kept(y));
    assert(p[0] == a[0]);
    let head = components_of(a)[0];
    assert(components_of(a) =~= seq![head] + kept(x.skip(1)));
    assert(components_of(p) =~= seq![head] + (kept(x.skip(1)) + kept(y)));
    assert(components_of(p) =~= components_of(a) + kept(y));
}

/// A name without slashes is its own only component; an absolute path begins with the root, and an
/// empty one has no components.
pub proof fn names_are_components(name: Seq<u8>)
    requires
        !name.contains(SLASH),
        name.len() > 0,
    ensures
        components_of(name) == seq![name],
        components_of(seq![SLASH] + name) == (if name == seq![DOT] {
            seq![seq![SLASH]]
        } else {
            seq![seq![SLASH], name]
        }),
        components_of(seq![SLASH]) == seq![seq![SLASH]],
        components_of(Seq::empty()) == Seq::<Seq<u8>>::empty(),
{
    let none = Seq::<u8>::empty();
    text::lemma_split_whole(name, SLASH);
    text::lemma_split_whole(none, SLASH);
    assert(!absolute(name));
    assert(seq![name].skip(1) =~= seq![]);
    assert(kept(seq![]) =~= seq![]);
    assert(components_of(name) =~= seq![name]);
    text::lemma_split_append(none, SLASH, name);
    assert(none.push(SLASH) + name =~= seq![SLASH] + name);
    assert(seq![none].push(name).skip(1) =~= seq![name]);
    assert(seq![name].drop_last() =~= seq![]);
    assert(seq![name].last() == name);
    text::lemma_split_append(none, SLASH, none);
    assert(none.push(SLASH) + none =~= seq![SLASH]);
    assert(seq![none].push(none).skip(1) =~= seq![none]);
    assert(seq![none].drop_last() =~= seq![]);
    assert(seq![none].last() == none);
    assert(kept(seq![none]) =~= seq![]);
    assert(components_of(seq![SLASH]) =~= seq![seq![SLASH]]);
    if name == here() {
        assert(kept(seq![name]) =~= seq![]);
        assert(components_of(seq![SLASH] + name) =~= seq![seq![SLASH]]);
    } else {
        assert(kept(seq![name]) =~= seq![name]);
        assert(components_of(seq![SLASH] + name) =~= seq![seq![SLASH], name]);
    }
}

/// Joining puts a relative path behind a directory, with one slash between them; an absolute one
/// stays as it is.
pub proof fn joining_puts_one_slash_between(base: Seq<u8>, p: Seq<u8>)
    ensures
        p.len() > 0 && p[0] == 47u8 ==> joined(base, p) == p,
        base.len() == 0 ==> joined(base, p) == p,
        base.len() > 0 && base.last() != 47u8 && !(p.len() > 0 && p[0] == 47u8) ==> joined(base, p)
            == base + seq![47u8] + p,
        base.len() > 0 && base.last() == 47u8 && !(p.len() > 0 && p[0] == 47u8) ==> joined(base, p)
            == base + p,
{
    assert(base.push(SLASH) + p =~= base + seq![47u8] + p);
}

/// Joining names one after the other.
pub proof fn joining_goes_name_by_name(base: Seq<u8>, names: Seq<Seq<u8>>, name: Seq<u8>)
    ensures
        joined_all(base, Seq::empty()) == base,
        joined_all(base, names.push(name)) == joined(joined_all(base, names), name),
{
    assert(names.push(name).drop_last() =~= names);
}

/// A path has a parent unless it is empty or ends at the root; it has a final name unless it is
/// empty or ends at the root or with a dot or two.
pub proof fn ends_of_paths(p: Seq<u8>)
    ensures
        parent_of(p) is Some <==> components_of(p).len() > 0 && components_of(p).last() != seq![
            47u8,
        ],
        final_name(p) is Some <==> components_of(p).len() > 0 && components_of(p).last() != seq![
            47u8,
        ] && components_of(p).last() != seq![46u8] && components_of(p).last() != seq![46u8, 46u8],
        final_name(p) matches Some(name) ==> name == components_of(p).last(),
{
}

/// A path lies in another if, and only if, it has the components of that at its front. So each lies
/// in the other only where both have the same.
pub proof fn paths_lie_in_what_they_begin_with(p: Seq<u8>, base: Seq<u8>, i: int)
    ensures
        within(p, base) ==> components_of(base).len() <= components_of(p).len(),
        within(p, base) && 0 <= i < components_of(base).len() ==> components_of(p)[i]
            == components_of(base)[i],
        within(p, base) && within(base, p) ==> components_of(p) == components_of(base),
        within(p, p),
        (exists|more: Seq<Seq<u8>>| components_of(p) == #[trigger] (components_of(base) + more))
            ==> within(p, base),
{
    let a = components_of(p);
    let b = components_of(base);
    assert(a.subrange(0, a.len() as int) =~= a);
    if within(p, base) {
        if 0 <= i < b.len() {
            assert(a.subrange(0, b.len() as int)[i] == a[i]);
        }
        if within(base, p) {
            assert(b.subrange(0, b.len() as int) =~= b);
        }
    }
    if exists|more: Seq<Seq<u8>>| a == #[trigger] (b + more) {
        let more = choose|more: Seq<Seq<u8>>| a == #[trigger] (b + more);
        assert(a.subrange(0, b.len() as int) =~= b);
    }
}

proof fn lemma_none_shorter(p: Seq<u8>, parts: Seq<Seq<u8>>, n: int, m: int)
    requires
        0 <= n <= m < shortest_prefix(p, parts, n).len(),
        n <= p.len(),
    ensures
        components_of(p.take(m)) != parts,
    decreases p.len() - n,
{
    if n < p.len() && components_of(p.take(n)) != parts && n < m {
        lemma_none_shorter(p, parts, n + 1, m);
    }
}

/// The parent of a path is written as short as can be: nothing shorter at the front of the path has
/// the same components. So it has no slash or dot at its end that does not matter.
pub proof fn parents_are_written_short(p: Seq<u8>, m: int)
    ensures
        parent_of(p) matches Some(q) ==> (0 <= m < q.len() ==> components_of(p.take(m))
            != components_of(q)),
{
    if let Some(q) = parent_of(p) {
        parent_drops_the_last_component(p);
        if 0 <= m < q.len() {
            lemma_none_shorter(p, components_of(p).drop_last(), 0, m);
        }
    }
}

} // verus!
