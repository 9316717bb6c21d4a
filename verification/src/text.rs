//! Strings: searching, splitting, joining and trimming, over the sequence of characters that a
//! string holds.
use vstd::prelude::*;

verus! {

/// `String::push`: the given character is appended to the end of the string.
pub assume_specification[ String::push ](s: &mut String, ch: char)
    ensures
        final(s)@ == old(s)@.push(ch),
;

/// Position of the first `c` in `s`; the length of `s` where there is none.
pub open spec fn first_at<T>(s: Seq<T>, c: T) -> int
    decreases s.len(),
{
    if s.len() == 0 || s[0] == c {
        0
    } else {
        1 + first_at(s.drop_first(), c)
    }
}

/// Position of the last `c` in `s`; -1 where there is none.
pub open spec fn last_at<T>(s: Seq<T>, c: T) -> int
    decreases s.len(),
{
    if s.len() == 0 {
        -1
    } else if s.last() == c {
        s.len() - 1
    } else {
        last_at(s.drop_last(), c)
    }
}

/// The pieces of `s` between the separators `c`: one more than there are separators.
pub open spec fn split<T>(s: Seq<T>, c: T) -> Seq<Seq<T>>
    decreases s.len(),
{
    let k = first_at(s, c);
    if 0 <= k < s.len() {
        seq![s.take(k)] + split(s.skip(k + 1), c)
    } else {
        seq![s]
    }
}

/// `parts` one after the other, with `sep` between neighbours.
pub open spec fn join<T>(parts: Seq<Seq<T>>, sep: Seq<T>) -> Seq<T>
    decreases parts.len(),
{
    if parts.len() == 0 {
        seq![]
    } else if parts.len() == 1 {
        parts[0]
    } else {
        join(parts.drop_last(), sep) + sep + parts.last()
    }
}

/// What the strings of a list hold.
pub open spec fn views(list: Seq<String>) -> Seq<Seq<char>> {
    list.map_values(|s: String| s@)
}

/// The Unicode property `White_Space`.
pub open spec fn white_space(c: char) -> bool {
    ||| '\u{9}' <= c <= '\u{d}'
    ||| c == ' '
    ||| c == '\u{85}'
    ||| c == '\u{a0}'
    ||| c == '\u{1680}'
    ||| '\u{2000}' <= c <= '\u{200a}'
    ||| c == '\u{2028}'
    ||| c == '\u{2029}'
    ||| c == '\u{202f}'
    ||| c == '\u{205f}'
    ||| c == '\u{3000}'
}

/// `s` without the white space in front.
pub open spec fn trimmed_start(s: Seq<char>) -> Seq<char>
    decreases s.len(),
{
    if s.len() > 0 && white_space(s[0]) {
        trimmed_start(s.drop_first())
    } else {
        s
    }
}

/// `s` without the white space at the end.
pub open spec fn trimmed_end(s: Seq<char>) -> Seq<char>
    decreases s.len(),
{
    if s.len() > 0 && white_space(s.last()) {
        trimmed_end(s.drop_last())
    } else {
        s
    }
}

/// `s` without the white space around it.
pub open spec fn trimmed(s: Seq<char>) -> Seq<char> {
    trimmed_end(trimmed_start(s))
}

/// A line without the carriage return that a line feed had before it.
pub open spec fn without_carriage_return(line: Seq<char>) -> Seq<char> {
    if line.len() > 0 && line.last() == '\r' {
        line.drop_last()
    } else {
        line
    }
}

/// The lines of `s`, each ended by a line feed; the last one need not be ended.
pub open spec fn lines_of(s: Seq<char>) -> Seq<Seq<char>>
    decreases s.len(),
{
    let k = first_at(s, '\n');
    if s.len() == 0 {
        seq![]
    } else if 0 <= k < s.len() {
        seq![without_carriage_return(s.take(k))] + lines_of(s.skip(k + 1))
    } else {
        seq![s]
    }
}

/// `s` without the characters `c` in front.
pub open spec fn without_leading<T>(s: Seq<T>, c: T) -> Seq<T>
    decreases s.len(),
{
    if s.len() > 0 && s[0] == c {
        without_leading(s.drop_first(), c)
    } else {
        s
    }
}

pub proof fn lemma_first_at<T>(s: Seq<T>, c: T)
    ensures
        0 <= first_at(s, c) <= s.len(),
        forall|i: int| 0 <= i < first_at(s, c) ==> s[i] != c,
        first_at(s, c) < s.len() ==> s[first_at(s, c)] == c,
        first_at(s, c) < s.len() <==> s.contains(c),
    decreases s.len(),
{
    if s.len() > 0 && s[0] != c {
        let t = s.drop_first();
        lemma_first_at(t, c);
        assert forall|i: int| 0 <= i < first_at(s, c) implies s[i] != c by {
            if i > 0 {
                assert(t[i - 1] == s[i]);
            }
        }
        if s.contains(c) {
            let i = choose|i: int| 0 <= i < s.len() && s[i] == c;
            assert(t[i - 1] == c);
        }
    } else if s.len() > 0 {
        assert(s[0] == c);
    }
}

/// A position with the first `c` is where `first_at` points.
pub proof fn lemma_first_at_is<T>(s: Seq<T>, c: T, k: int)
    requires
        0 <= k <= s.len(),
        forall|i: int| 0 <= i < k ==> s[i] != c,
        k < s.len() ==> s[k] == c,
    ensures
        first_at(s, c) == k,
{
    lemma_first_at(s, c);
}

pub proof fn lemma_last_at<T>(s: Seq<T>, c: T)
    ensures
        -1 <= last_at(s, c) < s.len(),
        forall|i: int| last_at(s, c) < i < s.len() ==> s[i] != c,
        0 <= last_at(s, c) ==> s[last_at(s, c)] == c,
        0 <= last_at(s, c) <==> s.contains(c),
    decreases s.len(),
{
    if s.len() > 0 && s.last() != c {
        let t = s.drop_last();
        lemma_last_at(t, c);
        assert forall|i: int| last_at(s, c) < i < s.len() implies s[i] != c by {
            if i < s.len() - 1 {
                assert(t[i] == s[i]);
            }
        }
        if s.contains(c) {
            let i = choose|i: int| 0 <= i < s.len() && s[i] == c;
            assert(t[i] == c);
        }
    }
}

pub proof fn lemma_views_push(list: Seq<String>, s: String)
    ensures
        views(list.push(s)) == views(list).push(s@),
{
    assert(views(list.push(s)) =~= views(list).push(s@));
}

/// Every piece of `s` is free of the separator, and there is at least one.
pub proof fn lemma_split_pieces<T>(s: Seq<T>, c: T)
    ensures
        split(s, c).len() >= 1,
        forall|i: int| 0 <= i < split(s, c).len() ==> !(#[trigger] split(s, c)[i]).contains(c),
    decreases s.len(),
{
    lemma_first_at(s, c);
    let k = first_at(s, c);
    if 0 <= k < s.len() {
        let rest = split(s.skip(k + 1), c);
        lemma_split_pieces(s.skip(k + 1), c);
        assert forall|i: int| 0 <= i < split(s, c).len() implies !(
        #[trigger] split(s, c)[i]).contains(c) by {
            if i == 0 {
                assert(split(s, c)[0] == s.take(k));
            } else {
                assert(split(s, c)[i] == rest[i - 1]);
            }
        }
    }
}

/// Splitting goes on behind the first separator.
pub proof fn lemma_split_at_separator<T>(a: Seq<T>, c: T, b: Seq<T>)
    requires
        !a.contains(c),
    ensures
        split(a.push(c) + b, c) == seq![a] + split(b, c),
{
    let s = a.push(c) + b;
    assert(s[a.len() as int] == c);
    assert forall|i: int| 0 <= i < a.len() implies s[i] != c by {
        assert(a[i] == s[i]);
    }
    lemma_first_at_is(s, c, a.len() as int);
    assert(s.take(a.len() as int) =~= a);
    assert(s.skip(a.len() as int + 1) =~= b);
}

/// Splitting what holds no separator gives back the whole.
pub proof fn lemma_split_whole<T>(s: Seq<T>, c: T)
    requires
        !s.contains(c),
    ensures
        split(s, c) == seq![s],
{
    lemma_first_at(s, c);
}

/// A separator behind `a` ends its last piece.
pub proof fn lemma_split_append<T>(a: Seq<T>, c: T, b: Seq<T>)
    requires
        !b.contains(c),
    ensures
        split(a.push(c) + b, c) == split(a, c).push(b),
    decreases a.len(),
{
    lemma_first_at(a, c);
    let k = first_at(a, c);
    if k < a.len() {
        let head = a.take(k);
        let tail = a.skip(k + 1);
        assert(!head.contains(c));
        assert(a.push(c) + b =~= head.push(c) + (tail.push(c) + b));
        lemma_split_at_separator(head, c, tail.push(c) + b);
        lemma_split_append(tail, c, b);
        assert(a =~= head.push(c) + tail);
        assert(split(a.push(c) + b, c) =~= split(a, c).push(b));
    } else {
        assert(!a.contains(c));
        lemma_split_at_separator(a, c, b);
        lemma_split_whole(b, c);
        lemma_split_whole(a, c);
        assert(split(a.push(c) + b, c) =~= split(a, c).push(b));
    }
}

/// Splitting undoes joining: where no part holds the separator and there is at least one part,
/// the pieces of the joined text are the parts.
pub proof fn split_undoes_join<T>(parts: Seq<Seq<T>>, c: T)
    requires
        parts.len() >= 1,
        forall|i: int| 0 <= i < parts.len() ==> !(#[trigger] parts[i]).contains(c),
    ensures
        split(join(parts, seq![c]), c) == parts,
    decreases parts.len(),
{
    if parts.len() == 1 {
        lemma_split_whole(parts[0], c);
        assert(parts =~= seq![parts[0]]);
    } else {
        let init = parts.drop_last();
        assert forall|i: int| 0 <= i < init.len() implies !(#[trigger] init[i]).contains(c) by {
            assert(init[i] == parts[i]);
        }
        split_undoes_join(init, c);
        let front = join(init, seq![c]);
        assert(front + seq![c] + parts.last() =~= front.push(c) + parts.last());
        lemma_split_append(front, c, parts.last());
        assert(parts =~= init.push(parts.last()));
    }
}

/// A part in front of a joined list, with the separator between them, is the first part of it.
pub proof fn lemma_join_front<T>(part: Seq<T>, parts: Seq<Seq<T>>, sep: Seq<T>)
    requires
        parts.len() >= 1,
    ensures
        join(seq![part] + parts, sep) == part + sep + join(parts, sep),
    decreases parts.len(),
{
    let all = seq![part] + parts;
    let init = parts.drop_last();
    assert(all.drop_last() =~= seq![part] + init);
    if init.len() == 0 {
        assert(all.drop_last() =~= seq![part]);
        assert(join(all.drop_last(), sep) == part);
    } else {
        lemma_join_front(part, init, sep);
        assert(part + sep + join(init, sep) + sep + parts.last() =~= part + sep + (join(init, sep)
            + sep + parts.last()));
    }
}

/// Two strings that hold the same characters have the same bytes, and the other way round.
pub proof fn lemma_same_bytes(a: Seq<char>, b: Seq<char>)
    ensures
        vstd::utf8::encode_utf8(a) == vstd::utf8::encode_utf8(b) <==> a == b,
{
    vstd::utf8::encode_utf8_decode_utf8(a);
    vstd::utf8::encode_utf8_decode_utf8(b);
}

pub fn bytes_equal(a: &[u8], b: &[u8]) -> (r: bool)
    ensures
        r == (a@ == b@),
{
    if a.len() != b.len() {
        return false;
    }
    for i in 0..a.len()
        invariant
            a@.len() == b@.len(),
            forall|k: int| 0 <= k < i ==> a@[k] == b@[k],
    {
        if a[i] != b[i] {
            return false;
        }
    }
    assert(a@ =~= b@);
    true
}

/// Whether two strings hold the same characters.
pub fn text_equal(a: &str, b: &str) -> (r: bool)
    ensures
        r == (a@ == b@),
{
    proof {
        lemma_same_bytes(a@, b@);
    }
    bytes_equal(a.as_bytes(), b.as_bytes())
}

/// The characters of a string.
pub fn chars_of(s: &str) -> (r: Vec<char>)
    ensures
        r@ == s@,
{
    let mut out: Vec<char> = Vec::new();
    for c in it: s.chars()
        invariant
            out@ == it.seq().take(it.index() as int),
            it.seq() == s@,
    {
        out.push(c);
    }
    out
}

/// The string of the characters from `from` up to `to`.
pub fn text_of(chars: &Vec<char>, from: usize, to: usize) -> (r: String)
    requires
        from <= to <= chars@.len(),
    ensures
        r@ == chars@.subrange(from as int, to as int),
{
    let mut out = String::new();
    let mut i: usize = from;
    while i < to
        invariant
            from <= i <= to <= chars@.len(),
            out@ == chars@.subrange(from as int, i as int),
        decreases to - i,
    {
        out.push(chars[i]);
        i = i + 1;
    }
    out
}

/// Whether `s` has the character `c`.
pub fn has_char(s: &str, c: char) -> (r: bool)
    ensures
        r == s@.contains(c),
{
    let chars = chars_of(s);
    for i in 0..chars.len()
        invariant
            chars@ == s@,
            forall|k: int| 0 <= k < i ==> chars@[k] != c,
    {
        if chars[i] == c {
            assert(s@[i as int] == c);
            return true;
        }
    }
    false
}

/// Whether `t` stands somewhere in `s`.
pub open spec fn holds(s: Seq<char>, t: Seq<char>) -> bool {
    exists|i: int|
        0 <= i <= s.len() - t.len() && #[trigger] s.subrange(i, i + t.len()) == t
}

fn chars_equal_at(s: &Vec<char>, t: &Vec<char>, from: usize) -> (r: bool)
    requires
        from + t@.len() <= s@.len(),
    ensures
        r == (s@.subrange(from as int, from + t@.len()) == t@),
{
    let len: usize = s.len();
    for k in 0..t.len()
        invariant
            from + t@.len() <= s@.len(),
            len == s@.len(),
            forall|j: int| 0 <= j < k ==> s@[from + j] == t@[j],
    {
        if s[from + k] != t[k] {
            assert(s@.subrange(from as int, from + t@.len())[k as int] != t@[k as int]);
            return false;
        }
    }
    assert(s@.subrange(from as int, from + t@.len()) =~= t@);
    true
}

/// Whether `t` stands somewhere in `s`.
pub fn has_part(s: &str, t: &str) -> (r: bool)
    ensures
        r == holds(s@, t@),
{
    let a = chars_of(s);
    let b = chars_of(t);
    if b.len() > a.len() {
        return false;
    }
    let last: usize = a.len() - b.len();
    for i in 0..last
        invariant
            a@ == s@,
            b@ == t@,
            last == a@.len() - b@.len(),
            forall|k: int| 0 <= k < i ==> #[trigger] a@.subrange(k, k + b@.len()) != b@,
    {
        if chars_equal_at(&a, &b, i) {
            return true;
        }
    }
    chars_equal_at(&a, &b, last)
}

/// Whether `s` starts with `prefix`.
pub fn starts_with(s: &str, prefix: &str) -> (r: bool)
    ensures
        r == prefix@.is_prefix_of(s@),
{
    let a = chars_of(s);
    let b = chars_of(prefix);
    if b.len() > a.len() {
        return false;
    }
    for i in 0..b.len()
        invariant
            a@ == s@,
            b@ == prefix@,
            b@.len() <= a@.len(),
            forall|k: int| 0 <= k < i ==> a@[k] == b@[k],
    {
        if a[i] != b[i] {
            assert(prefix@[i as int] != s@.subrange(0, prefix@.len() as int)[i as int]);
            return false;
        }
    }
    assert(prefix@ =~= s@.subrange(0, prefix@.len() as int));
    true
}

/// What follows `prefix` in `s`, where `s` starts with it.
pub fn strip_prefix(s: &str, prefix: &str) -> (r: Option<String>)
    ensures
        r is Some <==> prefix@.is_prefix_of(s@),
        r matches Some(rest) ==> rest@ == s@.skip(prefix@.len() as int),
{
    if starts_with(s, prefix) {
        let a = chars_of(s);
        let b = chars_of(prefix);
        Some(text_of(&a, b.len(), a.len()))
    } else {
        None
    }
}

/// The texts before and behind the first `c`.
pub fn split_once(s: &str, c: char) -> (r: Option<(String, String)>)
    ensures
        r is Some <==> s@.contains(c),
        r matches Some((a, b)) ==> a@ == s@.take(first_at(s@, c)) && b@ == s@.skip(
            first_at(s@, c) + 1,
        ),
{
    let chars = chars_of(s);
    for i in 0..chars.len()
        invariant
            chars@ == s@,
            forall|k: int| 0 <= k < i ==> chars@[k] != c,
    {
        if chars[i] == c {
            proof {
                lemma_first_at_is(s@, c, i as int);
            }
            assert(s@[i as int] == c);
            return Some((text_of(&chars, 0, i), text_of(&chars, i + 1, chars.len())));
        }
    }
    None
}

/// The texts before and behind the last `c`.
pub fn rsplit_once(s: &str, c: char) -> (r: Option<(String, String)>)
    ensures
        r is Some <==> s@.contains(c),
        r matches Some((a, b)) ==> a@ == s@.take(last_at(s@, c)) && b@ == s@.skip(
            last_at(s@, c) + 1,
        ),
{
    let chars = chars_of(s);
    let mut i: usize = chars.len();
    while i > 0
        invariant
            chars@ == s@,
            i <= chars@.len(),
            forall|k: int| i <= k < chars@.len() ==> chars@[k] != c,
        decreases i,
    {
        i = i - 1;
        if chars[i] == c {
            proof {
                lemma_last_at(s@, c);
            }
            assert(s@[i as int] == c);
            return Some((text_of(&chars, 0, i), text_of(&chars, i + 1, chars.len())));
        }
    }
    None
}

/// The pieces of `s` between the separators `c`.
pub fn split_text(s: &str, c: char) -> (r: Vec<String>)
    ensures
        views(r@) == split(s@, c),
{
    let chars = chars_of(s);
    let mut out: Vec<String> = Vec::new();
    let mut start: usize = 0;
    let mut i: usize = 0;
    assert(s@.skip(0) =~= s@);
    assert(views(out@) + split(s@, c) =~= split(s@, c));
    while i < chars.len()
        invariant
            chars@ == s@,
            start <= i <= chars@.len(),
            forall|k: int| start <= k < i ==> chars@[k] != c,
            views(out@) + split(s@.skip(start as int), c) == split(s@, c),
        decreases chars@.len() - i,
    {
        if chars[i] == c {
            let piece = text_of(&chars, start, i);
            proof {
                let rest = s@.skip(start as int);
                assert(rest[i - start] == c);
                lemma_first_at_is(rest, c, i - start);
                assert(rest.take(i - start) =~= piece@);
                assert(rest.skip(i - start + 1) =~= s@.skip(i + 1));
                lemma_views_push(out@, piece);
                assert(views(out@) + split(rest, c) =~= views(out@).push(piece@) + split(
                    s@.skip(i + 1),
                    c,
                ));
            }
            out.push(piece);
            start = i + 1;
        }
        i = i + 1;
    }
    let piece = text_of(&chars, start, chars.len());
    proof {
        let rest = s@.skip(start as int);
        assert(rest =~= piece@);
        assert(!rest.contains(c)) by {
            if rest.contains(c) {
                let k = choose|k: int| 0 <= k < rest.len() && rest[k] == c;
                assert(chars@[start + k] == c);
            }
        }
        lemma_split_whole(rest, c);
        lemma_views_push(out@, piece);
        assert(views(out@) + split(rest, c) =~= views(out@).push(piece@));
    }
    out.push(piece);
    out
}

/// The strings of a list with `sep` between neighbours.
pub fn join_texts(parts: &Vec<String>, sep: &str) -> (r: String)
    ensures
        r@ == join(views(parts@), sep@),
{
    let mut out = String::new();
    for i in 0..parts.len()
        invariant
            out@ == join(views(parts@).take(i as int), sep@),
    {
        proof {
            let done = views(parts@).take(i + 1);
            assert(done.drop_last() =~= views(parts@).take(i as int));
            assert(done.last() == parts@[i as int]@);
            if i == 0 {
                assert(out@ + parts@[0]@ =~= parts@[0]@);
            }
        }
        if i > 0 {
            out.append(sep);
        }
        out.append(parts[i].as_str());
    }
    assert(views(parts@).take(parts@.len() as int) =~= views(parts@));
    out
}

/// Whether `c` is white space.
pub fn is_white_space(c: char) -> (r: bool)
    ensures
        r == white_space(c),
{
    ('\u{9}' <= c && c <= '\u{d}') || c == ' ' || c == '\u{85}' || c == '\u{a0}' || c == '\u{1680}'
        || ('\u{2000}' <= c && c <= '\u{200a}') || c == '\u{2028}' || c == '\u{2029}' || c
        == '\u{202f}' || c == '\u{205f}' || c == '\u{3000}'
}

/// `s` without the white space around it.
pub fn trim(s: &str) -> (r: String)
    ensures
        r@ == trimmed(s@),
{
    let chars = chars_of(s);
    let mut from: usize = 0;
    assert(s@.skip(0) =~= s@);
    while from < chars.len() && is_white_space(chars[from])
        invariant
            chars@ == s@,
            from <= chars@.len(),
            trimmed_start(s@) == trimmed_start(s@.skip(from as int)),
        decreases chars@.len() - from,
    {
        assert(s@.skip(from as int).drop_first() =~= s@.skip(from + 1));
        from = from + 1;
    }
    let ghost body = s@.skip(from as int);
    assert(trimmed_start(s@) == body);
    let mut to: usize = chars.len();
    assert(s@.subrange(from as int, to as int) =~= body);
    while to > from && is_white_space(chars[to - 1])
        invariant
            chars@ == s@,
            from <= to <= chars@.len(),
            trimmed_end(body) == trimmed_end(s@.subrange(from as int, to as int)),
        decreases to,
    {
        assert(s@.subrange(from as int, to as int).drop_last() =~= s@.subrange(
            from as int,
            to - 1,
        ));
        to = to - 1;
    }
    text_of(&chars, from, to)
}

/// `s` without the characters `c` in front.
pub fn trim_leading(s: &str, c: char) -> (r: String)
    ensures
        r@ == without_leading(s@, c),
{
    let chars = chars_of(s);
    let mut from: usize = 0;
    assert(s@.skip(0) =~= s@);
    while from < chars.len() && chars[from] == c
        invariant
            chars@ == s@,
            from <= chars@.len(),
            without_leading(s@, c) == without_leading(s@.skip(from as int), c),
        decreases chars@.len() - from,
    {
        assert(s@.skip(from as int).drop_first() =~= s@.skip(from + 1));
        from = from + 1;
    }
    assert(s@.skip(from as int) =~= s@.subrange(from as int, s@.len() as int));
    text_of(&chars, from, chars.len())
}

/// The lines of `s`.
pub fn lines(s: &str) -> (r: Vec<String>)
    ensures
        views(r@) == lines_of(s@),
{
    let chars = chars_of(s);
    let mut out: Vec<String> = Vec::new();
    let mut start: usize = 0;
    let mut i: usize = 0;
    assert(s@.skip(0) =~= s@);
    assert(views(out@) + lines_of(s@) =~= lines_of(s@));
    while i < chars.len()
        invariant
            chars@ == s@,
            start <= i <= chars@.len(),
            forall|k: int| start <= k < i ==> chars@[k] != '\n',
            views(out@) + lines_of(s@.skip(start as int)) == lines_of(s@),
        decreases chars@.len() - i,
    {
        if chars[i] == '\n' {
            let end: usize = if i > start && chars[i - 1] == '\r' {
                i - 1
            } else {
                i
            };
            let line = text_of(&chars, start, end);
            proof {
                let rest = s@.skip(start as int);
                assert(rest[i - start] == '\n');
                lemma_first_at_is(rest, '\n', i - start);
                assert(rest.take(i - start) =~= s@.subrange(start as int, i as int));
                assert(without_carriage_return(rest.take(i - start)) =~= line@);
                assert(rest.skip(i - start + 1) =~= s@.skip(i + 1));
                lemma_views_push(out@, line);
                assert(views(out@) + lines_of(rest) =~= views(out@).push(line@) + lines_of(
                    s@.skip(i + 1),
                ));
            }
            out.push(line);
            start = i + 1;
        }
        i = i + 1;
    }
    let ghost rest = s@.skip(start as int);
    if start < chars.len() {
        let line = text_of(&chars, start, chars.len());
        proof {
            assert(rest =~= line@);
            lemma_first_at_is(rest, '\n', rest.len() as int);
            lemma_views_push(out@, line);
            assert(views(out@) + lines_of(rest) =~= views(out@).push(line@));
        }
        out.push(line);
    } else {
        assert(views(out@) + lines_of(rest) =~= views(out@));
    }
    out
}

/// A copy of a list of strings.
pub fn copy_texts(list: &Vec<String>) -> (r: Vec<String>)
    ensures
        views(r@) == views(list@),
{
    let mut out: Vec<String> = Vec::new();
    for i in 0..list.len()
        invariant
            out@.len() == i,
            forall|k: int| 0 <= k < i ==> out@[k]@ == list@[k]@,
    {
        out.push(list[i].clone());
    }
    assert(views(out@) =~= views(list@));
    out
}

/// Whether a list has a string that holds the characters of `s`.
pub fn has_text(list: &Vec<String>, s: &str) -> (r: bool)
    ensures
        r == views(list@).contains(s@),
{
    for i in 0..list.len()
        invariant
            forall|k: int| 0 <= k < i ==> list@[k]@ != s@,
    {
        if text_equal(list[i].as_str(), s) {
            assert(views(list@)[i as int] == s@);
            return true;
        }
    }
    assert forall|k: int| 0 <= k < views(list@).len() implies views(list@)[k] != s@ by {
        assert(views(list@)[k] == list@[k]@);
    }
    false
}

/// What the strings of a list hold: one for each of them, in order.
pub proof fn every_string_is_viewed(list: Seq<String>, i: int)
    ensures
        views(list).len() == list.len(),
        0 <= i < list.len() ==> views(list)[i] == list[i]@,
{
}

/// Joining undoes splitting: the pieces with the separator between them are the whole again.
pub proof fn joining_undoes_splitting<T>(s: Seq<T>, c: T)
    ensures
        join(split(s, c), seq![c]) == s,
    decreases s.len(),
{
    lemma_first_at(s, c);
    let k = first_at(s, c);
    if 0 <= k < s.len() {
        let rest = s.skip(k + 1);
        joining_undoes_splitting(rest, c);
        lemma_split_pieces(rest, c);
        lemma_join_front(s.take(k), split(rest, c), seq![c]);
        assert(s =~= s.take(k) + seq![c] + rest);
    }
}

/// Joining two lists is joining each, with the separator between them; one part is joined as it
/// is.
pub proof fn joining_goes_part_by_part<T>(a: Seq<Seq<T>>, b: Seq<Seq<T>>, sep: Seq<T>)
    requires
        a.len() > 0,
        b.len() > 0,
    ensures
        join(a + b, sep) == join(a, sep) + sep + join(b, sep),
        a.len() == 1 ==> join(a, sep) == a[0],
    decreases b.len(),
{
    let init = b.drop_last();
    assert((a + b).drop_last() =~= a + init);
    assert((a + b).last() == b.last());
    if init.len() > 0 {
        joining_goes_part_by_part(a, init, sep);
        assert(join(a, sep) + sep + join(init, sep) + sep + b.last() =~= join(a, sep) + sep + (
        join(init, sep) + sep + b.last()));
    } else {
        assert(a + init =~= a);
    }
}

proof fn lemma_start_of(s: Seq<char>) -> (i: int)
    ensures
        0 <= i <= s.len(),
        trimmed_start(s) == s.skip(i),
        forall|x: int| 0 <= x < i ==> white_space(#[trigger] s[x]),
        i < s.len() ==> !white_space(s[i]),
    decreases s.len(),
{
    if s.len() > 0 && white_space(s[0]) {
        let t = s.drop_first();
        let i = lemma_start_of(t);
        assert(t.skip(i) =~= s.skip(i + 1));
        assert forall|x: int| 0 <= x < i + 1 implies white_space(#[trigger] s[x]) by {
            if x > 0 {
                assert(s[x] == t[x - 1]);
            }
        }
        i + 1
    } else {
        assert(s.skip(0) =~= s);
        0
    }
}

proof fn lemma_end_of(s: Seq<char>) -> (j: int)
    ensures
        0 <= j <= s.len(),
        trimmed_end(s) == s.take(j),
        forall|x: int| j <= x < s.len() ==> white_space(#[trigger] s[x]),
        j > 0 ==> !white_space(s[j - 1]),
    decreases s.len(),
{
    if s.len() > 0 && white_space(s.last()) {
        let t = s.drop_last();
        let j = lemma_end_of(t);
        assert(t.take(j) =~= s.take(j));
        assert forall|x: int| j <= x < s.len() implies white_space(#[trigger] s[x]) by {
            if x < t.len() {
                assert(s[x] == t[x]);
            }
        }
        j
    } else {
        assert(s.take(s.len() as int) =~= s);
        s.len() as int
    }
}

/// Trimming takes away the white space around a text, and nothing else.
pub proof fn trimming_takes_white_space_only(s: Seq<char>)
    ensures
        exists|i: int, j: int|
            {
                &&& 0 <= i <= j <= s.len()
                &&& trimmed(s) == #[trigger] s.subrange(i, j)
                &&& forall|x: int| 0 <= x < i ==> white_space(#[trigger] s[x])
                &&& forall|x: int| j <= x < s.len() ==> white_space(#[trigger] s[x])
                &&& i < j ==> !white_space(s[i]) && !white_space(s[j - 1])
            },
{
    let i = lemma_start_of(s);
    let t = s.skip(i);
    let k = lemma_end_of(t);
    let j = i + k;
    assert(t.take(k) =~= s.subrange(i, j));
    assert forall|x: int| j <= x < s.len() implies white_space(#[trigger] s[x]) by {
        assert(s[x] == t[x - i]);
    }
    if i < j {
        assert(t[k - 1] == s[j - 1]);
    }
}

/// Taking away a character in front takes all of them there, and nothing else.
pub proof fn leading_characters_go_away(s: Seq<char>, c: char)
    ensures
        exists|k: int|
            {
                &&& 0 <= k <= s.len()
                &&& without_leading(s, c) == #[trigger] s.skip(k)
                &&& forall|x: int| 0 <= x < k ==> #[trigger] s[x] == c
                &&& k < s.len() ==> s[k] != c
            },
    decreases s.len(),
{
    if s.len() > 0 && s[0] == c {
        let t = s.drop_first();
        leading_characters_go_away(t, c);
        let k = choose|k: int|
            {
                &&& 0 <= k <= t.len()
                &&& without_leading(t, c) == #[trigger] t.skip(k)
                &&& forall|x: int| 0 <= x < k ==> #[trigger] t[x] == c
                &&& k < t.len() ==> t[k] != c
            };
        assert(t.skip(k) =~= s.skip(k + 1));
        assert forall|x: int| 0 <= x < k + 1 implies #[trigger] s[x] == c by {
            if x > 0 {
                assert(s[x] == t[x - 1]);
            }
        }
    } else {
        assert(s.skip(0) =~= s);
    }
}

/// Lines are read one after the other: each ends at its line feed, and loses a carriage return
/// right before it. What follows the last line feed is a line if it is not empty, and is kept as
/// it is.
pub proof fn lines_are_read_one_by_one(line: Seq<char>, rest: Seq<char>)
    requires
        !line.contains('\n'),
    ensures
        lines_of(line + seq!['\n'] + rest) == seq![
            if line.len() > 0 && line.last() == '\r' {
                line.drop_last()
            } else {
                line
            },
        ] + lines_of(rest),
        line.len() > 0 ==> lines_of(line) == seq![line],
        lines_of(Seq::empty()) == Seq::<Seq<char>>::empty(),
{
    let s = line + seq!['\n'] + rest;
    let k = line.len() as int;
    assert(s[k] == '\n');
    assert forall|i: int| 0 <= i < k implies s[i] != '\n' by {
        assert(s[i] == line[i]);
    }
    lemma_first_at_is(s, '\n', k);
    assert(s.take(k) =~= line);
    assert(s.skip(k + 1) =~= rest);
    assert forall|i: int| 0 <= i < line.len() implies line[i] != '\n' by {}
    lemma_first_at_is(line, '\n', line.len() as int);
}

/// A text holds another if, and only if, it is made of something before that, that, and something
/// behind it.
pub proof fn held_texts_have_something_around(s: Seq<char>, t: Seq<char>)
    ensures
        holds(s, t) <==> exists|a: Seq<char>, b: Seq<char>| s == #[trigger] (a + t + b),
{
    if holds(s, t) {
        let i = choose|i: int|
            0 <= i <= s.len() - t.len() && #[trigger] s.subrange(i, i + t.len()) == t;
        let a = s.take(i);
        let b = s.skip(i + t.len());
        assert(s =~= a + t + b);
    }
    if exists|a: Seq<char>, b: Seq<char>| s == #[trigger] (a + t + b) {
        let (a, b) = choose|a: Seq<char>, b: Seq<char>| s == #[trigger] (a + t + b);
        let i = a.len() as int;
        assert(s.subrange(i, i + t.len()) =~= t);
    }
}

/// Which characters are white space: of ASCII the blank and the five controls that move the place of
/// printing, of others the blanks and line ends of Unicode.
pub proof fn white_space_is_blank(c: char)
    ensures
        (c as u32) < 0x80 ==> (white_space(c) <==> c == ' ' || c == '\t' || c == '\n' || c == '\r'
            || c as u32 == 0x0b || c as u32 == 0x0c),
        (c as u32) >= 0x80 ==> (white_space(c) <==> {
            let n = c as u32;
            ||| n == 0x85 || n == 0xa0 || n == 0x1680
            ||| 0x2000 <= n <= 0x200a
            ||| n == 0x2028 || n == 0x2029 || n == 0x202f || n == 0x205f || n == 0x3000
        }),
{
}

} // verus!
