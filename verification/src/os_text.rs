//! Byte strings of the operating system: paths, arguments and environment values. They need not
//! be UTF-8.
use vstd::prelude::*;
use vstd::utf8::{decode_utf8, encode_utf8, valid_utf8};
use crate::text;

verus! {

/// What `String::from_utf8_lossy` makes of bytes that are not UTF-8.
pub uninterp spec fn lossy_text(bytes: Seq<u8>) -> Seq<char>;

/// The text that stands for `bytes` in messages: the bytes decoded, with what is not UTF-8
/// replaced.
pub open spec fn shown(bytes: Seq<u8>) -> Seq<char> {
    if valid_utf8(bytes) {
        decode_utf8(bytes)
    } else {
        lossy_text(bytes)
    }
}

/// The bytes of a piece of text.
pub open spec fn bytes_of(s: &str) -> Seq<u8> {
    encode_utf8(s@)
}

/// The bytes of each string of a list.
pub open spec fn encoded(list: Seq<Seq<char>>) -> Seq<Seq<u8>> {
    list.map_values(|s: Seq<char>| encode_utf8(s))
}

/// `String::from_utf8`: a string with exactly these bytes, where they are UTF-8; nothing
/// otherwise.
#[verifier::external_body]
fn decode(bytes: &Vec<u8>) -> (r: Option<String>)
    ensures
        r is Some <==> valid_utf8(bytes@),
        r matches Some(s) ==> s@ == decode_utf8(bytes@),
{
    String::from_utf8(bytes.clone()).ok()
}

/// `String::from_utf8_lossy`: UTF-8 is decoded as it is. Of other bytes the result is only
/// named: it is the same for the same bytes, and where the replacement characters stand is left
/// unsaid.
#[verifier::external_body]
fn decode_lossy(bytes: &Vec<u8>) -> (r: String)
    ensures
        valid_utf8(bytes@) ==> r@ == decode_utf8(bytes@),
        !valid_utf8(bytes@) ==> r@ == lossy_text(bytes@),
{
    String::from_utf8_lossy(bytes).into_owned()
}

/// Decoding the bytes of a text gives the text.
pub proof fn lemma_text_shown(s: Seq<char>)
    ensures
        valid_utf8(encode_utf8(s)),
        decode_utf8(encode_utf8(s)) == s,
        shown(encode_utf8(s)) == s,
{
    vstd::utf8::encode_utf8_valid_utf8(s);
    vstd::utf8::encode_utf8_decode_utf8(s);
}

/// The bytes of two texts, one behind the other.
pub proof fn lemma_encoded_add(a: Seq<char>, b: Seq<char>)
    ensures
        encode_utf8(a + b) == encode_utf8(a) + encode_utf8(b),
    decreases a.len(),
{
    if a.len() == 0 {
        assert(a + b =~= b);
        assert(encode_utf8(a) + encode_utf8(b) =~= encode_utf8(b));
    } else {
        lemma_encoded_add(a.drop_first(), b);
        assert((a + b).drop_first() =~= a.drop_first() + b);
        assert(encode_utf8(a + b) =~= encode_utf8(a) + encode_utf8(b));
    }
}

/// A byte string of the operating system.
#[derive(Debug, PartialEq, Eq)]
pub struct OsText {
    bytes: Vec<u8>,
}

impl View for OsText {
    type V = Seq<u8>;

    closed spec fn view(&self) -> Seq<u8> {
        self.bytes@
    }
}

impl Clone for OsText {
    fn clone(&self) -> (r: Self)
        ensures
            r@ == self@,
    {
        let bytes = self.bytes.clone();
        assert(bytes@ =~= self.bytes@);
        OsText { bytes }
    }
}

impl OsText {
    pub fn from_bytes(bytes: Vec<u8>) -> (r: Self)
        ensures
            r@ == bytes@,
    {
        OsText { bytes }
    }

    pub fn from_text(s: &str) -> (r: Self)
        ensures
            r@ == encode_utf8(s@),
    {
        OsText { bytes: s.as_bytes_vec() }
    }

    pub fn as_bytes(&self) -> (r: &Vec<u8>)
        ensures
            r@ == self@,
    {
        &self.bytes
    }

    pub fn into_bytes(self) -> (r: Vec<u8>)
        ensures
            r@ == self@,
    {
        self.bytes
    }

    /// Whether two byte strings are the same.
    pub fn same(&self, other: &OsText) -> (r: bool)
        ensures
            r == (self@ == other@),
    {
        text::bytes_equal(self.bytes.as_slice(), other.bytes.as_slice())
    }

    /// The text that the bytes encode, where they are UTF-8.
    pub fn to_text(&self) -> (r: Option<String>)
        ensures
            r is Some <==> valid_utf8(self@),
            r matches Some(s) ==> s@ == decode_utf8(self@),
    {
        decode(&self.bytes)
    }

    /// The text that stands for the bytes in messages.
    pub fn shown(&self) -> (r: String)
        ensures
            r@ == shown(self@),
    {
        decode_lossy(&self.bytes)
    }
}

/// What the byte strings of a list hold.
pub open spec fn os_views(list: Seq<OsText>) -> Seq<Seq<u8>> {
    list.map_values(|t: OsText| t@)
}

/// The arguments of a command, in order.
#[derive(Debug, PartialEq, Eq)]
pub struct ArgList {
    items: Vec<OsText>,
}

impl View for ArgList {
    type V = Seq<Seq<u8>>;

    closed spec fn view(&self) -> Seq<Seq<u8>> {
        os_views(self.items@)
    }
}

impl ArgList {
    pub fn new() -> (r: Self)
        ensures
            r@ == Seq::<Seq<u8>>::empty(),
    {
        let r = ArgList { items: Vec::new() };
        assert(r@ =~= Seq::<Seq<u8>>::empty());
        r
    }

    /// Appends a byte string.
    pub fn push(&mut self, arg: OsText)
        ensures
            final(self)@ == old(self)@.push(arg@),
    {
        self.items.push(arg);
        assert(self@ =~= old(self)@.push(arg@));
    }

    /// Appends a copy of a byte string.
    pub fn push_os(&mut self, arg: &OsText)
        ensures
            final(self)@ == old(self)@.push(arg@),
    {
        self.push(arg.clone());
    }

    /// Appends a piece of text.
    pub fn push_text(&mut self, arg: &str)
        ensures
            final(self)@ == old(self)@.push(encode_utf8(arg@)),
    {
        self.push(OsText::from_text(arg));
    }

    /// Appends two pieces of text.
    pub fn push_pair(&mut self, a: &str, b: &str)
        ensures
            final(self)@ == old(self)@ + seq![encode_utf8(a@), encode_utf8(b@)],
    {
        self.push_text(a);
        self.push_text(b);
        assert(self@ =~= old(self)@ + seq![encode_utf8(a@), encode_utf8(b@)]);
    }

    /// Appends three pieces of text.
    pub fn push_triple(&mut self, a: &str, b: &str, c: &str)
        ensures
            final(self)@ == old(self)@ + seq![encode_utf8(a@), encode_utf8(b@), encode_utf8(c@)],
    {
        self.push_text(a);
        self.push_text(b);
        self.push_text(c);
        assert(self@ =~= old(self)@ + seq![encode_utf8(a@), encode_utf8(b@), encode_utf8(c@)]);
    }

    /// Appends each string of a list.
    pub fn push_texts(&mut self, list: &Vec<String>)
        ensures
            final(self)@ == old(self)@ + encoded(text::views(list@)),
    {
        let ghost start = self@;
        assert(start + encoded(text::views(list@)).take(0) =~= start);
        for i in 0..list.len()
            invariant
                self@ == start + encoded(text::views(list@)).take(i as int),
        {
            proof {
                let all = encoded(text::views(list@));
                assert(all[i as int] == encode_utf8(list@[i as int]@));
                assert(all.take(i + 1) =~= all.take(i as int).push(all[i as int]));
                assert(start + all.take(i + 1) =~= (start + all.take(i as int)).push(
                    all[i as int],
                ));
            }
            self.push_text(list[i].as_str());
        }
        let ghost all = encoded(text::views(list@));
        assert(all.take(list@.len() as int) =~= all);
    }

    pub fn len(&self) -> (r: usize)
        ensures
            r == self@.len(),
    {
        self.items.len()
    }

    pub fn get(&self, i: usize) -> (r: &OsText)
        requires
            i < self@.len(),
        ensures
            r@ == self@[i as int],
    {
        &self.items[i]
    }

    pub fn into_vec(self) -> (r: Vec<OsText>)
        ensures
            os_views(r@) == self@,
    {
        self.items
    }
}

/// A set of paths, such as those that were seen to exist.
#[derive(Debug)]
pub struct PathSet {
    items: Vec<OsText>,
}

impl View for PathSet {
    type V = Set<Seq<u8>>;

    closed spec fn view(&self) -> Set<Seq<u8>> {
        os_views(self.items@).to_set()
    }
}

impl PathSet {
    pub fn new() -> (r: Self)
        ensures
            r@ == Set::<Seq<u8>>::empty(),
    {
        let r = PathSet { items: Vec::new() };
        assert(r@ =~= Set::<Seq<u8>>::empty());
        r
    }

    pub fn insert(&mut self, path: OsText)
        ensures
            final(self)@ == old(self)@.insert(path@),
    {
        let ghost before = os_views(self.items@);
        self.items.push(path);
        proof {
            let after = os_views(self.items@);
            assert(after =~= before.push(path@));
            before.lemma_push_to_set_commute(path@);
        }
    }

    pub fn contains(&self, path: &OsText) -> (r: bool)
        ensures
            r == self@.contains(path@),
    {
        for i in 0..self.items.len()
            invariant
                forall|k: int| 0 <= k < i ==> self.items@[k]@ != path@,
        {
            if self.items[i].same(path) {
                assert(os_views(self.items@)[i as int] == path@);
                return true;
            }
        }
        assert forall|k: int| 0 <= k < os_views(self.items@).len() implies os_views(self.items@)[k]
            != path@ by {
            assert(os_views(self.items@)[k] == self.items@[k]@);
        }
        false
    }
}

/// Each string of a list is encoded, in order.
pub proof fn every_text_is_encoded(list: Seq<Seq<char>>, i: int)
    ensures
        encoded(list).len() == list.len(),
        0 <= i < list.len() ==> encoded(list)[i] == encode_utf8(list[i]),
{
}

/// What the byte strings of a list hold: one for each of them, in order.
pub proof fn every_byte_string_is_viewed(list: Seq<OsText>, i: int)
    ensures
        os_views(list).len() == list.len(),
        0 <= i < list.len() ==> os_views(list)[i] == list[i]@,
{
}

} // verus!
