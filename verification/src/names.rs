//! Sets of names and what directories hold, in the order of the bytes of the names.
use vstd::prelude::*;
use vstd::utf8::encode_utf8;
use crate::text;

verus! {

/// The order of byte strings: by the first byte that differs, a prefix before what it starts.
pub open spec fn bytes_before(a: Seq<u8>, b: Seq<u8>) -> bool
    decreases a.len(),
{
    if b.len() == 0 {
        false
    } else if a.len() == 0 {
        true
    } else if a[0] != b[0] {
        a[0] < b[0]
    } else {
        bytes_before(a.drop_first(), b.drop_first())
    }
}

/// The order of names: that of their bytes.
pub open spec fn before(a: Seq<char>, b: Seq<char>) -> bool {
    bytes_before(encode_utf8(a), encode_utf8(b))
}

/// Names in order, none twice.
pub open spec fn sorted(list: Seq<Seq<char>>) -> bool {
    forall|i: int, j: int| 0 <= i < j < list.len() ==> before(#[trigger] list[i], #[trigger] list[j])
}

proof fn lemma_bytes_irreflexive(a: Seq<u8>)
    ensures
        !bytes_before(a, a),
    decreases a.len(),
{
    if a.len() > 0 {
        lemma_bytes_irreflexive(a.drop_first());
    }
}

proof fn lemma_bytes_transitive(a: Seq<u8>, b: Seq<u8>, c: Seq<u8>)
    requires
        bytes_before(a, b),
        bytes_before(b, c),
    ensures
        bytes_before(a, c),
    decreases a.len(),
{
    if a.len() > 0 && a[0] == b[0] && b[0] == c[0] {
        lemma_bytes_transitive(a.drop_first(), b.drop_first(), c.drop_first());
    }
}

proof fn lemma_bytes_total(a: Seq<u8>, b: Seq<u8>)
    ensures
        a == b || bytes_before(a, b) || bytes_before(b, a),
    decreases a.len(),
{
    if a.len() > 0 && b.len() > 0 && a[0] == b[0] {
        lemma_bytes_total(a.drop_first(), b.drop_first());
        if a.drop_first() == b.drop_first() {
            assert(a =~= seq![a[0]] + a.drop_first());
            assert(b =~= seq![b[0]] + b.drop_first());
        }
    } else if a.len() == 0 && b.len() == 0 {
        assert(a =~= b);
    }
}

/// The order of names is strict and total.
pub proof fn names_are_ordered(a: Seq<char>, b: Seq<char>, c: Seq<char>)
    ensures
        !before(a, a),
        before(a, b) && before(b, c) ==> before(a, c),
        a == b || before(a, b) || before(b, a),
{
    lemma_bytes_irreflexive(encode_utf8(a));
    if before(a, b) && before(b, c) {
        lemma_bytes_transitive(encode_utf8(a), encode_utf8(b), encode_utf8(c));
    }
    lemma_bytes_total(encode_utf8(a), encode_utf8(b));
    text::lemma_same_bytes(a, b);
}

proof fn lemma_sorted_distinct(list: Seq<Seq<char>>)
    requires
        sorted(list),
    ensures
        list.no_duplicates(),
{
    assert forall|i: int, j: int| 0 <= i < list.len() && 0 <= j < list.len() && i != j implies list[i]
        != list[j] by {
        names_are_ordered(list[i], list[i], list[i]);
        if i < j {
            assert(before(list[i], list[j]));
        } else {
            assert(before(list[j], list[i]));
        }
    }
}

/// A set of names has one order: two sorted lists of the same names are the same list.
pub proof fn sorted_lists_are_unique(a: Seq<Seq<char>>, b: Seq<Seq<char>>)
    requires
        sorted(a),
        sorted(b),
        a.to_set() == b.to_set(),
    ensures
        a == b,
    decreases a.len(),
{
    if a.len() == 0 {
        if b.len() > 0 {
            assert(b.to_set().contains(b[0]));
            assert(a.contains(b[0]));
        }
        assert(a =~= b);
    } else {
        assert(a.to_set().contains(a[0]));
        assert(b.contains(a[0]));
        let j = choose|j: int| 0 <= j < b.len() && b[j] == a[0];
        assert(b.to_set().contains(b[0]));
        assert(a.contains(b[0]));
        let i = choose|i: int| 0 <= i < a.len() && a[i] == b[0];
        names_are_ordered(a[0], b[0], a[0]);
        if i > 0 {
            assert(before(a[0], a[i]));
            if j > 0 {
                assert(before(b[0], b[j]));
            }
        }
        assert(a[0] == b[0]);
        lemma_sorted_distinct(a);
        lemma_sorted_distinct(b);
        let x = a.drop_first();
        let y = b.drop_first();
        assert forall|m: int, n: int| 0 <= m < n < x.len() implies before(
            #[trigger] x[m],
            #[trigger] x[n],
        ) by {
            assert(before(a[m + 1], a[n + 1]));
        }
        assert forall|m: int, n: int| 0 <= m < n < y.len() implies before(
            #[trigger] y[m],
            #[trigger] y[n],
        ) by {
            assert(before(b[m + 1], b[n + 1]));
        }
        assert forall|v: Seq<char>| x.to_set().contains(v) <==> y.to_set().contains(v) by {
            if x.contains(v) {
                let m = choose|m: int| 0 <= m < x.len() && x[m] == v;
                assert(a[m + 1] == v);
                assert(a.to_set().contains(v));
                assert(b.contains(v));
                let n = choose|n: int| 0 <= n < b.len() && b[n] == v;
                assert(n > 0);
                assert(y[n - 1] == v);
            }
            if y.contains(v) {
                let n = choose|n: int| 0 <= n < y.len() && y[n] == v;
                assert(b[n + 1] == v);
                assert(b.to_set().contains(v));
                assert(a.contains(v));
                let m = choose|m: int| 0 <= m < a.len() && a[m] == v;
                assert(m > 0);
                assert(x[m - 1] == v);
            }
        }
        assert(x.to_set() =~= y.to_set());
        sorted_lists_are_unique(x, y);
        assert(a =~= seq![a[0]] + x);
        assert(b =~= seq![b[0]] + y);
    }
}

/// The names of a set in order, each once.
pub open spec fn in_order(set: Set<Seq<char>>) -> Seq<Seq<char>> {
    choose|list: Seq<Seq<char>>| sorted(list) && #[trigger] list.to_set() == set
}

/// A sorted list is the one order of its names.
pub proof fn sorted_lists_are_in_order(list: Seq<Seq<char>>)
    requires
        sorted(list),
    ensures
        in_order(list.to_set()) == list,
{
    sorted_lists_are_unique(in_order(list.to_set()), list);
}

/// Every list of names has an order.
pub proof fn every_list_has_an_order(list: Seq<Seq<char>>)
    ensures
        sorted(in_order(list.to_set())),
        in_order(list.to_set()).to_set() == list.to_set(),
{
    let ordered = lemma_order(list);
    assert(sorted(ordered) && ordered.to_set() == list.to_set());
}

proof fn lemma_order(list: Seq<Seq<char>>) -> (ordered: Seq<Seq<char>>)
    ensures
        sorted(ordered),
        ordered.to_set() == list.to_set(),
    decreases list.len(),
{
    if list.len() == 0 {
        list
    } else {
        let init = list.drop_last();
        let name = list.last();
        let front = lemma_order(init);
        assert(list =~= init.push(name));
        init.lemma_push_to_set_commute(name);
        if front.contains(name) {
            assert(front.to_set().contains(name));
            assert(front.to_set().insert(name) =~= front.to_set());
            front
        } else {
            let at = lemma_place(front, name);
            lemma_sorted_insert(front, at, name);
            front.insert(at, name)
        }
    }
}

/// Where a name belongs in a sorted list that does not have it.
proof fn lemma_place(list: Seq<Seq<char>>, name: Seq<char>) -> (at: int)
    requires
        sorted(list),
        !list.contains(name),
    ensures
        0 <= at <= list.len(),
        forall|k: int| 0 <= k < at ==> before(#[trigger] list[k], name),
        forall|k: int| at <= k < list.len() ==> before(name, #[trigger] list[k]),
    decreases list.len(),
{
    if list.len() == 0 {
        0
    } else {
        let init = list.drop_last();
        let last = list.last();
        assert(list[list.len() - 1] == last);
        names_are_ordered(last, name, name);
        if before(last, name) {
            assert forall|k: int| 0 <= k < list.len() implies before(#[trigger] list[k], name) by {
                if k < list.len() - 1 {
                    assert(before(list[k], list[list.len() - 1]));
                    names_are_ordered(list[k], last, name);
                }
            }
            list.len() as int
        } else {
            assert forall|i: int, j: int| 0 <= i < j < init.len() implies before(
                #[trigger] init[i],
                #[trigger] init[j],
            ) by {
                assert(before(list[i], list[j]));
            }
            assert(!init.contains(name)) by {
                if init.contains(name) {
                    let k = choose|k: int| 0 <= k < init.len() && init[k] == name;
                    assert(list[k] == name);
                }
            }
            let at = lemma_place(init, name);
            assert forall|k: int| 0 <= k < at implies before(#[trigger] list[k], name) by {
                assert(list[k] == init[k]);
            }
            assert forall|k: int| at <= k < list.len() implies before(name, #[trigger] list[k]) by {
                if k < list.len() - 1 {
                    assert(list[k] == init[k]);
                }
            }
            at
        }
    }
}

/// How two names stand to each other.
#[derive(Clone, Copy, Debug, PartialEq, Eq, Structural)]
pub enum Place {
    Before,
    Same,
    After,
}

/// How `a` stands to `b`.
pub fn place(a: &str, b: &str) -> (r: Place)
    ensures
        r == (if a@ == b@ {
            Place::Same
        } else if before(a@, b@) {
            Place::Before
        } else {
            Place::After
        }),
{
    let x = a.as_bytes();
    let y = b.as_bytes();
    proof {
        text::lemma_same_bytes(a@, b@);
        assert(x@.skip(0) =~= x@);
        assert(y@.skip(0) =~= y@);
    }
    let mut i: usize = 0;
    while i < x.len() && i < y.len()
        invariant
            x@ == encode_utf8(a@),
            y@ == encode_utf8(b@),
            x@ == y@ <==> a@ == b@,
            i <= x@.len(),
            i <= y@.len(),
            x@.take(i as int) == y@.take(i as int),
            bytes_before(x@, y@) == bytes_before(x@.skip(i as int), y@.skip(i as int)),
        decreases x@.len() - i,
    {
        if x[i] != y[i] {
            return if x[i] < y[i] {
                Place::Before
            } else {
                Place::After
            };
        }
        proof {
            assert(x@.skip(i as int).drop_first() =~= x@.skip(i + 1));
            assert(y@.skip(i as int).drop_first() =~= y@.skip(i + 1));
            assert(x@.take(i + 1) =~= x@.take(i as int).push(x@[i as int]));
            assert(y@.take(i + 1) =~= y@.take(i as int).push(y@[i as int]));
        }
        i = i + 1;
    }
    proof {
        assert(x@.take(x@.len() as int) =~= x@);
        assert(y@.take(y@.len() as int) =~= y@);
    }
    if x.len() == y.len() {
        Place::Same
    } else if x.len() < y.len() {
        Place::Before
    } else {
        Place::After
    }
}

/// A name put into a sorted list where it belongs.
proof fn lemma_sorted_insert(list: Seq<Seq<char>>, at: int, name: Seq<char>)
    requires
        sorted(list),
        0 <= at <= list.len(),
        forall|k: int| 0 <= k < at ==> before(#[trigger] list[k], name),
        forall|k: int| at <= k < list.len() ==> before(name, #[trigger] list[k]),
    ensures
        sorted(list.insert(at, name)),
        list.insert(at, name).to_set() == list.to_set().insert(name),
{
    let more = list.insert(at, name);
    assert forall|i: int, j: int| 0 <= i < j < more.len() implies before(
        #[trigger] more[i],
        #[trigger] more[j],
    ) by {
        if i < at && j < at {
            assert(more[i] == list[i] && more[j] == list[j]);
        } else if i < at && j > at {
            assert(more[i] == list[i] && more[j] == list[j - 1]);
        } else if i > at {
            assert(more[i] == list[i - 1] && more[j] == list[j - 1]);
        } else if i == at {
            assert(more[j] == list[j - 1]);
        } else {
            assert(more[i] == list[i]);
        }
    }
    assert forall|v: Seq<char>| more.to_set().contains(v) <==> list.to_set().insert(name).contains(v) by {
        if more.contains(v) {
            let k = choose|k: int| 0 <= k < more.len() && more[k] == v;
            if k < at {
                assert(list[k] == v);
            } else if k > at {
                assert(list[k - 1] == v);
            }
        }
        if list.contains(v) {
            let k = choose|k: int| 0 <= k < list.len() && list[k] == v;
            if k < at {
                assert(more[k] == v);
            } else {
                assert(more[k + 1] == v);
            }
        }
        assert(more[at] == name);
    }
    assert(more.to_set() =~= list.to_set().insert(name));
}

/// Where a name stands in a sorted list, or where it would have to stand.
fn find(list: &Vec<String>, name: &str) -> (r: (usize, bool))
    requires
        sorted(text::views(list@)),
    ensures
        r.0 <= list@.len(),
        r.1 <==> text::views(list@).contains(name@),
        r.1 ==> r.0 < list@.len() && list@[r.0 as int]@ == name@,
        forall|k: int| 0 <= k < r.0 ==> before(#[trigger] text::views(list@)[k], name@),
        !r.1 ==> forall|k: int| r.0 <= k < list@.len() ==> before(name@, #[trigger] text::views(list@)[k]),
{
    let ghost all = text::views(list@);
    let mut low: usize = 0;
    let mut high: usize = list.len();
    while low < high
        invariant
            all == text::views(list@),
            sorted(all),
            low <= high <= list@.len(),
            forall|k: int| 0 <= k < low ==> before(#[trigger] all[k], name@),
            forall|k: int| high <= k < all.len() ==> before(name@, #[trigger] all[k]),
        decreases high - low,
    {
        let mid: usize = low + (high - low) / 2;
        assert(all[mid as int] == list@[mid as int]@);
        match place(list[mid].as_str(), name) {
            Place::Same => {
                assert forall|k: int| 0 <= k < mid implies before(#[trigger] all[k], name@) by {
                    assert(before(all[k], all[mid as int]));
                }
                return (mid, true);
            },
            Place::Before => {
                assert forall|k: int| 0 <= k < mid + 1 implies before(#[trigger] all[k], name@) by {
                    if k < mid {
                        assert(before(all[k], all[mid as int]));
                        names_are_ordered(all[k], all[mid as int], name@);
                    }
                }
                low = mid + 1;
            },
            Place::After => {
                proof {
                    names_are_ordered(all[mid as int], name@, name@);
                    assert forall|k: int| mid <= k < all.len() implies before(
                        name@,
                        #[trigger] all[k],
                    ) by {
                        if k > mid {
                            assert(before(all[mid as int], all[k]));
                            names_are_ordered(name@, all[mid as int], all[k]);
                        }
                    }
                }
                high = mid;
            },
        }
    }
    proof {
        if all.contains(name@) {
            let k = choose|k: int| 0 <= k < all.len() && all[k] == name@;
            names_are_ordered(name@, name@, name@);
            assert(before(all[k], name@) || before(name@, all[k]));
        }
    }
    (low, false)
}

/// A set of names.
#[derive(Clone, Debug)]
pub struct NameSet {
    names: Vec<String>,
}

impl View for NameSet {
    type V = Set<Seq<char>>;

    closed spec fn view(&self) -> Set<Seq<char>> {
        self.ordered().to_set()
    }
}

impl NameSet {
    /// The names in order.
    pub closed spec fn ordered(&self) -> Seq<Seq<char>> {
        text::views(self.names@)
    }

    /// The names are held in order, none twice.
    pub open spec fn wf(&self) -> bool {
        sorted(self.ordered())
    }

    pub fn new() -> (r: Self)
        ensures
            r.wf(),
            r@ == Set::<Seq<char>>::empty(),
    {
        let r = NameSet { names: Vec::new() };
        assert(r@ =~= Set::<Seq<char>>::empty());
        r
    }

    /// Adds a name.
    pub fn insert(&mut self, name: &str)
        requires
            old(self).wf(),
        ensures
            final(self).wf(),
            final(self)@ == old(self)@.insert(name@),
    {
        let (at, found) = find(&self.names, name);
        let ghost list = self.ordered();
        if found {
            proof {
                assert(list.to_set().contains(name@));
                assert(list.to_set().insert(name@) =~= list.to_set());
            }
        } else {
            let copy = name.to_string();
            proof {
                lemma_sorted_insert(list, at as int, name@);
                assert(text::views(self.names@.insert(at as int, copy)) =~= list.insert(
                    at as int,
                    name@,
                ));
            }
            self.names.insert(at, copy);
        }
    }

    /// Adds each name of another set.
    pub fn insert_all(&mut self, more: &NameSet)
        requires
            old(self).wf(),
        ensures
            final(self).wf(),
            final(self)@ == old(self)@.union(more@),
    {
        let ghost start = self@;
        let ghost all = more.ordered();
        assert(start.union(all.take(0).to_set()) =~= start);
        for i in 0..more.names.len()
            invariant
                self.wf(),
                all == text::views(more.names@),
                self@ == start.union(all.take(i as int).to_set()),
        {
            proof {
                let done = all.take(i as int);
                assert(all.take(i + 1) =~= done.push(all[i as int]));
                done.lemma_push_to_set_commute(all[i as int]);
                assert(all[i as int] == more.names@[i as int]@);
                assert(start.union(done.to_set()).insert(all[i as int]) =~= start.union(
                    done.to_set().insert(all[i as int]),
                ));
            }
            self.insert(more.names[i].as_str());
        }
        assert(all.take(all.len() as int) =~= all);
    }

    /// Whether a name is in the set.
    pub fn contains(&self, name: &str) -> (r: bool)
        requires
            self.wf(),
        ensures
            r == self@.contains(name@),
    {
        let (_, found) = find(&self.names, name);
        found
    }

    /// How many names there are.
    pub fn len(&self) -> (r: usize)
        requires
            self.wf(),
        ensures
            r == self@.len(),
            r == self.ordered().len(),
    {
        proof {
            lemma_sorted_distinct(self.ordered());
            self.ordered().unique_seq_to_set();
        }
        self.names.len()
    }

    /// The name at a position of the order.
    pub fn get(&self, i: usize) -> (r: &String)
        requires
            i < self.ordered().len(),
        ensures
            r@ == self.ordered()[i as int],
    {
        assert(self.ordered()[i as int] == self.names@[i as int]@);
        &self.names[i]
    }

    /// The names in order, each once.
    pub fn to_vec(&self) -> (r: Vec<String>)
        ensures
            text::views(r@) == self.ordered(),
            text::views(r@).to_set() == self@,
    {
        text::copy_texts(&self.names)
    }
}

/// The names of a list in order, each once.
pub fn sort_names(list: &Vec<String>) -> (r: Vec<String>)
    ensures
        text::views(r@) == in_order(text::views(list@).to_set()),
        sorted(text::views(r@)),
        text::views(r@).to_set() == text::views(list@).to_set(),
{
    let mut set = NameSet::new();
    let ghost all = text::views(list@);
    assert(set@ =~= all.take(0).to_set());
    for i in 0..list.len()
        invariant
            set.wf(),
            all == text::views(list@),
            set@ == all.take(i as int).to_set(),
    {
        proof {
            assert(all.take(i + 1) =~= all.take(i as int).push(all[i as int]));
            all.take(i as int).lemma_push_to_set_commute(all[i as int]);
            assert(all[i as int] == list@[i as int]@);
        }
        set.insert(list[i].as_str());
    }
    assert(all.take(all.len() as int) =~= all);
    proof {
        sorted_lists_are_in_order(set.ordered());
    }
    set.to_vec()
}

/// What one directory holds.
#[derive(Clone, Debug)]
pub struct ExecDir {
    dir: String,
    names: NameSet,
}

/// What directories hold: the names of the programs of each.
#[derive(Clone, Debug)]
pub struct ExecIndex {
    entries: Vec<ExecDir>,
}

/// The directories of a list of entries.
pub closed spec fn dirs_of(entries: Seq<ExecDir>) -> Seq<Seq<char>> {
    entries.map_values(|e: ExecDir| e.dir@)
}

impl View for ExecIndex {
    type V = Map<Seq<char>, Set<Seq<char>>>;

    closed spec fn view(&self) -> Map<Seq<char>, Set<Seq<char>>> {
        Map::new(
            |d: Seq<char>| self.dirs().contains(d),
            |d: Seq<char>| self.entries@[self.dirs().index_of(d)].names@,
        )
    }
}

impl ExecIndex {
    /// The directories in order.
    pub closed spec fn dirs(&self) -> Seq<Seq<char>> {
        dirs_of(self.entries@)
    }

    /// The directories are held in order, none twice, and so are the names of each.
    pub closed spec fn wf(&self) -> bool {
        &&& sorted(self.dirs())
        &&& forall|i: int| 0 <= i < self.entries@.len() ==> (#[trigger] self.entries@[i]).names.wf()
    }

    proof fn lemma_entry(&self, i: int)
        requires
            self.wf(),
            0 <= i < self.entries@.len(),
        ensures
            self.dirs()[i] == self.entries@[i].dir@,
            self@.dom().contains(self.entries@[i].dir@),
            self@[self.entries@[i].dir@] == self.entries@[i].names@,
    {
        lemma_sorted_distinct(self.dirs());
        let d = self.entries@[i].dir@;
        assert(self.dirs()[i] == d);
        assert(self.dirs().contains(d));
        let j = self.dirs().index_of(d);
        assert(self.dirs()[j] == d);
    }

    pub fn new() -> (r: Self)
        ensures
            r.wf(),
            r@ == Map::<Seq<char>, Set<Seq<char>>>::empty(),
    {
        let r = ExecIndex { entries: Vec::new() };
        assert(r.dirs() =~= Seq::<Seq<char>>::empty());
        assert(r@ =~= Map::<Seq<char>, Set<Seq<char>>>::empty());
        r
    }

    /// Where a directory stands, or where it would have to stand.
    fn find_dir(&self, dir: &str) -> (r: (usize, bool))
        requires
            self.wf(),
        ensures
            r.0 <= self.entries@.len(),
            r.1 <==> self@.dom().contains(dir@),
            r.1 ==> r.0 < self.entries@.len() && self.entries@[r.0 as int].dir@ == dir@,
            forall|k: int| 0 <= k < r.0 ==> before(#[trigger] self.dirs()[k], dir@),
            !r.1 ==> forall|k: int|
                r.0 <= k < self.entries@.len() ==> before(dir@, #[trigger] self.dirs()[k]),
    {
        let mut i: usize = 0;
        while i < self.entries.len()
            invariant
                self.wf(),
                i <= self.entries@.len(),
                forall|k: int| 0 <= k < i ==> before(#[trigger] self.dirs()[k], dir@),
            decreases self.entries@.len() - i,
        {
            assert(self.dirs()[i as int] == self.entries@[i as int].dir@);
            match place(self.entries[i].dir.as_str(), dir) {
                Place::Same => {
                    assert(self.dirs().contains(dir@));
                    return (i, true);
                },
                Place::Before => {},
                Place::After => {
                    proof {
                        names_are_ordered(self.dirs()[i as int], dir@, dir@);
                        assert forall|k: int| i <= k < self.entries@.len() implies before(
                            dir@,
                            #[trigger] self.dirs()[k],
                        ) by {
                            if k > i {
                                assert(before(self.dirs()[i as int], self.dirs()[k]));
                                names_are_ordered(dir@, self.dirs()[i as int], self.dirs()[k]);
                            }
                        }
                        self.lemma_absent(dir@, i as int);
                    }
                    return (i, false);
                },
            }
            i = i + 1;
        }
        proof {
            self.lemma_absent(dir@, i as int);
        }
        (i, false)
    }

    proof fn lemma_absent(&self, d: Seq<char>, at: int)
        requires
            0 <= at <= self.entries@.len(),
            forall|k: int| 0 <= k < at ==> before(#[trigger] self.dirs()[k], d),
            forall|k: int| at <= k < self.entries@.len() ==> before(d, #[trigger] self.dirs()[k]),
        ensures
            !self.dirs().contains(d),
    {
        if self.dirs().contains(d) {
            let k = choose|k: int| 0 <= k < self.dirs().len() && self.dirs()[k] == d;
            names_are_ordered(d, d, d);
            assert(before(self.dirs()[k], d) || before(d, self.dirs()[k]));
        }
    }

    /// Adds a name to what a directory holds.
    pub fn add(&mut self, dir: &str, name: &str)
        requires
            old(self).wf(),
        ensures
            final(self).wf(),
            final(self)@ == old(self)@.insert(
                dir@,
                (if old(self)@.dom().contains(dir@) {
                    old(self)@[dir@]
                } else {
                    Set::empty()
                }).insert(name@),
            ),
    {
        let (at, found) = self.find_dir(dir);
        let ghost before_add = *self;
        if found {
            proof {
                self.lemma_entry(at as int);
            }
            self.entries[at].names.insert(name);
            proof {
                assert(self.dirs() =~= before_add.dirs());
                assert(self.wf());
                let wanted = before_add@.insert(dir@, before_add@[dir@].insert(name@));
                assert forall|d: Seq<char>| self@.dom().contains(d) implies self@[d] == wanted[d] by {
                    let k = choose|k: int| 0 <= k < self.dirs().len() && self.dirs()[k] == d;
                    assert(before_add.dirs()[k] == d);
                    self.lemma_entry(k);
                    before_add.lemma_entry(k);
                    if k != at {
                        lemma_sorted_distinct(self.dirs());
                        assert(self.dirs()[at as int] == dir@);
                    }
                }
                assert(self@ =~= wanted);
            }
        } else {
            let mut names = NameSet::new();
            names.insert(name);
            let entry = ExecDir { dir: dir.to_string(), names };
            self.entries.insert(at, entry);
            proof {
                assert(self.dirs() =~= before_add.dirs().insert(at as int, dir@));
                lemma_sorted_insert(before_add.dirs(), at as int, dir@);
                assert forall|i: int| 0 <= i < self.entries@.len() implies (
                #[trigger] self.entries@[i]).names.wf() by {
                    if i < at {
                        assert(self.entries@[i] == before_add.entries@[i]);
                    } else if i > at {
                        assert(self.entries@[i] == before_add.entries@[i - 1]);
                    }
                }
                let wanted = before_add@.insert(dir@, Set::empty().insert(name@));
                assert forall|d: Seq<char>| self@.dom().contains(d) <==> wanted.dom().contains(d) by {
                    assert(self.dirs().to_set().contains(d) <==> before_add.dirs().to_set().insert(
                        dir@,
                    ).contains(d));
                }
                assert forall|d: Seq<char>| self@.dom().contains(d) implies self@[d] == wanted[d] by {
                    let k = choose|k: int| 0 <= k < self.dirs().len() && self.dirs()[k] == d;
                    self.lemma_entry(k);
                    if k < at {
                        before_add.lemma_entry(k);
                    } else if k > at {
                        before_add.lemma_entry(k - 1);
                    }
                }
                assert(self@ =~= wanted);
            }
        }
    }

    /// The directories in order, each once.
    pub fn keys(&self) -> (r: Vec<String>)
        requires
            self.wf(),
        ensures
            text::views(r@) == self.dirs(),
            sorted(text::views(r@)),
            text::views(r@).to_set() == self@.dom(),
    {
        let mut out: Vec<String> = Vec::new();
        for i in 0..self.entries.len()
            invariant
                out@.len() == i,
                forall|k: int| 0 <= k < i ==> (#[trigger] out@[k])@ == self.entries@[k].dir@,
        {
            out.push(self.entries[i].dir.clone());
        }
        assert(text::views(out@) =~= self.dirs());
        assert(self.dirs().to_set() =~= self@.dom());
        out
    }

    /// What a directory holds.
    pub fn get(&self, dir: &str) -> (r: Option<&NameSet>)
        requires
            self.wf(),
        ensures
            r is Some <==> self@.dom().contains(dir@),
            r matches Some(names) ==> names.wf() && names@ == self@[dir@],
    {
        let (at, found) = self.find_dir(dir);
        if found {
            proof {
                self.lemma_entry(at as int);
            }
            Some(&self.entries[at].names)
        } else {
            None
        }
    }

    /// Every name that some directory holds.
    pub open spec fn every_name(m: Map<Seq<char>, Set<Seq<char>>>) -> Set<Seq<char>> {
        Set::new(|n: Seq<char>| exists|d: Seq<char>| #[trigger] m.dom().contains(d) && m[d].contains(n))
    }

    /// Adds every name that some directory holds to a set.
    pub fn collect_names(&self, set: &mut NameSet)
        requires
            self.wf(),
            old(set).wf(),
        ensures
            final(set).wf(),
            final(set)@ == old(set)@.union(Self::every_name(self@)),
    {
        let ghost start = set@;
        for i in 0..self.entries.len()
            invariant
                self.wf(),
                set.wf(),
                forall|n: Seq<char>|
                    #![trigger set@.contains(n)]
                    set@.contains(n) <==> start.contains(n) || exists|k: int|
                        0 <= k < i && (#[trigger] self.entries@[k]).names@.contains(n),
        {
            let ghost old_set = set@;
            set.insert_all(&self.entries[i].names);
            assert forall|n: Seq<char>| #![trigger set@.contains(n)]
                set@.contains(n) <==> start.contains(n) || exists|k: int|
                    0 <= k < i + 1 && (#[trigger] self.entries@[k]).names@.contains(n) by {
                assert(old_set.contains(n) <==> start.contains(n) || exists|k: int|
                    0 <= k < i && (#[trigger] self.entries@[k]).names@.contains(n));
                if self.entries@[i as int].names@.contains(n) {
                    assert(set@.contains(n));
                }
                if exists|k: int| 0 <= k < i + 1 && (#[trigger] self.entries@[k]).names@.contains(n) {
                    let k = choose|k: int|
                        0 <= k < i + 1 && (#[trigger] self.entries@[k]).names@.contains(n);
                    if k < i {
                        assert(old_set.contains(n));
                    }
                }
            }
        }
        proof {
            let wanted = start.union(Self::every_name(self@));
            assert forall|n: Seq<char>| set@.contains(n) <==> wanted.contains(n) by {
                if exists|k: int|
                    0 <= k < self.entries@.len() && (#[trigger] self.entries@[k]).names@.contains(n) {
                    let k = choose|k: int|
                        0 <= k < self.entries@.len() && (#[trigger] self.entries@[k]).names@.contains(n);
                    self.lemma_entry(k);
                    assert(self@.dom().contains(self.entries@[k].dir@));
                }
                if Self::every_name(self@).contains(n) {
                    let d = choose|d: Seq<char>|
                        #[trigger] self@.dom().contains(d) && self@[d].contains(n);
                    let k = choose|k: int| 0 <= k < self.dirs().len() && self.dirs()[k] == d;
                    self.lemma_entry(k);
                    assert(self.entries@[k].names@.contains(n));
                }
            }
            assert(set@ =~= wanted);
        }
    }
}

/// The order of names is that of their bytes: a name comes before each that goes on behind it, and
/// otherwise the first byte that differs decides.
pub proof fn the_first_difference_decides(front: Seq<u8>, a: Seq<u8>, b: Seq<u8>)
    ensures
        b.len() > 0 ==> bytes_before(front, front + b) && !bytes_before(front + b, front),
        a.len() > 0 && b.len() > 0 && a[0] < b[0] ==> bytes_before(front + a, front + b)
            && !bytes_before(front + b, front + a),
    decreases front.len(),
{
    if front.len() == 0 {
        assert(front + a =~= a);
        assert(front + b =~= b);
    } else {
        let rest = front.drop_first();
        the_first_difference_decides(rest, a, b);
        assert((front + a).drop_first() =~= rest + a);
        assert((front + b).drop_first() =~= rest + b);
    }
}

} // verus!
