//! Children of a route node: a mapping from key to node id that keeps its keys in
//! ascending order, so walking it is the same whatever the insertion order was.
use vstd::prelude::*;
use vstd::string::*;

use crate::path::to_chars;

verus! {

/// Lexicographic order on character sequences, by code point.
pub open spec fn seq_lt(a: Seq<char>, b: Seq<char>) -> bool
    decreases a.len(),
{
    if a.len() == 0 {
        b.len() > 0
    } else if b.len() == 0 {
        false
    } else if a[0] != b[0] {
        (a[0] as int) < (b[0] as int)
    } else {
        seq_lt(a.skip(1), b.skip(1))
    }
}

pub proof fn lemma_lt_irreflexive(a: Seq<char>)
    ensures
        !seq_lt(a, a),
    decreases a.len(),
{
    if a.len() > 0 {
        lemma_lt_irreflexive(a.skip(1));
    }
}

pub proof fn lemma_lt_total(a: Seq<char>, b: Seq<char>)
    ensures
        a == b || seq_lt(a, b) || seq_lt(b, a),
    decreases a.len(),
{
    if a.len() > 0 && b.len() > 0 && a[0] == b[0] {
        lemma_lt_total(a.skip(1), b.skip(1));
        if a.skip(1) == b.skip(1) {
            assert(a =~= seq![a[0]] + a.skip(1));
            assert(b =~= seq![b[0]] + b.skip(1));
        }
    } else if a.len() == 0 && b.len() == 0 {
        assert(a =~= b);
    } else if a.len() > 0 && b.len() > 0 {
    }
}

pub proof fn lemma_lt_asymmetric(a: Seq<char>, b: Seq<char>)
    requires
        seq_lt(a, b),
    ensures
        !seq_lt(b, a),
    decreases a.len(),
{
    if a.len() > 0 && b.len() > 0 && a[0] == b[0] {
        lemma_lt_asymmetric(a.skip(1), b.skip(1));
    }
}

pub proof fn lemma_lt_transitive(a: Seq<char>, b: Seq<char>, c: Seq<char>)
    requires
        seq_lt(a, b),
        seq_lt(b, c),
    ensures
        seq_lt(a, c),
    decreases a.len(),
{
    if a.len() > 0 && b.len() > 0 && c.len() > 0 && a[0] == b[0] && b[0] == c[0] {
        lemma_lt_transitive(a.skip(1), b.skip(1), c.skip(1));
    }
}

/// Whether `a` comes before `b` in lexicographic order.
pub fn str_lt(a: &str, b: &str) -> (r: bool)
    ensures
        r == seq_lt(a@, b@),
{
    let x = to_chars(a);
    let y = to_chars(b);
    let mut i: usize = 0;
    assert(x@.skip(0) =~= x@);
    assert(y@.skip(0) =~= y@);
    while i < x.len() && i < y.len() && x[i] == y[i]
        invariant
            x@ == a@,
            y@ == b@,
            i <= x.len(),
            i <= y.len(),
            seq_lt(a@, b@) == seq_lt(x@.skip(i as int), y@.skip(i as int)),
        decreases x.len() - i,
    {
        assert(x@.skip(i as int).skip(1) =~= x@.skip(i + 1));
        assert(y@.skip(i as int).skip(1) =~= y@.skip(i + 1));
        i = i + 1;
    }
    if i == x.len() {
        i < y.len()
    } else if i == y.len() {
        false
    } else {
        x[i] < y[i]
    }
}

/// An ordered mapping from string keys to node ids.
pub struct ChildMap {
    entries: Vec<(String, u64)>,
    contents: Ghost<Map<Seq<char>, u64>>,
}

impl View for ChildMap {
    type V = Map<Seq<char>, u64>;

    closed spec fn view(&self) -> Map<Seq<char>, u64> {
        self.contents@
    }
}

impl ChildMap {
    /// The entries, in ascending key order.
    pub closed spec fn entry_seq(&self) -> Seq<(String, u64)> {
        self.entries@
    }

    /// Keys sorted strictly ascending, and the entries list exactly the mapping.
    pub closed spec fn wf(&self) -> bool {
        let e = self.entries@;
        &&& forall|i: int, j: int|
            0 <= i < j < e.len() ==> seq_lt(#[trigger] e[i].0@, #[trigger] e[j].0@)
        &&& forall|i: int|
            0 <= i < e.len() ==> self.contents@.contains_key(#[trigger] e[i].0@)
                && self.contents@[e[i].0@] == e[i].1
        &&& forall|k: Seq<char>|
            #[trigger] self.contents@.contains_key(k) ==> exists|i: int|
                0 <= i < e.len() && (#[trigger] e[i].0@) == k
    }

    /// What the walk of the entries visits: keys in ascending order, with each id.
    pub open spec fn sorted_view(&self) -> Seq<(Seq<char>, u64)> {
        self.entry_seq().map_values(|e: (String, u64)| (e.0@, e.1))
    }

    pub proof fn lemma_sorted_view(&self)
        requires
            self.wf(),
        ensures
            self.sorted_view().len() == self@.len(),
            forall|i: int, j: int|
                0 <= i < j < self.sorted_view().len() ==> seq_lt(
                    #[trigger] self.sorted_view()[i].0,
                    #[trigger] self.sorted_view()[j].0,
                ),
            forall|i: int|
                0 <= i < self.sorted_view().len() ==> self@.contains_key(
                    #[trigger] self.sorted_view()[i].0,
                ) && self@[self.sorted_view()[i].0] == self.sorted_view()[i].1,
            forall|k: Seq<char>|
                #[trigger] self@.contains_key(k) ==> exists|i: int|
                    0 <= i < self.sorted_view().len() && (#[trigger] self.sorted_view()[i].0) == k,
    {
        let e = self.entries@;
        let sv = self.sorted_view();
        assert forall|k: Seq<char>| #[trigger] self@.contains_key(k) implies exists|i: int|
            0 <= i < sv.len() && (#[trigger] sv[i].0) == k by {
            let i = choose|i: int| 0 <= i < e.len() && (#[trigger] e[i].0@) == k;
            assert(sv[i].0 == k);
        }
        self.lemma_keys_unique();
        let keys = e.map_values(|x: (String, u64)| x.0@);
        assert forall|k: Seq<char>| #[trigger] self@.dom().contains(k) implies keys.contains(k) by {
            let i = choose|i: int| 0 <= i < e.len() && (#[trigger] e[i].0@) == k;
            assert(keys[i] == k);
        }
        assert forall|k: Seq<char>| keys.contains(k) implies #[trigger] self@.dom().contains(k) by {
            let i = choose|i: int| 0 <= i < keys.len() && keys[i] == k;
            assert(keys[i] == e[i].0@);
        }
        assert(self@.dom() =~= keys.to_set());
        assert(keys.no_duplicates()) by {
            assert forall|i: int, j: int| 0 <= i < keys.len() && 0 <= j < keys.len() && i != j
                implies keys[i] != keys[j] by {
                assert(keys[i] == e[i].0@);
                assert(keys[j] == e[j].0@);
            }
        }
        keys.unique_seq_to_set();
    }

    proof fn lemma_keys_unique(&self)
        requires
            self.wf(),
        ensures
            forall|i: int, j: int|
                0 <= i < self.entries@.len() && 0 <= j < self.entries@.len() && i != j
                    ==> (#[trigger] self.entries@[i]).0@ != (#[trigger] self.entries@[j]).0@,
    {
        let e = self.entries@;
        assert forall|i: int, j: int| 0 <= i < e.len() && 0 <= j < e.len() && i != j implies
            (#[trigger] e[i]).0@ != (#[trigger] e[j]).0@ by {
            if i < j {
                assert(seq_lt(e[i].0@, e[j].0@));
                lemma_lt_irreflexive(e[i].0@);
            } else {
                assert(seq_lt(e[j].0@, e[i].0@));
                lemma_lt_irreflexive(e[j].0@);
            }
        }
    }

    /// An empty mapping.
    pub fn new() -> (r: ChildMap)
        ensures
            r.wf(),
            r@ == Map::<Seq<char>, u64>::empty(),
    {
        ChildMap { entries: Vec::new(), contents: Ghost(Map::empty()) }
    }

    /// How many keys it holds.
    pub fn len(&self) -> (r: usize)
        requires
            self.wf(),
        ensures
            r == self@.len(),
    {
        proof {
            self.lemma_sorted_view();
        }
        self.entries.len()
    }

    /// The id under `key`.
    pub fn get(&self, key: &String) -> (r: Option<u64>)
        requires
            self.wf(),
        ensures
            r == (if self@.contains_key(key@) {
                Some(self@[key@])
            } else {
                None
            }),
    {
        let mut i: usize = 0;
        while i < self.entries.len()
            invariant
                self.wf(),
                i <= self.entries@.len(),
                forall|j: int| 0 <= j < i ==> (#[trigger] self.entries@[j]).0@ != key@,
            decreases self.entries@.len() - i,
        {
            if self.entries[i].0.eq(key) {
                return Some(self.entries[i].1);
            }
            i = i + 1;
        }
        None
    }

    /// The `i`-th entry in ascending key order.
    pub fn entry(&self, i: usize) -> (r: (&String, u64))
        requires
            self.wf(),
            i < self.sorted_view().len(),
        ensures
            r.0@ == self.sorted_view()[i as int].0,
            r.1 == self.sorted_view()[i as int].1,
    {
        (&self.entries[i].0, self.entries[i].1)
    }

    /// Sets `key` to `id`, replacing what it held.
    pub fn insert(&mut self, key: String, id: u64)
        requires
            old(self).wf(),
        ensures
            final(self).wf(),
            final(self)@ == old(self)@.insert(key@, id),
    {
        let ghost k = key@;
        let mut i: usize = 0;
        while i < self.entries.len() && str_lt(self.entries[i].0.as_str(), key.as_str())
            invariant
                self.wf(),
                k == key@,
                i <= self.entries@.len(),
                forall|j: int| 0 <= j < i ==> seq_lt((#[trigger] self.entries@[j]).0@, k),
            decreases self.entries@.len() - i,
        {
            i = i + 1;
        }
        let ghost e = self.entries@;
        if i < self.entries.len() && self.entries[i].0 == key {
            proof {
                self.lemma_keys_unique();
            }
            self.entries.set(i, (key, id));
            self.contents = Ghost(self.contents@.insert(k, id));
            proof {
                let e2 = self.entries@;
                assert forall|a: int, b: int| 0 <= a < b < e2.len() implies seq_lt(
                    #[trigger] e2[a].0@,
                    #[trigger] e2[b].0@,
                ) by {
                    assert(seq_lt(e[a].0@, e[b].0@));
                }
                assert forall|j: int| 0 <= j < e2.len() implies self.contents@.contains_key(
                    #[trigger] e2[j].0@,
                ) && self.contents@[e2[j].0@] == e2[j].1 by {
                    if j != i {
                        assert(e[j].0@ != k);
                    }
                }
                assert forall|kk: Seq<char>| #[trigger] self.contents@.contains_key(kk)
                    implies exists|j: int| 0 <= j < e2.len() && (#[trigger] e2[j].0@) == kk by {
                    if kk != k {
                        let j = choose|j: int| 0 <= j < e.len() && (#[trigger] e[j].0@) == kk;
                        assert(e2[j].0@ == kk);
                    } else {
                        assert(e2[i as int].0@ == kk);
                    }
                }
            }
        } else {
            proof {
                if i < e.len() {
                    lemma_lt_total(e[i as int].0@, k);
                }
            }
            self.entries.insert(i, (key, id));
            self.contents = Ghost(self.contents@.insert(k, id));
            proof {
                let e2 = self.entries@;
                assert forall|j: int| 0 <= j < e2.len() implies (j < i ==> #[trigger] e2[j]
                    == e[j]) && (j == i ==> e2[j].0@ == k) && (j > i ==> e2[j] == e[j - 1]) by {}
                assert forall|a: int, b: int| 0 <= a < b < e2.len() implies seq_lt(
                    #[trigger] e2[a].0@,
                    #[trigger] e2[b].0@,
                ) by {
                    if b == i {
                    } else if a == i {
                        if b - 1 > i {
                            lemma_lt_transitive(k, e[i as int].0@, e[b - 1].0@);
                        }
                    } else if a < i && b > i {
                        assert(seq_lt(e[a].0@, k));
                        lemma_lt_transitive(e[a].0@, k, e[i as int].0@);
                        if b - 1 > i {
                            lemma_lt_transitive(e[a].0@, e[i as int].0@, e[b - 1].0@);
                        }
                    } else if a > i {
                        assert(seq_lt(e[a - 1].0@, e[b - 1].0@));
                    } else {
                        assert(seq_lt(e[a].0@, e[b].0@));
                    }
                }
                assert forall|j: int| 0 <= j < e2.len() implies self.contents@.contains_key(
                    #[trigger] e2[j].0@,
                ) && self.contents@[e2[j].0@] == e2[j].1 by {
                    if j < i {
                        lemma_lt_irreflexive(k);
                        assert(seq_lt(e[j].0@, k));
                    } else if j > i {
                        lemma_lt_irreflexive(k);
                        if j - 1 > i {
                            lemma_lt_transitive(k, e[i as int].0@, e[j - 1].0@);
                        }
                    }
                }
                assert forall|kk: Seq<char>| #[trigger] self.contents@.contains_key(kk)
                    implies exists|j: int| 0 <= j < e2.len() && (#[trigger] e2[j].0@) == kk by {
                    if kk != k {
                        let j = choose|j: int| 0 <= j < e.len() && (#[trigger] e[j].0@) == kk;
                        if j < i {
                            assert(e2[j].0@ == kk);
                        } else {
                            assert(e2[j + 1].0@ == kk);
                        }
                    } else {
                        assert(e2[i as int].0@ == kk);
                    }
                }
            }
        }
    }

    /// Drops `key`, returning the id it held.
    pub fn remove(&mut self, key: &String) -> (r: Option<u64>)
        requires
            old(self).wf(),
        ensures
            final(self).wf(),
            final(self)@ == old(self)@.remove(key@),
            r == (if old(self)@.contains_key(key@) {
                Some(old(self)@[key@])
            } else {
                None
            }),
    {
        let mut i: usize = 0;
        while i < self.entries.len()
            invariant
                self.wf(),
                *self == *old(self),
                i <= self.entries@.len(),
                forall|j: int| 0 <= j < i ==> (#[trigger] self.entries@[j]).0@ != key@,
            decreases self.entries@.len() - i,
        {
            if self.entries[i].0.eq(key) {
                proof {
                    self.lemma_keys_unique();
                }
                let ghost e = self.entries@;
                let ghost old_map = self.contents@;
                let (_, id) = self.entries.remove(i);
                self.contents = Ghost(self.contents@.remove(key@));
                proof {
                    let e2 = self.entries@;
                    assert forall|j: int| 0 <= j < e2.len() implies #[trigger] e2[j] == if j < i {
                        e[j]
                    } else {
                        e[j + 1]
                    } by {}
                    assert forall|a: int, b: int| 0 <= a < b < e2.len() implies seq_lt(
                        #[trigger] e2[a].0@,
                        #[trigger] e2[b].0@,
                    ) by {
                        let a0 = if a < i { a } else { a + 1 };
                        let b0 = if b < i { b } else { b + 1 };
                        assert(seq_lt(e[a0].0@, e[b0].0@));
                    }
                    assert forall|j: int| 0 <= j < e2.len() implies self.contents@.contains_key(
                        #[trigger] e2[j].0@,
                    ) && self.contents@[e2[j].0@] == e2[j].1 by {
                        let j0 = if j < i { j } else { j + 1 };
                        assert(e[j0].0@ != e[i as int].0@);
                    }
                    assert forall|kk: Seq<char>| #[trigger] self.contents@.contains_key(kk)
                        implies exists|j: int| 0 <= j < e2.len() && (#[trigger] e2[j].0@) == kk by {
                        let j = choose|j: int| 0 <= j < e.len() && (#[trigger] e[j].0@) == kk;
                        if j < i {
                            assert(e2[j].0@ == kk);
                        } else {
                            assert(e2[j - 1].0@ == kk);
                        }
                    }
                }
                return Some(id);
            }
            i = i + 1;
        }
        proof {
            assert(self.contents@.remove(key@) =~= self.contents@);
        }
        None
    }
}

/// `k` is the key of some entry of `s`.
pub open spec fn has_key(s: Seq<(Seq<char>, u64)>, k: Seq<char>) -> bool {
    exists|i: int| 0 <= i < s.len() && (#[trigger] s[i]).0 == k
}

/// Keys strictly ascending.
pub open spec fn keys_ascending(s: Seq<(Seq<char>, u64)>) -> bool {
    forall|i: int, j: int| 0 <= i < j < s.len() ==> seq_lt(#[trigger] s[i].0, #[trigger] s[j].0)
}

/// Two key-sorted entry lists with the same keys, each key with the same id, are equal.
pub proof fn lemma_sorted_entries_unique(s: Seq<(Seq<char>, u64)>, t: Seq<(Seq<char>, u64)>, m: Map<Seq<char>, u64>)
    requires
        keys_ascending(s),
        keys_ascending(t),
        forall|k: Seq<char>| has_key(s, k) <==> has_key(t, k),
        forall|i: int| 0 <= i < s.len() ==> m.contains_key((#[trigger] s[i]).0) && m[s[i].0] == s[i].1,
        forall|i: int| 0 <= i < t.len() ==> m.contains_key((#[trigger] t[i]).0) && m[t[i].0] == t[i].1,
    ensures
        s == t,
    decreases s.len(),
{
    if s.len() == 0 {
        if t.len() > 0 {
            assert(has_key(t, t[0].0));
        }
        assert(s =~= t);
    } else {
        assert(has_key(s, s[0].0));
        let j = choose|j: int| 0 <= j < t.len() && (#[trigger] t[j]).0 == s[0].0;
        if j > 0 {
            assert(seq_lt(t[0].0, t[j].0));
            assert(has_key(t, t[0].0));
            let k = choose|k: int| 0 <= k < s.len() && (#[trigger] s[k]).0 == t[0].0;
            if k == 0 {
                lemma_lt_irreflexive(t[0].0);
            } else {
                assert(seq_lt(s[0].0, s[k].0));
                lemma_lt_asymmetric(s[0].0, t[0].0);
            }
        }
        assert(s[0] == t[0]);
        let s1 = s.skip(1);
        let t1 = t.skip(1);
        assert forall|k: Seq<char>| has_key(s1, k) <==> has_key(t1, k) by {
            if has_key(s1, k) {
                let i = choose|i: int| 0 <= i < s1.len() && (#[trigger] s1[i]).0 == k;
                assert(s[i + 1].0 == k);
                assert(seq_lt(s[0].0, s[i + 1].0));
                lemma_lt_irreflexive(k);
                assert(has_key(t, k));
                let jj = choose|jj: int| 0 <= jj < t.len() && (#[trigger] t[jj]).0 == k;
                assert(jj != 0);
                assert(t1[jj - 1].0 == k);
            }
            if has_key(t1, k) {
                let i = choose|i: int| 0 <= i < t1.len() && (#[trigger] t1[i]).0 == k;
                assert(t[i + 1].0 == k);
                assert(seq_lt(t[0].0, t[i + 1].0));
                lemma_lt_irreflexive(k);
                assert(has_key(s, k));
                let jj = choose|jj: int| 0 <= jj < s.len() && (#[trigger] s[jj]).0 == k;
                assert(jj != 0);
                assert(s1[jj - 1].0 == k);
            }
        }
        assert forall|i: int, j2: int| 0 <= i < j2 < s1.len() implies seq_lt(#[trigger] s1[i].0, #[trigger] s1[j2].0) by {
            assert(seq_lt(s[i + 1].0, s[j2 + 1].0));
        }
        assert forall|i: int, j2: int| 0 <= i < j2 < t1.len() implies seq_lt(#[trigger] t1[i].0, #[trigger] t1[j2].0) by {
            assert(seq_lt(t[i + 1].0, t[j2 + 1].0));
        }
        assert forall|i: int| 0 <= i < s1.len() implies m.contains_key((#[trigger] s1[i]).0) && m[s1[i].0] == s1[i].1 by {
            assert(s1[i] == s[i + 1]);
        }
        assert forall|i: int| 0 <= i < t1.len() implies m.contains_key((#[trigger] t1[i]).0) && m[t1[i].0] == t1[i].1 by {
            assert(t1[i] == t[i + 1]);
        }
        lemma_sorted_entries_unique(s1, t1, m);
        assert(s =~= seq![s[0]] + s1);
        assert(t =~= seq![t[0]] + t1);
    }
}

impl ChildMap {
    /// Walking two child maps with the same contents visits the same keys and ids in the
    /// same order, whatever order they were filled in: what is generated from a tree
    /// depends on its contents only.
    pub proof fn lemma_walk_determined(&self, other: &ChildMap)
        requires
            self.wf(),
            other.wf(),
            self@ == other@,
        ensures
            self.sorted_view() == other.sorted_view(),
    {
        self.lemma_sorted_view();
        other.lemma_sorted_view();
        let s = self.sorted_view();
        let t = other.sorted_view();
        assert forall|k: Seq<char>| has_key(s, k) <==> has_key(t, k) by {
            if has_key(s, k) {
                let i = choose|i: int| 0 <= i < s.len() && (#[trigger] s[i]).0 == k;
                assert(self@.contains_key(s[i].0));
            }
            if has_key(t, k) {
                let i = choose|i: int| 0 <= i < t.len() && (#[trigger] t[i]).0 == k;
                assert(other@.contains_key(t[i].0));
            }
        }
        lemma_sorted_entries_unique(s, t, self@);
    }
}

} // verus!
