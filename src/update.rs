//! What a plugin returns for the generated file: imports, arguments and content, and
//! how two such records merge.
use vstd::prelude::*;
use vstd::string::*;

use crate::node::DenskyError;

verus! {

/// A mapping from text keys to text values that keeps its keys in insertion order.
pub struct TextMap {
    entries: Vec<(String, String)>,
    contents: Ghost<Map<Seq<char>, Seq<char>>>,
}

impl View for TextMap {
    type V = Map<Seq<char>, Seq<char>>;

    closed spec fn view(&self) -> Map<Seq<char>, Seq<char>> {
        self.contents@
    }
}

impl TextMap {
    /// Keys unique, and the entries list exactly the mapping.
    pub closed spec fn wf(&self) -> bool {
        let e = self.entries@;
        &&& forall|i: int, j: int|
            0 <= i < e.len() && 0 <= j < e.len() && i != j ==> (#[trigger] e[i]).0@ != (#[trigger] e[j]).0@
        &&& forall|i: int|
            0 <= i < e.len() ==> self.contents@.contains_key(#[trigger] e[i].0@) && self.contents@[e[i].0@]
                == e[i].1@
        &&& forall|k: Seq<char>|
            #[trigger] self.contents@.contains_key(k) ==> exists|i: int|
                0 <= i < e.len() && (#[trigger] e[i].0@) == k
    }

    /// The entries in insertion order.
    pub closed spec fn entry_view(&self) -> Seq<(Seq<char>, Seq<char>)> {
        self.entries@.map_values(|e: (String, String)| (e.0@, e.1@))
    }

    pub fn new() -> (r: TextMap)
        ensures
            r.wf(),
            r@ == Map::<Seq<char>, Seq<char>>::empty(),
    {
        TextMap { entries: Vec::new(), contents: Ghost(Map::empty()) }
    }

    /// How many keys it holds.
    pub fn len(&self) -> (r: usize)
        requires
            self.wf(),
        ensures
            r == self.entry_view().len(),
    {
        self.entries.len()
    }

    /// The `i`-th entry in insertion order.
    pub fn entry(&self, i: usize) -> (r: (&String, &String))
        requires
            self.wf(),
            i < self.entry_view().len(),
        ensures
            r.0@ == self.entry_view()[i as int].0,
            r.1@ == self.entry_view()[i as int].1,
            self@.contains_key(r.0@),
            self@[r.0@] == r.1@,
    {
        (&self.entries[i].0, &self.entries[i].1)
    }

    fn find(&self, key: &String) -> (r: Option<usize>)
        requires
            self.wf(),
        ensures
            r matches Some(i) ==> i < self.entries@.len() && self.entries@[i as int].0@ == key@,
            r is None ==> !self@.contains_key(key@),
    {
        let mut i: usize = 0;
        while i < self.entries.len()
            invariant
                self.wf(),
                i <= self.entries@.len(),
                forall|j: int| 0 <= j < i ==> (#[trigger] self.entries@[j]).0@ != key@,
            decreases self.entries@.len() - i,
        {
            if self.entries[i].0.eq(key) {
                return Some(i);
            }
            i = i + 1;
        }
        None
    }

    /// The value under `key`.
    pub fn get(&self, key: &String) -> (r: Option<&String>)
        requires
            self.wf(),
        ensures
            r matches Some(v) ==> self@.contains_key(key@) && self@[key@] == v@,
            r is None ==> !self@.contains_key(key@),
    {
        match self.find(key) {
            Some(i) => Some(&self.entries[i].1),
            None => None,
        }
    }

    /// Sets `key` to `value`.
    pub fn insert(&mut self, key: String, value: String)
        requires
            old(self).wf(),
        ensures
            final(self).wf(),
            final(self)@ == old(self)@.insert(key@, value@),
    {
        let ghost k = key@;
        let ghost v = value@;
        let ghost e = self.entries@;
        match self.find(&key) {
            Some(i) => {
                self.entries.set(i, (key, value));
                self.contents = Ghost(self.contents@.insert(k, v));
                proof {
                    let e2 = self.entries@;
                    assert forall|a: int| 0 <= a < e2.len() implies self.contents@.contains_key(
                        #[trigger] e2[a].0@,
                    ) && self.contents@[e2[a].0@] == e2[a].1@ by {
                        if a != i {
                            assert(e[a].0@ != e[i as int].0@);
                        }
                    }
                    assert forall|kk: Seq<char>| #[trigger] self.contents@.contains_key(kk) implies exists|
                        a: int,
                    | 0 <= a < e2.len() && (#[trigger] e2[a].0@) == kk by {
                        if kk != k {
                            let a = choose|a: int| 0 <= a < e.len() && (#[trigger] e[a].0@) == kk;
                            assert(e2[a].0@ == kk);
                        } else {
                            assert(e2[i as int].0@ == kk);
                        }
                    }
                    assert forall|a: int, b: int|
                        0 <= a < e2.len() && 0 <= b < e2.len() && a != b implies (#[trigger] e2[a]).0@
                        != (#[trigger] e2[b]).0@ by {
                        assert(e[a].0@ != e[b].0@);
                    }
                }
            },
            None => {
                self.entries.push((key, value));
                self.contents = Ghost(self.contents@.insert(k, v));
                proof {
                    let e2 = self.entries@;
                    assert forall|a: int| 0 <= a < e2.len() implies self.contents@.contains_key(
                        #[trigger] e2[a].0@,
                    ) && self.contents@[e2[a].0@] == e2[a].1@ by {
                        if a < e.len() {
                            assert(e2[a] == e[a]);
                        }
                    }
                    assert forall|kk: Seq<char>| #[trigger] self.contents@.contains_key(kk) implies exists|
                        a: int,
                    | 0 <= a < e2.len() && (#[trigger] e2[a].0@) == kk by {
                        if kk != k {
                            let a = choose|a: int| 0 <= a < e.len() && (#[trigger] e[a].0@) == kk;
                            assert(e2[a] == e[a]);
                        } else {
                            assert(e2[e.len() as int].0@ == kk);
                        }
                    }
                    assert forall|a: int, b: int|
                        0 <= a < e2.len() && 0 <= b < e2.len() && a != b implies (#[trigger] e2[a]).0@
                        != (#[trigger] e2[b]).0@ by {
                        if a < e.len() && b < e.len() {
                            assert(e2[a] == e[a] && e2[b] == e[b]);
                        } else if a < e.len() {
                            assert(e2[a] == e[a]);
                            assert(self.contents@.contains_key(e[a].0@));
                        } else {
                            assert(e2[b] == e[b]);
                        }
                    }
                }
            },
        }
    }
}

/// Imports, arguments and content that a plugin hands back for the generated file.
pub struct CloudManifestUpdate {
    pub arguments: TextMap,
    pub content: Option<String>,
    pub imports: TextMap,
}

/// Content after a merge: the two contents one after the other.
pub open spec fn merged_content(a: Option<Seq<char>>, b: Option<Seq<char>>) -> Option<Seq<char>> {
    match (a, b) {
        (Some(x), Some(y)) => Some(x + y),
        (Some(x), None) => Some(x),
        (None, y) => y,
    }
}

/// Imports after a merge: an import path in both gets both item lists, one after the other.
pub open spec fn merged_imports(a: Map<Seq<char>, Seq<char>>, b: Map<Seq<char>, Seq<char>>) -> Map<
    Seq<char>,
    Seq<char>,
> {
    Map::new(
        |k: Seq<char>| a.contains_key(k) || b.contains_key(k),
        |k: Seq<char>|
            if a.contains_key(k) && b.contains_key(k) {
                a[k] + b[k]
            } else if a.contains_key(k) {
                a[k]
            } else {
                b[k]
            },
    )
}

/// Two argument sets conflict when they declare one name with different types.
pub open spec fn arguments_conflict(a: Map<Seq<char>, Seq<char>>, b: Map<Seq<char>, Seq<char>>) -> bool {
    exists|k: Seq<char>| a.contains_key(k) && b.contains_key(k) && a[k] != b[k]
}

pub open spec fn opt_view(o: Option<String>) -> Option<Seq<char>> {
    match o {
        Some(s) => Some(s@),
        None => None,
    }
}

impl CloudManifestUpdate {
    pub open spec fn wf(&self) -> bool {
        self.arguments.wf() && self.imports.wf()
    }

    /// An empty record.
    pub fn new() -> (r: CloudManifestUpdate)
        ensures
            r.wf(),
            r.arguments@ == Map::<Seq<char>, Seq<char>>::empty(),
            r.imports@ == Map::<Seq<char>, Seq<char>>::empty(),
            r.content is None,
    {
        CloudManifestUpdate { arguments: TextMap::new(), content: None, imports: TextMap::new() }
    }

    /// A record with only `content`.
    pub fn new_content(content: String) -> (r: CloudManifestUpdate)
        ensures
            r.wf(),
            r.arguments@ == Map::<Seq<char>, Seq<char>>::empty(),
            r.imports@ == Map::<Seq<char>, Seq<char>>::empty(),
            r.content == Some(content),
    {
        CloudManifestUpdate { arguments: TextMap::new(), content: Some(content), imports: TextMap::new() }
    }

    /// The record with its content replaced.
    pub fn set_content(self, content: String) -> (r: CloudManifestUpdate)
        ensures
            r.arguments == self.arguments,
            r.imports == self.imports,
            r.content == Some(content),
    {
        let mut r = self;
        r.content = Some(content);
        r
    }

    /// The record with `content` added at the end of its content.
    pub fn append_content(self, content: &str) -> (r: CloudManifestUpdate)
        ensures
            r.arguments == self.arguments,
            r.imports == self.imports,
            opt_view(r.content) == merged_content(opt_view(self.content), Some(content@)),
    {
        let mut r = self;
        r.content = match r.content {
            Some(c) => Some(c.concat(content)),
            None => Some(String::from_str(content)),
        };
        r
    }

    /// The record with `items` imported from `path`.
    pub fn add_import(self, items: String, path: String) -> (r: CloudManifestUpdate)
        requires
            self.wf(),
        ensures
            r.wf(),
            r.arguments == self.arguments,
            r.imports@ == self.imports@.insert(path@, items@),
            r.content == self.content,
    {
        let mut r = self;
        r.imports.insert(path, items);
        r
    }

    /// The record with the argument `name` of type `def`.
    pub fn add_argument(self, name: String, def: String) -> (r: CloudManifestUpdate)
        requires
            self.wf(),
        ensures
            r.wf(),
            r.arguments@ == self.arguments@.insert(name@, def@),
            r.imports == self.imports,
            r.content == self.content,
    {
        let mut r = self;
        r.arguments.insert(name, def);
        r
    }

    pub fn arguments(&self) -> (r: &TextMap)
        ensures
            r == &self.arguments,
    {
        &self.arguments
    }

    pub fn content(&self) -> (r: Option<&String>)
        ensures
            r matches Some(c) ==> self.content == Some(*c),
            r is None ==> self.content is None,
    {
        self.content.as_ref()
    }

    pub fn imports(&self) -> (r: &TextMap)
        ensures
            r == &self.imports,
    {
        &self.imports
    }

    /// Adds `rhs` into this record: import items of one path are joined, arguments are
    /// united, and contents joined. `ArgumentConflict`, and no change, when the two
    /// declare one argument with different types.
    pub fn merge(&mut self, rhs: &CloudManifestUpdate) -> (r: Result<(), DenskyError>)
        requires
            old(self).wf(),
            rhs.wf(),
        ensures
            final(self).wf(),
            r is Err <==> arguments_conflict(old(self).arguments@, rhs.arguments@),
            r is Err ==> r == Err::<(), DenskyError>(DenskyError::ArgumentConflict) && *final(self) == *old(self),
            r is Ok ==> final(self).arguments@ == old(self).arguments@.union_prefer_right(rhs.arguments@)
                && final(self).imports@ == merged_imports(old(self).imports@, rhs.imports@)
                && opt_view(final(self).content) == merged_content(opt_view(old(self).content), opt_view(rhs.content)),
    {
        let n = rhs.arguments.len();
        let mut i: usize = 0;
        while i < n
            invariant
                self.wf(),
                rhs.wf(),
                n == rhs.arguments.entry_view().len(),
                *self == *old(self),
                i <= n,
                forall|j: int|
                    0 <= j < i ==> {
                        let k = #[trigger] rhs.arguments.entry_view()[j].0;
                        self.arguments@.contains_key(k) ==> self.arguments@[k] == rhs.arguments@[k]
                    },
            decreases n - i,
        {
            let (name, def) = rhs.arguments.entry(i);
            match self.arguments.get(name) {
                Some(old_def) => {
                    if !old_def.eq(def) {
                        return Err(DenskyError::ArgumentConflict);
                    }
                },
                None => {},
            }
            i = i + 1;
        }
        proof {
            assert forall|k: Seq<char>| !(self.arguments@.contains_key(k) && rhs.arguments@.contains_key(k)
                && self.arguments@[k] != rhs.arguments@[k]) by {
                if rhs.arguments@.contains_key(k) {
                    let j = rhs.arguments.lemma_index_of(k);
                }
            }
        }
        let ghost args0 = self.arguments@;
        let mut a: usize = 0;
        while a < n
            invariant
                self.wf(),
                rhs.wf(),
                n == rhs.arguments.entry_view().len(),
                self.imports == old(self).imports,
                self.content == old(self).content,
                args0 == old(self).arguments@,
                a <= n,
                forall|k: Seq<char>| #[trigger] self.arguments@.contains_key(k) <==> args0.contains_key(k)
                    || exists|j: int| 0 <= j < a && rhs.arguments.entry_view()[j].0 == k,
                forall|k: Seq<char>| #[trigger] self.arguments@.contains_key(k) ==> self.arguments@[k] == if rhs.arguments@.contains_key(k) && exists|j: int| 0 <= j < a && rhs.arguments.entry_view()[j].0 == k {
                    rhs.arguments@[k]
                } else {
                    args0[k]
                },
                forall|k: Seq<char>| args0.contains_key(k) && rhs.arguments@.contains_key(k) ==> args0[k] == rhs.arguments@[k],
            decreases n - a,
        {
            let (name, def) = rhs.arguments.entry(a);
            self.arguments.insert(name.clone(), def.clone());
            a = a + 1;
        }
        proof {
            assert forall|k: Seq<char>| rhs.arguments@.contains_key(k) implies exists|j: int| 0 <= j < n && rhs.arguments.entry_view()[j].0 == k by {
                let j = rhs.arguments.lemma_index_of(k);
            }
            assert(self.arguments@ =~= args0.union_prefer_right(rhs.arguments@));
        }
        let ghost imp0 = self.imports@;
        let m = rhs.imports.len();
        let mut b: usize = 0;
        while b < m
            invariant
                self.wf(),
                rhs.wf(),
                self.arguments@ == args0.union_prefer_right(rhs.arguments@),
                m == rhs.imports.entry_view().len(),
                self.content == old(self).content,
                imp0 == old(self).imports@,
                b <= m,
                self.imports@ == merged_imports(imp0, rhs.imports.prefix_map(b as int)),
            decreases m - b,
        {
            let (path, items) = rhs.imports.entry(b);
            let joined = match self.imports.get(path) {
                Some(cur) => cur.clone().concat(items.as_str()),
                None => items.clone(),
            };
            self.imports.insert(path.clone(), joined);
            proof {
                rhs.imports.lemma_prefix_map_step(b as int);
                assert(self.imports@ =~= merged_imports(imp0, rhs.imports.prefix_map(b + 1)));
            }
            b = b + 1;
        }
        proof {
            rhs.imports.lemma_prefix_map_full();
        }
        let more = match &rhs.content {
            Some(c) => Some(c.clone()),
            None => None,
        };
        self.content = match (self.content.take(), more) {
            (Some(x), Some(y)) => Some(x.concat(y.as_str())),
            (Some(x), None) => Some(x),
            (None, y) => y,
        };
        Ok(())
    }
}

impl TextMap {
    /// The mapping made of the first `n` entries.
    pub closed spec fn prefix_map(&self, n: int) -> Map<Seq<char>, Seq<char>> {
        Map::new(
            |k: Seq<char>| exists|j: int| 0 <= j < n && j < self.entries@.len() && self.entries@[j].0@ == k,
            |k: Seq<char>| self.contents@[k],
        )
    }

    proof fn lemma_index_of(&self, k: Seq<char>) -> (j: int)
        requires
            self.wf(),
            self@.contains_key(k),
        ensures
            0 <= j < self.entry_view().len(),
            self.entry_view()[j].0 == k,
    {
        let e = self.entries@;
        let j = choose|j: int| 0 <= j < e.len() && (#[trigger] e[j].0@) == k;
        j
    }

    proof fn lemma_prefix_map_step(&self, b: int)
        requires
            self.wf(),
            0 <= b < self.entry_view().len(),
        ensures
            self.prefix_map(b + 1) == self.prefix_map(b).insert(
                self.entry_view()[b].0,
                self.entry_view()[b].1,
            ),
    {
        let e = self.entries@;
        assert(self.contents@[e[b].0@] == e[b].1@);
        assert forall|k: Seq<char>| #[trigger] self.prefix_map(b + 1).contains_key(k) <==> self.prefix_map(
            b,
        ).insert(e[b].0@, e[b].1@).contains_key(k) by {
            if self.prefix_map(b + 1).contains_key(k) {
                let j = choose|j: int| 0 <= j < b + 1 && j < e.len() && e[j].0@ == k;
                if j < b {
                    assert(self.prefix_map(b).contains_key(k));
                }
            }
            if self.prefix_map(b).contains_key(k) {
                let j = choose|j: int| 0 <= j < b && j < e.len() && e[j].0@ == k;
                assert(0 <= j < b + 1 && j < e.len() && e[j].0@ == k);
            }
        }
        assert(self.prefix_map(b + 1) =~= self.prefix_map(b).insert(e[b].0@, e[b].1@));
    }

    proof fn lemma_prefix_map_full(&self)
        requires
            self.wf(),
        ensures
            self.prefix_map(self.entry_view().len() as int) == self@,
    {
        let e = self.entries@;
        let n = e.len() as int;
        assert forall|k: Seq<char>| #[trigger] self.prefix_map(n).contains_key(k) <==> self@.contains_key(k) by {
            if self@.contains_key(k) {
                let j = choose|j: int| 0 <= j < e.len() && (#[trigger] e[j].0@) == k;
                assert(0 <= j < n && j < e.len() && e[j].0@ == k);
            }
            if self.prefix_map(n).contains_key(k) {
                let j = choose|j: int| 0 <= j < n && j < e.len() && e[j].0@ == k;
                assert(self.contents@.contains_key(e[j].0@));
            }
        }
        assert(self.prefix_map(n) =~= self@);
    }
}

} // verus!
