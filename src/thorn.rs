//! The thorn index: named markers (middleware, fallback, ...) bound to directory paths.
use vstd::prelude::*;
use vstd::string::*;

use crate::path::to_chars;

verus! {

/// The prefixes of `p` cut just before each slash at an index below `i`, longest first.
pub open spec fn cuts_below(p: Seq<char>, i: int) -> Seq<Seq<char>>
    decreases i,
{
    if i <= 0 {
        Seq::empty()
    } else if p[i - 1] == '/' {
        seq![p.take(i - 1)] + cuts_below(p, i - 1)
    } else {
        cuts_below(p, i - 1)
    }
}

/// `p` followed by its ancestors: each prefix cut before a slash, longest first, and
/// last the root, the empty path (listed once).
pub open spec fn ancestors(p: Seq<char>) -> Seq<Seq<char>> {
    if p.len() == 0 {
        seq![p]
    } else if p[0] == '/' {
        seq![p] + cuts_below(p, p.len() as int)
    } else {
        seq![p] + cuts_below(p, p.len() as int) + seq![Seq::<char>::empty()]
    }
}

/// The ids bound under `name` on the paths of `paths`, in the order of `paths`,
/// skipping paths that hold no such binding.
pub open spec fn found_on(
    m: Map<(Seq<char>, Seq<char>), u64>,
    name: Seq<char>,
    paths: Seq<Seq<char>>,
) -> Seq<u64>
    decreases paths.len(),
{
    if paths.len() == 0 {
        Seq::empty()
    } else {
        let rest = found_on(m, name, paths.skip(1));
        if m.contains_key((paths[0], name)) {
            seq![m[(paths[0], name)]] + rest
        } else {
            rest
        }
    }
}

/// One marker file bound to a directory path.
pub struct ThornBinding {
    pub path: String,
    pub name: String,
    pub node: u64,
}

/// Thorns by directory path and name. A single thorn is unique per path and name; a
/// multi thorn may repeat, and keeps the order in which it was added.
pub struct SingleThornContainer {
    inner: Vec<ThornBinding>,
    multi: Vec<ThornBinding>,
    bound: Ghost<Map<(Seq<char>, Seq<char>), u64>>,
}

impl View for SingleThornContainer {
    type V = Map<(Seq<char>, Seq<char>), u64>;

    /// The single thorns: `(path, name)` to node id.
    closed spec fn view(&self) -> Map<(Seq<char>, Seq<char>), u64> {
        self.bound@
    }
}

impl SingleThornContainer {
    pub closed spec fn wf(&self) -> bool {
        let e = self.inner@;
        &&& forall|i: int|
            0 <= i < e.len() ==> self.bound@.contains_key((#[trigger] e[i].path@, e[i].name@))
                && self.bound@[(e[i].path@, e[i].name@)] == e[i].node
        &&& forall|k: (Seq<char>, Seq<char>)|
            #[trigger] self.bound@.contains_key(k) ==> exists|i: int|
                0 <= i < e.len() && (#[trigger] e[i].path@, e[i].name@) == k
    }

    /// The multi thorns, in the order they were added: `(path, name, node)`.
    pub closed spec fn multi_view(&self) -> Seq<(Seq<char>, Seq<char>, u64)> {
        self.multi@.map_values(|b: ThornBinding| (b.path@, b.name@, b.node))
    }

    pub fn new() -> (r: Self)
        ensures
            r.wf(),
            r@ == Map::<(Seq<char>, Seq<char>), u64>::empty(),
            r.multi_view() == Seq::<(Seq<char>, Seq<char>, u64)>::empty(),
    {
        let r = SingleThornContainer { inner: Vec::new(), multi: Vec::new(), bound: Ghost(Map::empty()) };
        assert(r.multi_view() =~= Seq::<(Seq<char>, Seq<char>, u64)>::empty());
        r
    }

    /// The single thorn `name` bound on exactly `path`.
    pub fn get(&self, name: &String, path: &String) -> (r: Option<u64>)
        requires
            self.wf(),
        ensures
            r == (if self@.contains_key((path@, name@)) {
                Some(self@[(path@, name@)])
            } else {
                None
            }),
    {
        let mut i: usize = 0;
        while i < self.inner.len()
            invariant
                self.wf(),
                i <= self.inner@.len(),
                forall|j: int|
                    0 <= j < i ==> (#[trigger] self.inner@[j].path@, self.inner@[j].name@) != (
                        path@,
                        name@,
                    ),
            decreases self.inner@.len() - i,
        {
            if self.inner[i].path.eq(path) && self.inner[i].name.eq(name) {
                return Some(self.inner[i].node);
            }
            i = i + 1;
        }
        None
    }

    /// Whether `path` holds the single thorn `name`.
    pub fn has(&self, name: &String, path: &String) -> (r: bool)
        requires
            self.wf(),
        ensures
            r == self@.contains_key((path@, name@)),
    {
        self.get(name, path).is_some()
    }

    /// Binds the single thorn `name` on `path` to `node`. Returns `false`, and changes
    /// nothing, when `path` already holds a thorn of that name.
    pub fn insert(&mut self, name: String, path: String, node: u64) -> (r: bool)
        requires
            old(self).wf(),
        ensures
            final(self).wf(),
            r == !old(self)@.contains_key((path@, name@)),
            r ==> final(self)@ == old(self)@.insert((path@, name@), node),
            !r ==> *final(self) == *old(self),
            final(self).multi_view() == old(self).multi_view(),
    {
        if self.has(&name, &path) {
            return false;
        }
        let ghost k = (path@, name@);
        let ghost e = self.inner@;
        self.inner.push(ThornBinding { path, name, node });
        self.bound = Ghost(self.bound@.insert(k, node));
        proof {
            let e2 = self.inner@;
            assert forall|i: int| 0 <= i < e2.len() implies self.bound@.contains_key(
                (#[trigger] e2[i].path@, e2[i].name@),
            ) && self.bound@[(e2[i].path@, e2[i].name@)] == e2[i].node by {
                if i < e.len() {
                    assert(e2[i] == e[i]);
                }
            }
            assert forall|kk: (Seq<char>, Seq<char>)| #[trigger] self.bound@.contains_key(kk)
                implies exists|i: int| 0 <= i < e2.len() && (#[trigger] e2[i].path@, e2[i].name@)
                == kk by {
                if kk == k {
                    assert(e2[e.len() as int].path@ == k.0);
                } else {
                    let i = choose|i: int| 0 <= i < e.len() && (#[trigger] e[i].path@, e[i].name@) == kk;
                    assert(e2[i] == e[i]);
                }
            }
        }
        true
    }

    /// Appends the multi thorn `name` on `path`.
    pub fn insert_multi(&mut self, name: String, path: String, node: u64)
        requires
            old(self).wf(),
        ensures
            final(self).wf(),
            final(self)@ == old(self)@,
            final(self).multi_view() == old(self).multi_view().push((path@, name@, node)),
    {
        let ghost k = (path@, name@, node);
        self.multi.push(ThornBinding { path, name, node });
        assert(self.inner@ == old(self).inner@);
        assert(self.multi_view() =~= old(self).multi_view().push(k));
    }

    /// Every single thorn `name` on `path` and on its ancestors, from `path` outward to
    /// the root; an ancestor without one is skipped.
    pub fn get_all(&self, name: &String, path: &String) -> (r: Vec<u64>)
        requires
            self.wf(),
        ensures
            r@ == found_on(self@, name@, ancestors(path@)),
    {
        let ghost m = self@;
        let ghost p = path@;
        let mut out: Vec<u64> = Vec::new();
        if let Some(id) = self.get(name, path) {
            out.push(id);
        }
        let c = to_chars(path.as_str());
        let n = c.len();
        let mut i: usize = n;
        proof {
            lemma_found_on_cons(m, name@, p, cuts_below(p, n as int));
        }
        while i > 0
            invariant
                self.wf(),
                m == self@,
                p == path@,
                c@ == p,
                n == p.len(),
                i <= n,
                out@ + found_on(m, name@, cuts_below(p, i as int)) == found_on(
                    m,
                    name@,
                    seq![p] + cuts_below(p, n as int),
                ),
            decreases i,
        {
            if c[i - 1] == '/' {
                let q = String::from_str(path.as_str().substring_char(0, i - 1));
                proof {
                    lemma_found_on_cons(m, name@, q@, cuts_below(p, i - 1));
                }
                if let Some(id) = self.get(name, &q) {
                    let ghost before = out@;
                    out.push(id);
                    assert(out@ + found_on(m, name@, cuts_below(p, i - 1)) =~= before + (seq![id]
                        + found_on(m, name@, cuts_below(p, i - 1))));
                }
            }
            i = i - 1;
        }
        assert(found_on(m, name@, cuts_below(p, 0)) =~= Seq::<u64>::empty());
        assert(out@ =~= found_on(m, name@, seq![p] + cuts_below(p, n as int)));
        if n > 0 && c[0] != '/' {
            let root = String::new();
            proof {
                lemma_found_on_append(m, name@, seq![p] + cuts_below(p, n as int), seq![root@]);
                lemma_found_on_cons(m, name@, root@, Seq::empty());
                assert(found_on(m, name@, Seq::<Seq<char>>::empty()) =~= Seq::<u64>::empty());
            }
            if let Some(id) = self.get(name, &root) {
                out.push(id);
            }
            assert(root@ =~= Seq::<char>::empty());
        }
        out
    }
}

pub proof fn lemma_found_on_cons(
    m: Map<(Seq<char>, Seq<char>), u64>,
    name: Seq<char>,
    x: Seq<char>,
    rest: Seq<Seq<char>>,
)
    ensures
        found_on(m, name, seq![x] + rest) == (if m.contains_key((x, name)) {
            seq![m[(x, name)]] + found_on(m, name, rest)
        } else {
            found_on(m, name, rest)
        }),
{
    assert((seq![x] + rest).skip(1) =~= rest);
    assert((seq![x] + rest)[0] == x);
}

pub proof fn lemma_found_on_append(
    m: Map<(Seq<char>, Seq<char>), u64>,
    name: Seq<char>,
    a: Seq<Seq<char>>,
    b: Seq<Seq<char>>,
)
    ensures
        found_on(m, name, a + b) == found_on(m, name, a) + found_on(m, name, b),
    decreases a.len(),
{
    if a.len() == 0 {
        assert(a + b =~= b);
        assert(found_on(m, name, a) =~= Seq::<u64>::empty());
        assert(Seq::<u64>::empty() + found_on(m, name, b) =~= found_on(m, name, b));
    } else {
        lemma_found_on_append(m, name, a.skip(1), b);
        assert((a + b).skip(1) =~= a.skip(1) + b);
        assert((a + b)[0] == a[0]);
        let fa = found_on(m, name, a.skip(1));
        let fb = found_on(m, name, b);
        if m.contains_key((a[0], name)) {
            assert(seq![m[(a[0], name)]] + (fa + fb) =~= (seq![m[(a[0], name)]] + fa) + fb);
        }
    }
}

impl SingleThornContainer {
    /// Every name with a single thorn on `path` or on one of its ancestors, each once,
    /// with its thorns from `path` outward (as [`SingleThornContainer::get_all`] gives them).
    pub fn get_all_of(&self, path: &String) -> (r: Vec<(String, Vec<u64>)>)
        requires
            self.wf(),
        ensures
            forall|i: int|
                0 <= i < r@.len() ==> (#[trigger] r@[i]).1@ == found_on(
                    self@,
                    r@[i].0@,
                    ancestors(path@),
                ) && r@[i].1@.len() > 0,
            forall|i: int, j: int|
                0 <= i < j < r@.len() ==> (#[trigger] r@[i]).0@ != (#[trigger] r@[j]).0@,
            forall|n: Seq<char>|
                found_on(self@, n, ancestors(path@)).len() > 0 ==> exists|i: int|
                    0 <= i < r@.len() && (#[trigger] r@[i]).0@ == n,
    {
        let mut out: Vec<(String, Vec<u64>)> = Vec::new();
        let mut i: usize = 0;
        while i < self.inner.len()
            invariant
                self.wf(),
                i <= self.inner@.len(),
                forall|k: int|
                    0 <= k < out@.len() ==> (#[trigger] out@[k]).1@ == found_on(
                        self@,
                        out@[k].0@,
                        ancestors(path@),
                    ) && out@[k].1@.len() > 0,
                forall|a: int, b: int|
                    0 <= a < b < out@.len() ==> (#[trigger] out@[a]).0@ != (#[trigger] out@[b]).0@,
                forall|j: int|
                    0 <= j < i && found_on(self@, (#[trigger] self.inner@[j]).name@, ancestors(path@)).len()
                        > 0 ==> exists|k: int| 0 <= k < out@.len() && (#[trigger] out@[k]).0@ == self.inner@[j].name@,
            decreases self.inner@.len() - i,
        {
            let ghost out0 = out@;
            let name = &self.inner[i].name;
            let mut seen = false;
            let mut k: usize = 0;
            while k < out.len()
                invariant
                    k <= out@.len(),
                    seen ==> exists|q: int| 0 <= q < out@.len() && (#[trigger] out@[q]).0@ == name@,
                    !seen ==> forall|q: int| 0 <= q < k ==> (#[trigger] out@[q]).0@ != name@,
                decreases out@.len() - k,
            {
                if out[k].0.eq(name) {
                    seen = true;
                }
                k = k + 1;
            }
            if !seen {
                let ids = self.get_all(name, path);
                if ids.len() > 0 {
                    out.push((name.clone(), ids));
                    proof {
                        let last = out@.len() - 1;
                        assert(out@[last].0@ == name@);
                    }
                }
            }
            proof {
                assert forall|j: int|
                    0 <= j < i + 1 && found_on(self@, (#[trigger] self.inner@[j]).name@, ancestors(path@)).len()
                        > 0 implies exists|k: int| 0 <= k < out@.len() && (#[trigger] out@[k]).0@ == self.inner@[j].name@ by {
                    if j < i {
                        let k = choose|k: int| 0 <= k < out0.len() && (#[trigger] out0[k]).0@ == self.inner@[j].name@;
                        assert(out@[k] == out0[k]);
                    } else if seen {
                    } else {
                        let last = out@.len() - 1;
                        assert(out@[last].0@ == name@);
                    }
                }
            }
            i = i + 1;
        }
        proof {
            assert forall|n: Seq<char>| found_on(self@, n, ancestors(path@)).len() > 0 implies exists|
                i: int,
            | 0 <= i < out@.len() && (#[trigger] out@[i]).0@ == n by {
                let (a, j) = lemma_found_on_witness(self@, n, ancestors(path@));
                let key = (a, n);
                assert(self.bound@.contains_key(key));
                let w = choose|w: int| 0 <= w < self.inner@.len() && (#[trigger] self.inner@[w].path@, self.inner@[w].name@) == key;
                assert(self.inner@[w].name@ == n);
            }
        }
        out
    }
}

/// A nonempty `found_on` comes from a binding of that name on one of the paths.
pub proof fn lemma_found_on_witness(
    m: Map<(Seq<char>, Seq<char>), u64>,
    name: Seq<char>,
    paths: Seq<Seq<char>>,
) -> (w: (Seq<char>, int))
    requires
        found_on(m, name, paths).len() > 0,
    ensures
        0 <= w.1 < paths.len(),
        paths[w.1] == w.0,
        m.contains_key((w.0, name)),
    decreases paths.len(),
{
    if m.contains_key((paths[0], name)) {
        (paths[0], 0)
    } else {
        let (a, j) = lemma_found_on_witness(m, name, paths.skip(1));
        (a, j + 1)
    }
}

proof fn lemma_cuts_below_shape(p: Seq<char>, i: int)
    requires
        0 <= i <= p.len(),
    ensures
        forall|k: int|
            0 <= k < cuts_below(p, i).len() ==> (#[trigger] cuts_below(p, i)[k]).len() < i
                && cuts_below(p, i)[k] == p.take(cuts_below(p, i)[k].len() as int)
                && p[cuts_below(p, i)[k].len() as int] == '/',
        forall|k1: int, k2: int|
            0 <= k1 < k2 < cuts_below(p, i).len() ==> (#[trigger] cuts_below(p, i)[k2]).len()
                < (#[trigger] cuts_below(p, i)[k1]).len(),
        forall|j: int| 0 <= j < i && p[j] == '/' ==> cuts_below(p, i).contains(#[trigger] p.take(j)),
    decreases i,
{
    if i > 0 {
        lemma_cuts_below_shape(p, i - 1);
        let rest = cuts_below(p, i - 1);
        if p[i - 1] == '/' {
            let c = cuts_below(p, i);
            assert(c == seq![p.take(i - 1)] + rest);
            assert forall|k: int| 0 <= k < c.len() implies (#[trigger] c[k]).len() < i && c[k] == p.take(
                c[k].len() as int,
            ) && p[c[k].len() as int] == '/' by {
                if k > 0 {
                    assert(c[k] == rest[k - 1]);
                }
            }
            assert forall|k1: int, k2: int| 0 <= k1 < k2 < c.len() implies (#[trigger] c[k2]).len() < (
            #[trigger] c[k1]).len() by {
                assert(c[k2] == rest[k2 - 1]);
                assert(rest[k2 - 1].len() < i - 1);
                if k1 > 0 {
                    assert(c[k1] == rest[k1 - 1]);
                } else {
                    assert(c[0] == p.take(i - 1));
                }
            }
            assert forall|j: int| 0 <= j < i && p[j] == '/' implies c.contains(#[trigger] p.take(j)) by {
                if j == i - 1 {
                    assert(c[0] == p.take(j));
                } else {
                    assert(rest.contains(p.take(j)));
                    let k = choose|k: int| 0 <= k < rest.len() && rest[k] == p.take(j);
                    assert(c[k + 1] == p.take(j));
                }
            }
        }
    }
}

/// The paths a thorn lookup visits go outward: the path itself first, then prefixes
/// of it, each shorter than the one before; every prefix cut before a slash is
/// visited, and the root last, so no ancestor is skipped.
pub proof fn lemma_ancestors_outward(p: Seq<char>)
    ensures
        ancestors(p)[0] == p,
        forall|k: int| 0 <= k < ancestors(p).len() ==> #[trigger] ancestors(p)[k] == p.take(ancestors(p)[k].len() as int),
        forall|k1: int, k2: int|
            0 <= k1 < k2 < ancestors(p).len() ==> (#[trigger] ancestors(p)[k2]).len()
                < (#[trigger] ancestors(p)[k1]).len(),
        forall|j: int| 0 <= j < p.len() && p[j] == '/' ==> ancestors(p).contains(#[trigger] p.take(j)),
        ancestors(p).contains(Seq::<char>::empty()),
{
    let n = p.len() as int;
    lemma_cuts_below_shape(p, n);
    let c = cuts_below(p, n);
    let a = ancestors(p);
    let e = Seq::<char>::empty();
    assert(p.take(n) =~= p);
    assert(p.take(0) =~= e);
    if n == 0 {
        assert(a[0] =~= e);
    } else if p[0] == '/' {
        assert(a == seq![p] + c);
        assert forall|k: int| 0 <= k < a.len() implies #[trigger] a[k] == p.take(a[k].len() as int) by {
            if k > 0 {
                assert(a[k] == c[k - 1]);
            }
        }
        assert forall|k1: int, k2: int| 0 <= k1 < k2 < a.len() implies (#[trigger] a[k2]).len() < (
        #[trigger] a[k1]).len() by {
            assert(a[k2] == c[k2 - 1]);
            if k1 > 0 {
                assert(a[k1] == c[k1 - 1]);
            }
        }
        assert forall|j: int| 0 <= j < p.len() && p[j] == '/' implies a.contains(#[trigger] p.take(j)) by {
            let k = choose|k: int| 0 <= k < c.len() && c[k] == p.take(j);
            assert(a[k + 1] == p.take(j));
        }
        assert(c.contains(p.take(0)));
        let k = choose|k: int| 0 <= k < c.len() && c[k] == p.take(0);
        assert(a[k + 1] == e);
    } else {
        assert(a == seq![p] + c + seq![e]);
        assert forall|k: int| 0 <= k < a.len() implies #[trigger] a[k] == p.take(a[k].len() as int) by {
            if 0 < k < a.len() - 1 {
                assert(a[k] == c[k - 1]);
            } else if k == a.len() - 1 {
                assert(a[k] == e);
            }
        }
        assert forall|k1: int, k2: int| 0 <= k1 < k2 < a.len() implies (#[trigger] a[k2]).len() < (
        #[trigger] a[k1]).len() by {
            if k2 < a.len() - 1 {
                assert(a[k2] == c[k2 - 1]);
                if k1 > 0 {
                    assert(a[k1] == c[k1 - 1]);
                }
            } else {
                assert(a[k2] == e);
                if k1 > 0 {
                    assert(a[k1] == c[k1 - 1]);
                    if c[k1 - 1].len() == 0 {
                        assert(p[0] == '/');
                    }
                }
            }
        }
        assert forall|j: int| 0 <= j < p.len() && p[j] == '/' implies a.contains(#[trigger] p.take(j)) by {
            let k = choose|k: int| 0 <= k < c.len() && c[k] == p.take(j);
            assert(a[k + 1] == p.take(j));
        }
        assert(a[a.len() - 1] == e);
    }
}


/// Path `p` holds some single thorn.
pub open spec fn holds_thorn(m: Map<(Seq<char>, Seq<char>), u64>, p: Seq<char>) -> bool {
    exists|n: Seq<char>| #[trigger] m.contains_key((p, n))
}

impl SingleThornContainer {
    /// The directory paths that hold a single thorn, each once.
    pub fn paths(&self) -> (r: Vec<String>)
        requires
            self.wf(),
        ensures
            forall|i: int, j: int| 0 <= i < j < r@.len() ==> (#[trigger] r@[i])@ != (#[trigger] r@[j])@,
            forall|i: int| 0 <= i < r@.len() ==> holds_thorn(self@, (#[trigger] r@[i])@),
            forall|k: (Seq<char>, Seq<char>)| #[trigger] self@.contains_key(k) ==> exists|i: int|
                0 <= i < r@.len() && (#[trigger] r@[i])@ == k.0,
    {
        let mut out: Vec<String> = Vec::new();
        let mut i: usize = 0;
        while i < self.inner.len()
            invariant
                self.wf(),
                i <= self.inner@.len(),
                forall|a: int, b: int| 0 <= a < b < out@.len() ==> (#[trigger] out@[a])@ != (#[trigger] out@[b])@,
                forall|a: int| 0 <= a < out@.len() ==> holds_thorn(self@, (#[trigger] out@[a])@),
                forall|j: int| 0 <= j < i ==> exists|a: int| 0 <= a < out@.len() && (#[trigger] out@[a])@ == (#[trigger] self.inner@[j]).path@,
            decreases self.inner@.len() - i,
        {
            let ghost out0 = out@;
            let path = &self.inner[i].path;
            let mut seen = false;
            let mut k: usize = 0;
            while k < out.len()
                invariant
                    k <= out@.len(),
                    seen ==> exists|q: int| 0 <= q < out@.len() && (#[trigger] out@[q])@ == path@,
                    !seen ==> forall|q: int| 0 <= q < k ==> (#[trigger] out@[q])@ != path@,
                decreases out@.len() - k,
            {
                if out[k].eq(path) {
                    seen = true;
                }
                k = k + 1;
            }
            if !seen {
                out.push(path.clone());
                proof {
                    let last = out@.len() - 1;
                    assert(self@.contains_key((out@[last]@, self.inner@[i as int].name@)));
                    assert forall|a: int| 0 <= a < out@.len() implies holds_thorn(self@, (#[trigger] out@[a])@) by {
                        if a < last {
                            assert(out@[a] == out0[a]);
                        }
                    }
                }
            }
            proof {
                assert forall|j: int| 0 <= j < i + 1 implies exists|a: int| 0 <= a < out@.len() && (#[trigger] out@[a])@ == (#[trigger] self.inner@[j]).path@ by {
                    if j < i {
                        let a = choose|a: int| 0 <= a < out0.len() && (#[trigger] out0[a])@ == self.inner@[j].path@;
                        assert(out@[a] == out0[a]);
                    } else if !seen {
                        assert(out@[out@.len() - 1]@ == path@);
                    }
                }
            }
            i = i + 1;
        }
        proof {
            assert forall|k: (Seq<char>, Seq<char>)| #[trigger] self@.contains_key(k) implies exists|i: int|
                0 <= i < out@.len() && (#[trigger] out@[i])@ == k.0 by {
                let w = choose|w: int| 0 <= w < self.inner@.len() && (#[trigger] self.inner@[w].path@, self.inner@[w].name@) == k;
                assert(self.inner@[w].path@ == k.0);
            }
        }
        out
    }
}


impl SingleThornContainer {
    /// The single thorns bound on exactly `path`, by name.
    pub fn get_all_on(&self, path: &String) -> (r: Vec<(String, u64)>)
        requires
            self.wf(),
        ensures
            forall|i: int|
                0 <= i < r@.len() ==> self@.contains_key((path@, (#[trigger] r@[i]).0@)) && self@[(
                    path@,
                    r@[i].0@,
                )] == r@[i].1,
            forall|n: Seq<char>|
                #[trigger] self@.contains_key((path@, n)) ==> exists|i: int|
                    0 <= i < r@.len() && (#[trigger] r@[i]).0@ == n,
    {
        let mut out: Vec<(String, u64)> = Vec::new();
        let mut i: usize = 0;
        while i < self.inner.len()
            invariant
                self.wf(),
                i <= self.inner@.len(),
                forall|k: int|
                    0 <= k < out@.len() ==> self@.contains_key((path@, (#[trigger] out@[k]).0@)) && self@[(
                        path@,
                        out@[k].0@,
                    )] == out@[k].1,
                forall|j: int|
                    0 <= j < i && (#[trigger] self.inner@[j]).path@ == path@ ==> exists|k: int|
                        0 <= k < out@.len() && (#[trigger] out@[k]).0@ == self.inner@[j].name@,
            decreases self.inner@.len() - i,
        {
            let ghost out0 = out@;
            if self.inner[i].path.eq(path) {
                out.push((self.inner[i].name.clone(), self.inner[i].node));
            }
            proof {
                assert forall|j: int|
                    0 <= j < i + 1 && (#[trigger] self.inner@[j]).path@ == path@ implies exists|k: int|
                        0 <= k < out@.len() && (#[trigger] out@[k]).0@ == self.inner@[j].name@ by {
                    if j < i {
                        let k = choose|k: int| 0 <= k < out0.len() && (#[trigger] out0[k]).0@ == self.inner@[j].name@;
                        assert(out@[k] == out0[k]);
                    } else {
                        assert(out@[out@.len() - 1].0@ == self.inner@[j].name@);
                    }
                }
            }
            i = i + 1;
        }
        proof {
            assert forall|n: Seq<char>| #[trigger] self@.contains_key((path@, n)) implies exists|i: int|
                0 <= i < out@.len() && (#[trigger] out@[i]).0@ == n by {
                let w = choose|w: int| 0 <= w < self.inner@.len() && (#[trigger] self.inner@[w].path@, self.inner@[w].name@) == (path@, n);
                assert(self.inner@[w].path@ == path@);
            }
        }
        out
    }
}


/// The nodes of the multi thorns `name` on `path` among `s`, in the order they were added.
pub open spec fn multi_on(s: Seq<(Seq<char>, Seq<char>, u64)>, path: Seq<char>, name: Seq<char>) -> Seq<u64>
    decreases s.len(),
{
    if s.len() == 0 {
        Seq::empty()
    } else {
        let rest = multi_on(s.drop_last(), path, name);
        if s.last().0 == path && s.last().1 == name {
            rest.push(s.last().2)
        } else {
            rest
        }
    }
}

impl SingleThornContainer {
    /// The multi thorns `name` on `path`, in the order they were added.
    pub fn get_multi(&self, name: &String, path: &String) -> (r: Vec<u64>)
        ensures
            r@ == multi_on(self.multi_view(), path@, name@),
    {
        let ghost mv = self.multi_view();
        let mut out: Vec<u64> = Vec::new();
        let mut i: usize = 0;
        while i < self.multi.len()
            invariant
                mv == self.multi_view(),
                mv.len() == self.multi@.len(),
                i <= self.multi@.len(),
                out@ == multi_on(mv.take(i as int), path@, name@),
            decreases self.multi@.len() - i,
        {
            assert(mv.take(i + 1).drop_last() =~= mv.take(i as int));
            assert(mv[i as int] == (self.multi@[i as int].path@, self.multi@[i as int].name@, self.multi@[i as int].node));
            if self.multi[i].path.eq(path) && self.multi[i].name.eq(name) {
                out.push(self.multi[i].node);
            }
            i = i + 1;
        }
        assert(mv.take(mv.len() as int) =~= mv);
        out
    }
}

} // verus!
