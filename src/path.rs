//! Operations on slash-separated route paths.
use vstd::prelude::*;
use vstd::string::*;

verus! {

/// `s` with `p` dropped from its front, or `s` itself when it does not start with `p`.
pub open spec fn strip_prefix_spec(s: Seq<char>, p: Seq<char>) -> Seq<char> {
    if p.len() <= s.len() && s.take(p.len() as int) == p {
        s.skip(p.len() as int)
    } else {
        s
    }
}

/// `s` without one leading slash.
pub open spec fn strip_slash_spec(s: Seq<char>) -> Seq<char> {
    strip_prefix_spec(s, seq!['/'])
}

/// Whether `s` holds a slash.
pub open spec fn has_slash(s: Seq<char>) -> bool {
    exists|i: int| 0 <= i < s.len() && s[i] == '/'
}

/// Index of the last slash of `s` at or before `n - 1`, or -1.
pub open spec fn last_slash_before(s: Seq<char>, n: int) -> int
    decreases n,
{
    if n <= 0 {
        -1
    } else if s[n - 1] == '/' {
        n - 1
    } else {
        last_slash_before(s, n - 1)
    }
}

/// Everything before the last slash of `s`; empty when `s` has none.
pub open spec fn parent_spec(s: Seq<char>) -> Seq<char> {
    let k = last_slash_before(s, s.len() as int);
    if k < 0 {
        Seq::empty()
    } else {
        s.take(k)
    }
}

/// A path is well formed when it is not empty and none of its segments is empty:
/// no leading or trailing slash and no two slashes in a row.
pub open spec fn well_formed_path(s: Seq<char>) -> bool {
    &&& s.len() > 0
    &&& s[0] != '/'
    &&& s[s.len() - 1] != '/'
    &&& forall|i: int| 0 <= i < s.len() - 1 && #[trigger] s[i] == '/' ==> s[i + 1] != '/'
}

/// `p` is a prefix of `s` made of whole segments of `s`.
pub open spec fn aligned_prefix(p: Seq<char>, s: Seq<char>) -> bool {
    &&& 0 < p.len() <= s.len()
    &&& s.take(p.len() as int) == p
    &&& (p.len() == s.len() || s[p.len() as int] == '/')
}

/// The first `n` characters of `a` are a whole-segment prefix of both `a` and `b`.
pub open spec fn common_cut(a: Seq<char>, b: Seq<char>, n: int) -> bool {
    0 < n <= a.len() && aligned_prefix(a.take(n), a) && aligned_prefix(a.take(n), b)
}

/// The largest common cut of `a` and `b` that is at most `n`, or 0.
pub open spec fn best_cut(a: Seq<char>, b: Seq<char>, n: int) -> int
    decreases n,
{
    if n <= 0 {
        0
    } else if common_cut(a, b, n) {
        n
    } else {
        best_cut(a, b, n - 1)
    }
}

/// The longest whole-segment prefix shared by two well-formed paths; `None` when
/// they share no segment or when either has an empty segment.
pub open spec fn common_prefix_spec(a: Seq<char>, b: Seq<char>) -> Option<Seq<char>> {
    let n = best_cut(a, b, a.len() as int);
    if well_formed_path(a) && well_formed_path(b) && n > 0 {
        Some(a.take(n))
    } else {
        None
    }
}

/// The characters of `s`, one by one.
pub fn to_chars(s: &str) -> (r: Vec<char>)
    ensures
        r@ == s@,
{
    let n = s.unicode_len();
    let mut r: Vec<char> = Vec::new();
    let mut i: usize = 0;
    while i < n
        invariant
            n == s@.len(),
            i <= n,
            r@ == s@.take(i as int),
        decreases n - i,
    {
        r.push(s.get_char(i));
        i = i + 1;
        assert(r@ =~= s@.take(i as int));
    }
    assert(r@ =~= s@);
    r
}

/// Whether `s` starts with `p`.
pub fn starts_with(s: &str, p: &str) -> (r: bool)
    ensures
        r == (p@.len() <= s@.len() && s@.take(p@.len() as int) == p@),
{
    let sc = to_chars(s);
    let pc = to_chars(p);
    if pc.len() > sc.len() {
        return false;
    }
    let mut i: usize = 0;
    while i < pc.len()
        invariant
            pc@ == p@,
            sc@ == s@,
            pc.len() <= sc.len(),
            i <= pc.len(),
            sc@.take(i as int) == pc@.take(i as int),
        decreases pc.len() - i,
    {
        if sc[i] != pc[i] {
            assert(sc@.take(pc.len() as int)[i as int] != pc@[i as int]);
            return false;
        }
        i = i + 1;
        assert(sc@.take(i as int) =~= pc@.take(i as int));
    }
    assert(pc@.take(pc.len() as int) =~= pc@);
    true
}

/// `s` without `prefix` at its front, or `s` unchanged when it does not start with it.
pub fn strip_prefix_if_can(s: &str, prefix: &str) -> (r: String)
    ensures
        r@ == strip_prefix_spec(s@, prefix@),
{
    if starts_with(s, prefix) {
        let n = s.unicode_len();
        let k = prefix.unicode_len();
        String::from_str(s.substring_char(k, n))
    } else {
        String::from_str(s)
    }
}

/// `s` without one leading slash.
pub fn strip_leading_slash(s: &str) -> (r: String)
    ensures
        r@ == strip_slash_spec(s@),
{
    let slash = "/";
    proof {
        reveal_strlit("/");
    }
    assert(slash@ =~= seq!['/']);
    strip_prefix_if_can(s, slash)
}

/// Everything before the last slash of `s`, or the empty string when it holds no slash.
pub fn parent_path(s: &str) -> (r: String)
    ensures
        r@ == parent_spec(s@),
{
    let n = s.unicode_len();
    let mut i: usize = n;
    while i > 0
        invariant
            n == s@.len(),
            i <= n,
            last_slash_before(s@, n as int) == last_slash_before(s@, i as int),
        decreases i,
    {
        if s.get_char(i - 1) == '/' {
            return String::from_str(s.substring_char(0, i - 1));
        }
        i = i - 1;
    }
    String::new()
}

proof fn lemma_best_cut_bounds(a: Seq<char>, b: Seq<char>, n: int)
    ensures
        0 <= best_cut(a, b, n),
        best_cut(a, b, n) <= if n < 0 { 0 } else { n },
        best_cut(a, b, n) > 0 ==> common_cut(a, b, best_cut(a, b, n)),
        forall|m: int| best_cut(a, b, n) < m <= n ==> !common_cut(a, b, m),
    decreases n,
{
    if n > 0 {
        lemma_best_cut_bounds(a, b, n - 1);
    }
}

/// Well-formedness of a path, decided character by character.
fn is_well_formed(c: &Vec<char>) -> (r: bool)
    ensures
        r == well_formed_path(c@),
{
    let n = c.len();
    if n == 0 || c[0] == '/' || c[n - 1] == '/' {
        return false;
    }
    let mut i: usize = 0;
    while i + 1 < n
        invariant
            n == c@.len(),
            n > 0,
            i < n,
            forall|j: int| 0 <= j < i && #[trigger] c@[j] == '/' ==> c@[j + 1] != '/',
        decreases n - i,
    {
        if c[i] == '/' && c[i + 1] == '/' {
            return false;
        }
        i = i + 1;
    }
    true
}

/// The longest prefix made of whole segments that two paths share.
///
/// Returns `None` when they share no segment, or when either path holds an empty
/// segment (a leading, trailing or doubled slash, or no character at all).
pub fn get_common_path(path_a: &String, path_b: &String) -> (r: Option<String>)
    ensures
        r matches Some(p) ==> common_prefix_spec(path_a@, path_b@) == Some(p@),
        r is None ==> common_prefix_spec(path_a@, path_b@) is None,
{
    let a = to_chars(path_a.as_str());
    let b = to_chars(path_b.as_str());
    if !is_well_formed(&a) || !is_well_formed(&b) {
        return None;
    }
    let ghost sa = a@;
    let ghost sb = b@;
    let n = if a.len() < b.len() {
        a.len()
    } else {
        b.len()
    };
    let mut best: usize = 0;
    let mut i: usize = 0;
    while i < n && a[i] == b[i]
        invariant
            sa == a@,
            sb == b@,
            n <= a.len(),
            n <= b.len(),
            i <= n,
            a@.take(i as int) == b@.take(i as int),
            best as int == best_cut(sa, sb, i as int),
        decreases n - i,
    {
        i = i + 1;
        assert(a@.take(i as int) =~= b@.take(i as int));
        let at_a = i == a.len() || a[i] == '/';
        let at_b = i == b.len() || b[i] == '/';
        if at_a && at_b {
            assert(a@.take(i as int).len() == i);
            assert(b@.take(i as int) =~= a@.take(i as int));
            assert(common_cut(sa, sb, i as int));
            best = i;
        } else {
            assert(!common_cut(sa, sb, i as int));
        }
    }
    proof {
        lemma_best_cut_bounds(sa, sb, i as int);
        lemma_no_cut_past_mismatch(sa, sb, i as int, sa.len() as int);
    }
    if best == 0 {
        None
    } else {
        Some(String::from_str(path_a.as_str().substring_char(0, best)))
    }
}

/// Past the first position where two paths differ (or one ends), no cut remains.
proof fn lemma_no_cut_past_mismatch(a: Seq<char>, b: Seq<char>, i: int, n: int)
    requires
        0 <= i <= a.len(),
        i <= b.len(),
        i <= n,
        a.take(i) == b.take(i),
        i == a.len() || i == b.len() || a[i] != b[i],
    ensures
        best_cut(a, b, n) == best_cut(a, b, i),
    decreases n,
{
    if n > i {
        if common_cut(a, b, n) {
            let p = a.take(n);
            assert(b.take(n) == p);
            if i < a.len() && i < b.len() {
                assert(p[i] == a[i]);
                assert(b.take(n)[i] == b[i]);
            }
        }
        lemma_no_cut_past_mismatch(a, b, i, n - 1);
    }
}

/// Relies on collecting `char`s into a `String` (`FromIterator<char>`): the string of
/// exactly those characters.
#[verifier::external_body]
pub(crate) fn string_from_chars(v: &Vec<char>) -> (r: String)
    ensures
        r@ == v@,
{
    v.iter().collect()
}

/// `b` with the segment `s` added at its end.
pub open spec fn push_spec(b: Seq<char>, s: Seq<char>) -> Seq<char> {
    if b.len() == 0 {
        s
    } else if b[b.len() - 1] == '/' {
        b + s
    } else {
        b + seq!['/'] + s
    }
}

/// `b` without its last segment; the root `/` stays.
pub open spec fn pop_spec(b: Seq<char>) -> Seq<char> {
    let k = last_slash_before(b, b.len() as int);
    if k < 0 {
        Seq::empty()
    } else if k == 0 {
        seq!['/']
    } else {
        b.take(k)
    }
}

/// `b` after one segment `s` of a relative path: `.` and empty segments change
/// nothing, `..` drops the last segment, any other is added.
pub open spec fn apply_segment(b: Seq<char>, s: Seq<char>) -> Seq<char> {
    if s.len() == 0 || s == seq!['.'] {
        b
    } else if s == seq!['.', '.'] {
        pop_spec(b)
    } else {
        push_spec(b, s)
    }
}

/// The path built so far and the segment being read, after the first `i` characters
/// of `t` were read onto `base`.
pub open spec fn walk_state(base: Seq<char>, t: Seq<char>, i: int) -> (Seq<char>, Seq<char>)
    decreases i,
{
    if i <= 0 {
        (base, Seq::empty())
    } else {
        let st = walk_state(base, t, i - 1);
        if t[i - 1] == '/' {
            (apply_segment(st.0, st.1), Seq::empty())
        } else {
            (st.0, st.1.push(t[i - 1]))
        }
    }
}

/// `base` after every segment of `t`.
pub open spec fn walk_spec(base: Seq<char>, t: Seq<char>) -> Seq<char> {
    let st = walk_state(base, t, t.len() as int);
    apply_segment(st.0, st.1)
}

/// `target` resolved against `base`: itself when it starts at the root.
pub open spec fn join_spec(target: Seq<char>, base: Seq<char>) -> Seq<char> {
    if target.len() > 0 && target[0] == '/' {
        target
    } else {
        walk_spec(base, target)
    }
}

fn pop_segment(b: &Vec<char>) -> (r: Vec<char>)
    ensures
        r@ == pop_spec(b@),
{
    let n = b.len();
    let mut i: usize = n;
    while i > 0
        invariant
            n == b@.len(),
            i <= n,
            last_slash_before(b@, n as int) == last_slash_before(b@, i as int),
        decreases i,
    {
        if b[i - 1] == '/' {
            if i - 1 == 0 {
                let mut r: Vec<char> = Vec::new();
                r.push('/');
                assert(r@ =~= seq!['/']);
                return r;
            }
            let mut r: Vec<char> = Vec::new();
            let mut j: usize = 0;
            while j < i - 1
                invariant
                    n == b@.len(),
                    0 < i <= n,
                    j <= i - 1,
                    r@ == b@.take(j as int),
                decreases i - 1 - j,
            {
                r.push(b[j]);
                j = j + 1;
                assert(r@ =~= b@.take(j as int));
            }
            return r;
        }
        i = i - 1;
    }
    let r: Vec<char> = Vec::new();
    assert(r@ =~= Seq::<char>::empty());
    r
}

fn apply_segment_exec(b: Vec<char>, s: &Vec<char>) -> (r: Vec<char>)
    ensures
        r@ == apply_segment(b@, s@),
{
    let n = s.len();
    if n == 0 || (n == 1 && s[0] == '.') {
        proof {
            if n == 1 {
                assert(s@ =~= seq!['.']);
            }
        }
        return b;
    }
    if n == 2 && s[0] == '.' && s[1] == '.' {
        assert(s@ =~= seq!['.', '.']);
        return pop_segment(&b);
    }
    assert(s@ != seq!['.']) by {
        if n == 1 {
            assert(s@[0] != '.');
        }
        if s@ == seq!['.'] {
            assert(s@.len() == 1);
        }
    }
    assert(s@ != seq!['.', '.']) by {
        if s@ == seq!['.', '.'] {
            assert(s@.len() == 2);
            assert(s@[0] == '.' && s@[1] == '.');
        }
    }
    let mut r = b;
    let m = r.len();
    if m > 0 && r[m - 1] != '/' {
        r.push('/');
    }
    let ghost start = r@;
    let mut j: usize = 0;
    while j < n
        invariant
            n == s@.len(),
            j <= n,
            r@ == start + s@.take(j as int),
        decreases n - j,
    {
        r.push(s[j]);
        j = j + 1;
        assert(r@ =~= start + s@.take(j as int));
    }
    assert(s@.take(n as int) =~= s@);
    proof {
        if m == 0 {
            assert(r@ =~= s@);
        }
    }
    r
}

fn walk_exec(base: Vec<char>, t: &Vec<char>) -> (r: Vec<char>)
    ensures
        r@ == walk_spec(base@, t@),
{
    let ghost b0 = base@;
    let mut b = base;
    let mut cur: Vec<char> = Vec::new();
    let mut i: usize = 0;
    while i < t.len()
        invariant
            i <= t@.len(),
            (b@, cur@) == walk_state(b0, t@, i as int),
        decreases t@.len() - i,
    {
        if t[i] == '/' {
            b = apply_segment_exec(b, &cur);
            cur = Vec::new();
            assert(cur@ =~= Seq::<char>::empty());
        } else {
            cur.push(t[i]);
        }
        i = i + 1;
    }
    apply_segment_exec(b, &cur)
}

/// `target` resolved against `base`: `target` itself when it starts with a slash, else
/// `base` with each segment of `target` added (`.` skipped, `..` dropping one).
pub fn join_paths(target: &str, base: &str) -> (r: String)
    ensures
        r@ == join_spec(target@, base@),
{
    let t = to_chars(target);
    if t.len() > 0 && t[0] == '/' {
        return String::from_str(target);
    }
    let b = to_chars(base);
    let r = walk_exec(b, &t);
    string_from_chars(&r)
}

/// `target` resolved from the root: always starts with a slash, with `.` and `..`
/// segments worked out.
pub fn normalize_path(target: &str) -> (r: String)
    ensures
        r@ == walk_spec(seq!['/'], target@),
{
    let t = to_chars(target);
    let mut b: Vec<char> = Vec::new();
    b.push('/');
    assert(b@ =~= seq!['/']);
    let r = walk_exec(b, &t);
    string_from_chars(&r)
}

/// `n` ends a segment of `s`: it is the end of `s` or stands on a slash.
pub open spec fn at_boundary(s: Seq<char>, n: int) -> bool {
    n == s.len() || s[n] == '/'
}

/// The first `n` characters of `x` and `y` agree, and `n` ends a segment of both.
pub open spec fn shared_cut(x: Seq<char>, y: Seq<char>, n: int) -> bool {
    &&& 0 < n <= x.len()
    &&& n <= y.len()
    &&& x.take(n) == y.take(n)
    &&& at_boundary(x, n)
    &&& at_boundary(y, n)
}

proof fn lemma_common_cut_shared(x: Seq<char>, y: Seq<char>, n: int)
    ensures
        common_cut(x, y, n) <==> shared_cut(x, y, n),
{
    if 0 < n <= x.len() {
        assert(x.take(n).len() == n);
        if n <= y.len() {
            assert(y.take(n).len() == n);
        }
    }
}

proof fn lemma_best_cut_same(a1: Seq<char>, b1: Seq<char>, n1: int, a2: Seq<char>, b2: Seq<char>, n2: int)
    requires
        forall|n: int| #[trigger] common_cut(a1, b1, n) <==> common_cut(a2, b2, n),
        forall|n: int| #[trigger] common_cut(a1, b1, n) ==> n <= n1 && n <= n2,
    ensures
        best_cut(a1, b1, n1) == best_cut(a2, b2, n2),
{
    lemma_best_cut_bounds(a1, b1, n1);
    lemma_best_cut_bounds(a2, b2, n2);
    let r1 = best_cut(a1, b1, n1);
    let r2 = best_cut(a2, b2, n2);
    if r1 < r2 {
        assert(common_cut(a2, b2, r2));
        assert(common_cut(a1, b1, r2));
    } else if r2 < r1 {
        assert(common_cut(a1, b1, r1));
        assert(common_cut(a2, b2, r1));
    }
}

proof fn lemma_cut_prefix_wf(x: Seq<char>, r: int)
    requires
        well_formed_path(x),
        0 < r <= x.len(),
        at_boundary(x, r),
    ensures
        well_formed_path(x.take(r)),
{
    let p = x.take(r);
    if r < x.len() {
        if x[r - 1] == '/' {
            assert(x[r - 1] == '/' && x[r] == '/');
        }
    }
    assert forall|i: int| 0 <= i < p.len() - 1 && #[trigger] p[i] == '/' implies p[i + 1] != '/' by {
        assert(x[i] == '/');
    }
}

/// With `p` the common prefix of `x` and `y`, the cuts `s` shares with `p` are those
/// it shares with both `x` and `y`.
proof fn lemma_cuts_through_prefix(s: Seq<char>, x: Seq<char>, y: Seq<char>, n: int)
    requires
        best_cut(x, y, x.len() as int) > 0,
    ensures
        shared_cut(s, x.take(best_cut(x, y, x.len() as int)), n) <==> shared_cut(s, x, n) && shared_cut(s, y, n),
{
    let r = best_cut(x, y, x.len() as int);
    lemma_best_cut_bounds(x, y, x.len() as int);
    lemma_common_cut_shared(x, y, r);
    let p = x.take(r);
    assert(p.len() == r);
    if shared_cut(s, p, n) {
        assert(p.take(n) =~= x.take(n));
        assert(y.take(r) == p);
        assert(p.take(n) =~= y.take(n));
        if n < r {
            assert(p[n] == x[n]);
            assert(p[n] == y[n]);
        }
    }
    if shared_cut(s, x, n) && shared_cut(s, y, n) {
        assert(shared_cut(x, y, n));
        lemma_common_cut_shared(x, y, n);
        assert(n <= r);
        assert(p.take(n) =~= x.take(n));
        if n < r {
            assert(p[n] == x[n]);
        }
    }
}

/// The common prefix does not depend on the order of the two paths.
pub proof fn lemma_common_prefix_symmetric(a: Seq<char>, b: Seq<char>)
    ensures
        common_prefix_spec(a, b) == common_prefix_spec(b, a),
{
    assert forall|n: int| #[trigger] common_cut(a, b, n) <==> common_cut(b, a, n) by {
        lemma_common_cut_shared(a, b, n);
        lemma_common_cut_shared(b, a, n);
    }
    assert forall|n: int| #[trigger] common_cut(a, b, n) implies n <= a.len() && n <= b.len() by {
        lemma_common_cut_shared(a, b, n);
    }
    lemma_best_cut_same(a, b, a.len() as int, b, a, b.len() as int);
    let r = best_cut(a, b, a.len() as int);
    if r > 0 {
        lemma_best_cut_bounds(a, b, a.len() as int);
        lemma_common_cut_shared(a, b, r);
    }
}

/// The common prefix of three paths can be taken in either grouping:
/// `common_prefix(a, common_prefix(b, c)) == common_prefix(common_prefix(a, b), c)`,
/// where a missing inner prefix makes the outer one missing too.
pub proof fn lemma_common_prefix_associative(a: Seq<char>, b: Seq<char>, c: Seq<char>)
    ensures
        (match common_prefix_spec(b, c) {
            Some(p) => common_prefix_spec(a, p),
            None => None,
        }) == (match common_prefix_spec(a, b) {
            Some(q) => common_prefix_spec(q, c),
            None => None,
        }),
{
    let lhs = match common_prefix_spec(b, c) {
        Some(p) => common_prefix_spec(a, p),
        None => None,
    };
    let rhs = match common_prefix_spec(a, b) {
        Some(q) => common_prefix_spec(q, c),
        None => None,
    };
    let rbc = best_cut(b, c, b.len() as int);
    let rab = best_cut(a, b, a.len() as int);
    lemma_best_cut_bounds(b, c, b.len() as int);
    lemma_best_cut_bounds(a, b, a.len() as int);
    // both sides, when present, are the longest cut shared by all three paths
    if common_prefix_spec(b, c) is Some && common_prefix_spec(a, b) is Some {
        let p = b.take(rbc);
        let q = a.take(rab);
        lemma_common_cut_shared(b, c, rbc);
        lemma_common_cut_shared(a, b, rab);
        lemma_cut_prefix_wf(b, rbc);
        lemma_cut_prefix_wf(a, rab);
        lemma_common_prefix_symmetric(q, c);
        assert forall|n: int| #[trigger] common_cut(a, p, n) <==> common_cut(c, q, n) by {
            lemma_common_cut_shared(a, p, n);
            lemma_common_cut_shared(c, q, n);
            lemma_cuts_through_prefix(a, b, c, n);
            lemma_cuts_through_prefix(c, a, b, n);
            lemma_common_cut_shared(a, b, n);
            lemma_common_cut_shared(b, c, n);
        }
        assert forall|n: int| #[trigger] common_cut(a, p, n) implies n <= a.len() && n <= c.len() by {
            lemma_common_cut_shared(a, p, n);
            lemma_cuts_through_prefix(a, b, c, n);
        }
        lemma_best_cut_same(a, p, a.len() as int, c, q, c.len() as int);
        let m = best_cut(a, p, a.len() as int);
        if m > 0 {
            lemma_best_cut_bounds(a, p, a.len() as int);
            lemma_common_cut_shared(a, p, m);
            lemma_cuts_through_prefix(a, b, c, m);
            lemma_common_cut_shared(c, q, m);
            lemma_cuts_through_prefix(c, a, b, m);
        }
        assert(lhs == rhs);
    } else if common_prefix_spec(b, c) is Some {
        // no prefix of a and b: nothing shared by all three either
        let p = b.take(rbc);
        lemma_common_cut_shared(b, c, rbc);
        lemma_cut_prefix_wf(b, rbc);
        if well_formed_path(a) && well_formed_path(b) {
            let m = best_cut(a, p, a.len() as int);
            lemma_best_cut_bounds(a, p, a.len() as int);
            if m > 0 {
                lemma_common_cut_shared(a, p, m);
                lemma_cuts_through_prefix(a, b, c, m);
                lemma_common_cut_shared(a, b, m);
                assert(common_cut(a, b, m));
            }
        }
        assert(lhs == rhs);
    } else if common_prefix_spec(a, b) is Some {
        let q = a.take(rab);
        lemma_common_cut_shared(a, b, rab);
        lemma_cut_prefix_wf(a, rab);
        lemma_common_prefix_symmetric(q, c);
        if well_formed_path(c) {
            let m = best_cut(c, q, c.len() as int);
            lemma_best_cut_bounds(c, q, c.len() as int);
            if m > 0 {
                lemma_common_cut_shared(c, q, m);
                lemma_cuts_through_prefix(c, a, b, m);
                lemma_common_cut_shared(b, c, m);
                assert(shared_cut(b, c, m));
                assert(common_cut(b, c, m));
            }
        }
        assert(lhs == rhs);
    }
}


/// The path that leads from `base` to `target`, when there is one.
pub uninterp spec fn diff_of(target: Seq<char>, base: Seq<char>) -> Option<Seq<char>>;

/// Relies on `pathdiff::diff_paths`: the path from `base` to `target`, if any; it is
/// worked out from the two paths alone.
#[verifier::external_body]
fn diff_paths_text(target: &str, base: &str) -> (r: Option<String>)
    ensures
        r matches Some(s) ==> diff_of(target@, base@) == Some(s@),
        r is None ==> diff_of(target@, base@) is None,
{
    pathdiff::diff_paths(target, base).and_then(|p| p.to_str().map(|s| s.to_string()))
}

/// A relative path written to be read as relative: `./` in front unless it starts
/// with a dot.
pub open spec fn dotted_spec(rel: Seq<char>) -> Seq<char> {
    if rel.len() > 0 && rel[0] == '.' {
        rel
    } else {
        seq!['.', '/'] + rel
    }
}

/// `rel` with `./` in front unless it starts with a dot.
pub fn dotted(rel: &str) -> (r: String)
    ensures
        r@ == dotted_spec(rel@),
{
    if rel.unicode_len() > 0 && rel.get_char(0) == '.' {
        String::from_str(rel)
    } else {
        let prefix = "./";
        proof {
            reveal_strlit("./");
        }
        assert(prefix@ =~= seq!['.', '/']);
        String::from_str(prefix).concat(rel)
    }
}

/// The path from `base` to `target`, written as relative (see [`dotted`]).
pub fn relative_path(target: &str, base: &str) -> (r: Option<String>)
    ensures
        r matches Some(s) ==> diff_of(target@, base@) matches Some(d) && s@ == dotted_spec(d),
        r is None ==> diff_of(target@, base@) is None,
{
    match diff_paths_text(target, base) {
        Some(d) => Some(dotted(d.as_str())),
        None => None,
    }
}

/// The folder holding `p`: `None` for the empty path and the root.
pub open spec fn dir_of(p: Seq<char>) -> Option<Seq<char>> {
    let k = last_slash_before(p, p.len() as int);
    if p.len() == 0 || p == seq!['/'] {
        None
    } else if k < 0 {
        Some(Seq::empty())
    } else if k == 0 {
        Some(seq!['/'])
    } else {
        Some(p.take(k))
    }
}

/// The folder holding `p`.
pub fn dir_path(p: &str) -> (r: Option<String>)
    ensures
        r matches Some(s) ==> dir_of(p@) == Some(s@),
        r is None ==> dir_of(p@) is None,
{
    let n = p.unicode_len();
    if n == 0 || (n == 1 && p.get_char(0) == '/') {
        proof {
            if n == 1 {
                assert(p@ =~= seq!['/']);
            }
        }
        return None;
    }
    proof {
        if p@ == seq!['/'] {
            assert(p@[0] == '/');
        }
    }
    let mut i: usize = n;
    while i > 0 && p.get_char(i - 1) != '/'
        invariant
            n == p@.len(),
            i <= n,
            last_slash_before(p@, n as int) == last_slash_before(p@, i as int),
        decreases i,
    {
        i = i - 1;
    }
    if i == 0 {
        Some(String::new())
    } else if i == 1 {
        let root = "/";
        proof {
            reveal_strlit("/");
        }
        assert(root@ =~= seq!['/']);
        Some(String::from_str(root))
    } else {
        Some(String::from_str(p.substring_char(0, i - 1)))
    }
}

} // verus!
