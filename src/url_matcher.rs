//! Url matchers: a url split into static and variable segments, and the script
//! snippets that test a request against it.
use vstd::prelude::*;
use vstd::string::*;

use crate::path::{string_from_chars, to_chars};

verus! {

pub const PREPARE_PREFIX: &'static str = "__matcher_prepare";
pub const SERIAL_PREFIX: &'static str = "__matcher_serial";
pub const MATCHER_PREFIX: &'static str = "__matcher_matcher_";

/// One segment of a url.
pub enum UrlMatcherSegment {
    Static(String),
    /// A variable segment, `$name`, by its name.
    Var(String),
}

/// The digits of `n` in base ten.
pub open spec fn decimal_spec(n: nat) -> Seq<char>
    decreases n,
{
    if n < 10 {
        seq![digit_char(n)]
    } else {
        decimal_spec(n / 10).push(digit_char(n % 10))
    }
}

pub open spec fn digit_char(d: nat) -> char {
    if d == 0 { '0' } else if d == 1 { '1' } else if d == 2 { '2' } else if d == 3 { '3' } else if d
        == 4 { '4' } else if d == 5 { '5' } else if d == 6 { '6' } else if d == 7 { '7' } else if d
        == 8 { '8' } else { '9' }
}

fn digit(d: usize) -> (c: char)
    requires
        d < 10,
    ensures
        c == digit_char(d as nat),
{
    if d == 0 { '0' } else if d == 1 { '1' } else if d == 2 { '2' } else if d == 3 { '3' } else if d
        == 4 { '4' } else if d == 5 { '5' } else if d == 6 { '6' } else if d == 7 { '7' } else if d
        == 8 { '8' } else { '9' }
}

/// `n` written in base ten.
pub fn decimal(n: usize) -> (r: String)
    ensures
        r@ == decimal_spec(n as nat),
{
    let mut digits: Vec<char> = Vec::new();
    let mut m = n;
    while m >= 10
        invariant
            decimal_spec(n as nat) == decimal_spec(m as nat) + digits@.reverse(),
        decreases m,
    {
        let d = digit(m % 10);
        assert(decimal_spec(m as nat) == decimal_spec((m / 10) as nat).push(d));
        let ghost before = digits@;
        digits.push(d);
        assert(digits@.reverse() =~= seq![d] + before.reverse());
        assert(decimal_spec((m / 10) as nat).push(d) + before.reverse() =~= decimal_spec((m / 10) as nat)
            + digits@.reverse());
        m = m / 10;
    }
    let first = digit(m);
    let mut out: Vec<char> = Vec::new();
    out.push(first);
    let ghost rev = digits@.reverse();
    let mut i: usize = digits.len();
    assert(out@ =~= decimal_spec(m as nat));
    while i > 0
        invariant
            i <= digits@.len(),
            rev == digits@.reverse(),
            out@ == decimal_spec(m as nat) + rev.take(digits@.len() - i),
        decreases i,
    {
        i = i - 1;
        out.push(digits[i]);
        assert(rev[digits@.len() - 1 - i] == digits@[i as int]);
        assert(out@ =~= decimal_spec(m as nat) + rev.take(digits@.len() - i));
    }
    assert(rev.take(digits@.len() as int) =~= rev);
    string_from_chars(&out)
}

impl UrlMatcherSegment {
    pub fn is_static(&self) -> (r: bool)
        ensures
            r == self is Static,
    {
        match self {
            UrlMatcherSegment::Static(_) => true,
            _ => false,
        }
    }

    pub fn is_var(&self) -> (r: bool)
        ensures
            r == self is Var,
    {
        match self {
            UrlMatcherSegment::Var(_) => true,
            _ => false,
        }
    }

    /// The segment as a script object literal.
    pub open spec fn to_json_spec(&self) -> Seq<char> {
        match self {
            UrlMatcherSegment::Static(raw) => "{ raw: \""@ + raw@ + "\", isVar: false }"@,
            UrlMatcherSegment::Var(v) => "{ raw: \"$"@ + v@ + "\", isVar: true, varname: \""@ + v@
                + "\" }"@,
        }
    }

    /// The segment as a script object literal: `{ raw: "..", isVar: .. }`, with the
    /// variable's name for a variable segment.
    pub fn to_json(&self) -> (r: String)
        ensures
            r@ == self.to_json_spec(),
    {
        match self {
            UrlMatcherSegment::Static(raw) => String::from_str("{ raw: \"").concat(raw.as_str()).concat(
                "\", isVar: false }",
            ),
            UrlMatcherSegment::Var(v) => String::from_str("{ raw: \"$").concat(v.as_str()).concat(
                "\", isVar: true, varname: \"",
            ).concat(v.as_str()).concat("\" }"),
        }
    }
}

/// A url and its segments.
pub struct UrlMatcher {
    pub url: String,
    pub segments: Vec<UrlMatcherSegment>,
    pub has_variables: bool,
}

/// The pieces of `t` between slashes: done pieces and the piece being read, after the
/// first `i` characters.
pub open spec fn split_state(t: Seq<char>, i: int) -> (Seq<Seq<char>>, Seq<char>)
    decreases i,
{
    if i <= 0 {
        (Seq::empty(), Seq::empty())
    } else {
        let st = split_state(t, i - 1);
        if t[i - 1] == '/' {
            (st.0.push(st.1), Seq::empty())
        } else {
            (st.0, st.1.push(t[i - 1]))
        }
    }
}

/// The pieces of `t` between slashes, empty ones included.
pub open spec fn split_spec(t: Seq<char>) -> Seq<Seq<char>> {
    let st = split_state(t, t.len() as int);
    st.0.push(st.1)
}

/// A piece that starts with `$` is a variable.
pub open spec fn is_var_piece(p: Seq<char>) -> bool {
    p.len() > 0 && p[0] == '$'
}

impl UrlMatcher {
    /// Each segment read from its piece of the url.
    pub open spec fn segments_match(&self) -> bool {
        let pieces = split_spec(self.url@);
        &&& self.segments@.len() == pieces.len()
        &&& forall|i: int|
            0 <= i < pieces.len() ==> match #[trigger] self.segments@[i] {
                UrlMatcherSegment::Var(v) => is_var_piece(pieces[i]) && v@ == pieces[i].skip(1),
                UrlMatcherSegment::Static(s) => !is_var_piece(pieces[i]) && s@ == pieces[i],
            }
        &&& self.has_variables == exists|i: int| 0 <= i < pieces.len() && is_var_piece(#[trigger] pieces[i])
    }

    fn segment_of(piece: &Vec<char>) -> (r: UrlMatcherSegment)
        ensures
            match r {
                UrlMatcherSegment::Var(v) => is_var_piece(piece@) && v@ == piece@.skip(1),
                UrlMatcherSegment::Static(s) => !is_var_piece(piece@) && s@ == piece@,
            },
    {
        if piece.len() > 0 && piece[0] == '$' {
            let mut rest: Vec<char> = Vec::new();
            let mut i: usize = 1;
            while i < piece.len()
                invariant
                    1 <= i <= piece@.len(),
                    rest@ == piece@.subrange(1, i as int),
                decreases piece@.len() - i,
            {
                rest.push(piece[i]);
                i = i + 1;
                assert(rest@ =~= piece@.subrange(1, i as int));
            }
            assert(rest@ =~= piece@.skip(1));
            UrlMatcherSegment::Var(string_from_chars(&rest))
        } else {
            UrlMatcherSegment::Static(string_from_chars(piece))
        }
    }

    /// The url split at each slash; a piece starting with `$` is a variable segment.
    pub fn new(url: String) -> (r: UrlMatcher)
        ensures
            r.url == url,
            r.segments_match(),
    {
        let t = to_chars(url.as_str());
        let mut segments: Vec<UrlMatcherSegment> = Vec::new();
        let mut has_variables = false;
        let mut cur: Vec<char> = Vec::new();
        let mut i: usize = 0;
        while i < t.len()
            invariant
                t@ == url@,
                i <= t@.len(),
                segments@.len() == split_state(t@, i as int).0.len(),
                cur@ == split_state(t@, i as int).1,
                forall|j: int|
                    0 <= j < segments@.len() ==> match #[trigger] segments@[j] {
                        UrlMatcherSegment::Var(v) => is_var_piece(split_state(t@, i as int).0[j]) && v@
                            == split_state(t@, i as int).0[j].skip(1),
                        UrlMatcherSegment::Static(s) => !is_var_piece(split_state(t@, i as int).0[j]) && s@
                            == split_state(t@, i as int).0[j],
                    },
                has_variables == exists|j: int|
                    0 <= j < segments@.len() && is_var_piece(#[trigger] split_state(t@, i as int).0[j]),
            decreases t@.len() - i,
        {
            let ghost st = split_state(t@, i as int);
            if t[i] == '/' {
                let seg = UrlMatcher::segment_of(&cur);
                if seg.is_var() {
                    has_variables = true;
                }
                segments.push(seg);
                cur = Vec::new();
                proof {
                    let st2 = split_state(t@, i + 1);
                    assert(st2.0 == st.0.push(st.1));
                    assert forall|j: int| 0 <= j < segments@.len() implies #[trigger] st2.0[j] == if j
                        < st.0.len() {
                        st.0[j]
                    } else {
                        st.1
                    } by {}
                    assert(cur@ =~= st2.1);
                    if !has_variables {
                        assert forall|j: int| 0 <= j < segments@.len() implies !is_var_piece(#[trigger] st2.0[j]) by {
                            if j < st.0.len() {
                                assert(st2.0[j] == st.0[j]);
                            }
                        }
                    } else {
                        if seg is Var {
                            assert(is_var_piece(st2.0[st.0.len() as int]));
                        } else {
                            let j = choose|j: int| 0 <= j < st.0.len() && is_var_piece(#[trigger] st.0[j]);
                            assert(st2.0[j] == st.0[j]);
                        }
                    }
                }
            } else {
                cur.push(t[i]);
                proof {
                    let st2 = split_state(t@, i + 1);
                    assert(st2.0 == st.0);
                    assert(cur@ =~= st2.1);
                }
            }
            i = i + 1;
        }
        let ghost st = split_state(t@, t@.len() as int);
        let seg = UrlMatcher::segment_of(&cur);
        if seg.is_var() {
            has_variables = true;
        }
        segments.push(seg);
        proof {
            let pieces = split_spec(url@);
            assert(pieces == st.0.push(st.1));
            assert forall|j: int| 0 <= j < pieces.len() implies #[trigger] pieces[j] == if j < st.0.len() {
                st.0[j]
            } else {
                st.1
            } by {}
            assert forall|j: int| 0 <= j < pieces.len() implies match #[trigger] segments@[j] {
                UrlMatcherSegment::Var(v) => is_var_piece(pieces[j]) && v@ == pieces[j].skip(1),
                UrlMatcherSegment::Static(s) => !is_var_piece(pieces[j]) && s@ == pieces[j],
            } by {
                if j < st.0.len() {
                    assert(pieces[j] == st.0[j]);
                }
            }
            if has_variables {
                if seg is Var {
                    assert(is_var_piece(pieces[st.0.len() as int]));
                } else {
                    let j = choose|j: int| 0 <= j < st.0.len() && is_var_piece(#[trigger] st.0[j]);
                    assert(pieces[j] == st.0[j]);
                }
            } else {
                assert forall|j: int| 0 <= j < pieces.len() implies !is_var_piece(#[trigger] pieces[j]) by {
                    if j < st.0.len() {
                        assert(pieces[j] == st.0[j]);
                    }
                }
            }
        }
        let r = UrlMatcher { url, segments, has_variables };
        assert(r.segments@.len() == split_spec(r.url@).len());
        assert(r.has_variables == exists|i: int| 0 <= i < split_spec(r.url@).len() && is_var_piece(#[trigger] split_spec(r.url@)[i]));
        r
    }

    /// The segments as a script array literal of their object literals.
    pub open spec fn serial_spec(&self) -> Seq<char> {
        "["@ + joined_json(self.segments@, self.segments@.len() as int) + "]"@
    }

    /// The exact-match test against the request named `req`.
    pub open spec fn exact_decl_spec(&self, req: Seq<char>, has_children: bool) -> Seq<char> {
        if has_children {
            req + ".__accumulator__.segments.length === 0"@
        } else if self.has_variables {
            MATCHER_PREFIX@ + "EXACT("@ + req + ".__accumulator__.segments, "@ + req + ".params, new Map())"@
        } else {
            req + ".__accumulator__.path === '"@ + self.url@ + "'"@
        }
    }

    pub fn exact_decl(&self, req: &str, has_children: bool) -> (r: String)
        ensures
            r@ == self.exact_decl_spec(req@, has_children),
    {
        if has_children {
            String::from_str(req).concat(".__accumulator__.segments.length === 0")
        } else if self.has_variables {
            String::from_str(MATCHER_PREFIX).concat("EXACT(").concat(req).concat(
                ".__accumulator__.segments, ",
            ).concat(req).concat(".params, new Map())")
        } else {
            String::from_str(req).concat(".__accumulator__.path === '").concat(self.url.as_str()).concat(
                "'",
            )
        }
    }

    /// The exact-match test with the segments written inline.
    pub open spec fn exact_inline_spec(&self, req: Seq<char>, has_children: bool) -> Seq<char> {
        if has_children {
            req + ".__accumulator__.segments.length === 0"@
        } else if self.has_variables {
            "$_Densky_Runtime_$.matcherExact("@ + self.serial_spec() + ", "@ + req
                + ".__accumulator__.segments, "@ + req + ".params, new Map())"@
        } else {
            req + ".__accumulator__.path === '"@ + self.url@ + "'"@
        }
    }

    pub fn exact_inline(&self, req: &str, has_children: bool) -> (r: String)
        ensures
            r@ == self.exact_inline_spec(req@, has_children),
    {
        if has_children {
            String::from_str(req).concat(".__accumulator__.segments.length === 0")
        } else if self.has_variables {
            let serial = self.serial_inline();
            String::from_str("$_Densky_Runtime_$.matcherExact(").concat(serial.as_str()).concat(", ").concat(
                req,
            ).concat(".__accumulator__.segments, ").concat(req).concat(".params, new Map())")
        } else {
            String::from_str(req).concat(".__accumulator__.path === '").concat(self.url.as_str()).concat(
                "'",
            )
        }
    }

    /// The prefix-match test against the request named `req`.
    pub open spec fn start_decl_spec(&self, req: Seq<char>) -> Seq<char> {
        if self.has_variables {
            MATCHER_PREFIX@ + "START("@ + req + ".__accumulator__.segments, "@ + req + ".params, new Map())"@
        } else {
            req + ".__accumulator__.path.startsWith('"@ + self.url@ + "')"@
        }
    }

    pub fn start_decl(&self, req: &str) -> (r: String)
        ensures
            r@ == self.start_decl_spec(req@),
    {
        if self.has_variables {
            String::from_str(MATCHER_PREFIX).concat("START(").concat(req).concat(
                ".__accumulator__.segments, ",
            ).concat(req).concat(".params, new Map())")
        } else {
            String::from_str(req).concat(".__accumulator__.path.startsWith('").concat(
                self.url.as_str(),
            ).concat("')")
        }
    }

    /// The prefix-match test with the segments written inline.
    pub open spec fn start_inline_spec(&self, req: Seq<char>) -> Seq<char> {
        if self.has_variables {
            "$_Densky_Runtime_$.matcherStart("@ + self.serial_spec() + ", "@ + req
                + ".__accumulator__.segments, "@ + req + ".params, new Map())"@
        } else {
            req + ".__accumulator__.path.startsWith('"@ + self.url@ + "')"@
        }
    }

    pub fn start_inline(&self, req: &str) -> (r: String)
        ensures
            r@ == self.start_inline_spec(req@),
    {
        if self.has_variables {
            let serial = self.serial_inline();
            String::from_str("$_Densky_Runtime_$.matcherStart(").concat(serial.as_str()).concat(", ").concat(
                req,
            ).concat(".__accumulator__.segments, ").concat(req).concat(".params, new Map())")
        } else {
            String::from_str(req).concat(".__accumulator__.path.startsWith('").concat(
                self.url.as_str(),
            ).concat("')")
        }
    }

    /// The statements that drop the matched segments from the request named `val`.
    pub open spec fn update_decl_spec(&self, val: Seq<char>) -> Seq<char> {
        let acc = val + ".__accumulator__"@;
        let corrector: int = if self.url@ == seq!['/'] { 1 } else { 0 };
        "// @ts-ignore\n"@ + acc + ".segments = "@ + acc + ".segments.slice("@ + decimal_spec(
            (self.segments@.len() - corrector) as nat,
        ) + ");\n// @ts-ignore\n"@ + acc + ".path = "@ + acc + ".segments.join(\"/\");"@
    }

    pub fn update_decl(&self, val: &str) -> (r: String)
        requires
            self.url@ == seq!['/'] ==> self.segments@.len() >= 1,
        ensures
            r@ == self.update_decl_spec(val@),
    {
        let acc = String::from_str(val).concat(".__accumulator__");
        let slash = String::from_str("/");
        proof {
            reveal_strlit("/");
        }
        assert(slash@ =~= seq!['/']);
        let corrector: usize = if self.url.eq(&slash) { 1 } else { 0 };
        let count = decimal(self.segments.len() - corrector);
        String::from_str("// @ts-ignore\n").concat(acc.as_str()).concat(".segments = ").concat(
            acc.as_str(),
        ).concat(".segments.slice(").concat(count.as_str()).concat(");\n// @ts-ignore\n").concat(
            acc.as_str(),
        ).concat(".path = ").concat(acc.as_str()).concat(".segments.join(\"/\");")
    }

    /// The declarations of the serialised segments and of their two matchers, or
    /// nothing for a url without variables.
    pub open spec fn serial_decl_spec(&self) -> Seq<char> {
        if !self.has_variables {
            Seq::empty()
        } else {
            "const "@ + SERIAL_PREFIX@ + " = "@ + self.serial_spec() + ";"@ + "\n"@
                + "// @ts-ignore\nconst "@ + MATCHER_PREFIX@ + "EXACT = $_Densky_Runtime_$.matcherExact("@
                + SERIAL_PREFIX@ + ");"@ + "\n"@ + "// @ts-ignore\nconst "@ + MATCHER_PREFIX@
                + "START = $_Densky_Runtime_$.matcherStart("@ + SERIAL_PREFIX@ + ");"@
        }
    }

    pub fn serial_decl(&self) -> (r: String)
        ensures
            r@ == self.serial_decl_spec(),
    {
        if !self.has_variables {
            String::new()
        } else {
            let serial = self.serial_inline();
            String::from_str("const ").concat(SERIAL_PREFIX).concat(" = ").concat(serial.as_str()).concat(
                ";",
            ).concat("\n").concat("// @ts-ignore\nconst ").concat(MATCHER_PREFIX).concat(
                "EXACT = $_Densky_Runtime_$.matcherExact(",
            ).concat(SERIAL_PREFIX).concat(");").concat("\n").concat("// @ts-ignore\nconst ").concat(
                MATCHER_PREFIX,
            ).concat("START = $_Densky_Runtime_$.matcherStart(").concat(SERIAL_PREFIX).concat(");")
        }
    }

    /// The segments as a script array literal: `[` the segments' object literals,
    /// comma-separated, `]`.
    pub fn serial_inline(&self) -> (r: String)
        ensures
            r@ == self.serial_spec(),
    {
        let mut out = String::from_str("[");
        let mut i: usize = 0;
        while i < self.segments.len()
            invariant
                i <= self.segments@.len(),
                out@ == "["@ + joined_json(self.segments@, i as int),
            decreases self.segments@.len() - i,
        {
            if i > 0 {
                out = out.concat(",");
            }
            let piece = self.segments[i].to_json();
            out = out.concat(piece.as_str());
            i = i + 1;
            assert(out@ =~= "["@ + joined_json(self.segments@, i as int));
        }
        out.concat("]")
    }
}

/// The object literals of the first `n` segments, comma-separated.
pub open spec fn joined_json(s: Seq<UrlMatcherSegment>, n: int) -> Seq<char>
    decreases n,
{
    if n <= 0 {
        Seq::empty()
    } else if n == 1 {
        s[0].to_json_spec()
    } else {
        joined_json(s, n - 1) + ","@ + s[n - 1].to_json_spec()
    }
}

} // verus!
