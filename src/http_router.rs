//! How the http router plugin classifies its route files, and the file-name filters
//! the plugin host applies before asking a plugin.
use vstd::prelude::*;
use vstd::string::*;

use crate::adapter::str_eq;
use crate::manifest::OptimizedTreeLeaf;
use crate::node::{CloudFileResolve, DenskyError};
use crate::update::CloudManifestUpdate;
use crate::url_matcher::{decimal, decimal_spec};
use crate::path::{last_slash_before, string_from_chars, to_chars};

verus! {

/// `s` with every `.ts` taken out, read from the left.
pub open spec fn without_ts(s: Seq<char>) -> Seq<char>
    decreases s.len(),
{
    if s.len() == 0 {
        s
    } else if s.len() >= 3 && s[0] == '.' && s[1] == 't' && s[2] == 's' {
        without_ts(s.skip(3))
    } else {
        seq![s[0]] + without_ts(s.skip(1))
    }
}

fn remove_ts(s: &Vec<char>, from: usize, to: usize) -> (r: Vec<char>)
    requires
        from <= to <= s@.len(),
    ensures
        r@ == without_ts(s@.subrange(from as int, to as int)),
    decreases to - from,
{
    if from == to {
        let r: Vec<char> = Vec::new();
        assert(s@.subrange(from as int, to as int) =~= Seq::<char>::empty());
        return r;
    }
    let ghost t = s@.subrange(from as int, to as int);
    if to - from >= 3 && s[from] == '.' && s[from + 1] == 't' && s[from + 2] == 's' {
        assert(t.skip(3) =~= s@.subrange(from + 3, to as int));
        remove_ts(s, from + 3, to)
    } else {
        assert(t.skip(1) =~= s@.subrange(from + 1, to as int));
        let rest = remove_ts(s, from + 1, to);
        let mut r: Vec<char> = Vec::new();
        r.push(s[from]);
        let mut i: usize = 0;
        while i < rest.len()
            invariant
                i <= rest@.len(),
                r@ == seq![s@[from as int]] + rest@.take(i as int),
            decreases rest@.len() - i,
        {
            r.push(rest[i]);
            i = i + 1;
            assert(r@ =~= seq![s@[from as int]] + rest@.take(i as int));
        }
        assert(rest@.take(rest@.len() as int) =~= rest@);
        r
    }
}

/// Index of the first `$` that starts a segment of `p`, at or after `i`, or `p.len()`.
pub open spec fn first_var_from(p: Seq<char>, i: int) -> int
    decreases p.len() - i,
{
    if i >= p.len() {
        p.len() as int
    } else if p[i] == '$' && (i == 0 || p[i - 1] == '/') {
        i
    } else {
        first_var_from(p, i + 1)
    }
}

/// Index of the first slash of `p` at or after `i`, or `p.len()`.
pub open spec fn next_slash_from(p: Seq<char>, i: int) -> int
    decreases p.len() - i,
{
    if i >= p.len() {
        p.len() as int
    } else if p[i] == '/' {
        i
    } else {
        next_slash_from(p, i + 1)
    }
}

/// The file name of `p`: what follows its last slash.
pub open spec fn file_name_of(p: Seq<char>) -> Seq<char> {
    p.skip(last_slash_before(p, p.len() as int) + 1)
}

/// Some segment of `p` starts with `$`.
pub open spec fn has_var_segment(p: Seq<char>) -> bool {
    first_var_from(p, 0) < p.len()
}

/// The three parts of a variable path: before the first `$` segment, that segment, and
/// after it, each without `.ts`.
pub open spec fn variable_parts(p: Seq<char>) -> (Seq<char>, Seq<char>, Seq<char>) {
    let j = first_var_from(p, 0);
    let e = next_slash_from(p, j);
    (
        without_ts(if j == 0 { Seq::empty() } else { p.take(j - 1) }),
        without_ts(p.subrange(j, e)),
        without_ts(if e >= p.len() { Seq::empty() } else { p.skip(e + 1) }),
    )
}

proof fn lemma_scan_bounds(p: Seq<char>, i: int)
    requires
        0 <= i <= p.len(),
    ensures
        i <= first_var_from(p, i) <= p.len(),
        i <= next_slash_from(p, i) <= p.len(),
    decreases p.len() - i,
{
    if i < p.len() {
        lemma_scan_bounds(p, i + 1);
    }
}

/// Classifies a route file of the http router by its path relative to the routes
/// folder. A file named with a leading `_` is a marker: `_index.ts` the index,
/// `_middleware.ts` and `_fallback.ts` the thorns of those names, any other ignored. A
/// path with a segment starting with `$` is a variable path, split around the first
/// such segment, with `.ts` taken out of each part. Any other file passes as it is.
/// `PathResolve` when the path ends without a file name.
pub fn cloud_file_resolve(relative_path: &str) -> (r: Result<CloudFileResolve, DenskyError>)
    ensures
        ({
            let p = relative_path@;
            let name = file_name_of(p);
            &&& name.len() == 0 ==> r == Err::<CloudFileResolve, DenskyError>(DenskyError::PathResolve)
            &&& name.len() > 0 && name[0] == '_' ==> (r matches Ok(y) && (if name == "_index.ts"@ {
                y is Index
            } else if name == "_middleware.ts"@ {
                y matches CloudFileResolve::SingleThorn(t) && t@ == "middleware"@
            } else if name == "_fallback.ts"@ {
                y matches CloudFileResolve::SingleThorn(t) && t@ == "fallback"@
            } else {
                y is Ignore
            }))
            &&& name.len() > 0 && name[0] != '_' && has_var_segment(p) ==> (r matches Ok(y) && (y matches CloudFileResolve::Dynamic(a, b, c) && (a@, b@, c@) == variable_parts(p)))
            &&& name.len() > 0 && name[0] != '_' && !has_var_segment(p) ==> (r matches Ok(y) && y is Pass)
        }),
{
    let p = to_chars(relative_path);
    let n = p.len();
    let mut s: usize = n;
    while s > 0 && p[s - 1] != '/'
        invariant
            p@ == relative_path@,
            n == p@.len(),
            s <= n,
            last_slash_before(p@, n as int) == last_slash_before(p@, s as int),
        decreases s,
    {
        s = s - 1;
    }
    assert(last_slash_before(p@, n as int) + 1 == s);
    if s == n {
        return Err(DenskyError::PathResolve);
    }
    let name = String::from_str(relative_path.substring_char(s, n));
    if p[s] == '_' {
        let index = String::from_str("_index.ts");
        let middleware = String::from_str("_middleware.ts");
        let fallback = String::from_str("_fallback.ts");
        if name.eq(&index) {
            return Ok(CloudFileResolve::Index);
        } else if name.eq(&middleware) {
            return Ok(CloudFileResolve::SingleThorn(String::from_str("middleware")));
        } else if name.eq(&fallback) {
            return Ok(CloudFileResolve::SingleThorn(String::from_str("fallback")));
        } else {
            return Ok(CloudFileResolve::Ignore);
        }
    }
    let mut j: usize = 0;
    assert(first_var_from(p@, 0) == first_var_from(p@, j as int));
    while j < n && !(p[j] == '$' && (j == 0 || p[j - 1] == '/'))
        invariant
            p@ == relative_path@,
            n == p@.len(),
            j <= n,
            first_var_from(p@, 0) == first_var_from(p@, j as int),
        decreases n - j,
    {
        j = j + 1;
    }
    if j == n {
        return Ok(CloudFileResolve::Pass);
    }
    let mut e: usize = j;
    while e < n && p[e] != '/'
        invariant
            p@ == relative_path@,
            n == p@.len(),
            j <= e <= n,
            next_slash_from(p@, j as int) == next_slash_from(p@, e as int),
        decreases n - e,
    {
        e = e + 1;
    }
    let prefix = if j == 0 {
        Vec::new()
    } else {
        remove_ts(&p, 0, j - 1)
    };
    proof {
        if j == 0 {
            assert(without_ts(Seq::<char>::empty()) =~= Seq::<char>::empty());
            assert(prefix@ =~= without_ts(Seq::<char>::empty()));
        } else {
            assert(p@.subrange(0, j - 1) =~= p@.take(j - 1));
        }
    }
    let var = remove_ts(&p, j, e);
    let suffix = if e == n {
        Vec::new()
    } else {
        remove_ts(&p, e + 1, n)
    };
    proof {
        if e == n {
            assert(without_ts(Seq::<char>::empty()) =~= Seq::<char>::empty());
            assert(suffix@ =~= without_ts(Seq::<char>::empty()));
        } else {
            assert(p@.subrange(e + 1, n as int) =~= p@.skip(e + 1));
        }
    }
    Ok(CloudFileResolve::Dynamic(string_from_chars(&prefix), string_from_chars(&var), string_from_chars(&suffix)))
}

/// Whether a plugin is asked about a file named `file_name`: it starts with
/// `file_starts` and ends with `file_ends`, where given.
pub open spec fn passes_filters_spec(name: Seq<char>, starts: Option<Seq<char>>, ends: Option<Seq<char>>) -> bool {
    &&& (starts matches Some(s) ==> s.len() <= name.len() && name.take(s.len() as int) == s)
    &&& (ends matches Some(e) ==> e.len() <= name.len() && name.skip(name.len() - e.len()) == e)
}

/// The host's check before a plugin classifies a file; a file that fails it is ignored.
pub fn passes_filters(file_name: &str, file_starts: Option<&str>, file_ends: Option<&str>) -> (r: bool)
    ensures
        r == passes_filters_spec(
            file_name@,
            match file_starts {
                Some(s) => Some(s@),
                None => None,
            },
            match file_ends {
                Some(e) => Some(e@),
                None => None,
            },
        ),
{
    let ok_start = match file_starts {
        Some(s) => crate::path::starts_with(file_name, s),
        None => true,
    };
    let ok_end = match file_ends {
        Some(e) => ends_with(file_name, e),
        None => true,
    };
    ok_start && ok_end
}

/// Whether `s` ends with `e`.
pub fn ends_with(s: &str, e: &str) -> (r: bool)
    ensures
        r == (e@.len() <= s@.len() && s@.skip(s@.len() - e@.len()) == e@),
{
    let sc = to_chars(s);
    let ec = to_chars(e);
    if ec.len() > sc.len() {
        return false;
    }
    let off = sc.len() - ec.len();
    let mut i: usize = 0;
    while i < ec.len()
        invariant
            sc@ == s@,
            ec@ == e@,
            off == sc@.len() - ec@.len(),
            ec@.len() <= sc@.len(),
            i <= ec@.len(),
            sc@.skip(off as int).take(i as int) == ec@.take(i as int),
        decreases ec@.len() - i,
    {
        assert(off + i < sc.len());
        if sc[off + i] != ec[i] {
            assert(sc@.skip(off as int)[i as int] != ec@[i as int]);
            return false;
        }
        i = i + 1;
        assert(sc@.skip(off as int).take(i as int) =~= ec@.take(i as int));
    }
    assert(sc@.skip(off as int) =~= sc@.skip(off as int).take(ec@.len() as int));
    assert(ec@ =~= ec@.take(ec@.len() as int));
    true
}


/// How `{:?}` writes a string: quoted, with escapes.
pub uninterp spec fn debug_quoted(s: Seq<char>) -> Seq<char>;

/// Relies on `<str as Debug>::fmt` (through `format!("{:?}")`): the quoted, escaped
/// form of the text, which depends on the text alone.
#[verifier::external_body]
fn quoted(s: &str) -> (r: String)
    ensures
        r@ == debug_quoted(s@),
{
    format!("{:?}", s)
}

/// The files of the thorns `name` in a leaf record (the first entry of that name).
pub open spec fn thorn_files(thorns: Seq<(String, Vec<String>)>, name: Seq<char>) -> Seq<String>
    decreases thorns.len(),
{
    if thorns.len() == 0 {
        Seq::empty()
    } else if thorns[0].0@ == name {
        thorns[0].1@
    } else {
        thorn_files(thorns.skip(1), name)
    }
}

/// The files of `files`, each quoted and followed by a comma.
pub open spec fn quoted_list(files: Seq<String>) -> Seq<char>
    decreases files.len(),
{
    if files.len() == 0 {
        Seq::empty()
    } else {
        quoted_list(files.drop_last()) + debug_quoted(files.last()@) + ","@
    }
}

/// The handler record of a node with an input file `p`.
pub open spec fn handler_src(leaf: OptimizedTreeLeaf, p: Seq<char>) -> Seq<char> {
    "return {\nmiddlewares: ["@ + quoted_list(thorn_files(leaf.single_thorns@, "middleware"@))
        + "],\nfallbacks: ["@ + quoted_list(thorn_files(leaf.single_thorns@, "fallback"@))
        + "],\ncontroller: "@ + debug_quoted(p) + "\n};"@
}

/// The handler record guarded to run only when the whole path was matched.
pub open spec fn guarded_src(leaf: OptimizedTreeLeaf) -> Seq<char> {
    match leaf.index {
        Some(p) => "if (req.__accumulator__.segments.length === 0) { "@ + handler_src(leaf, p@) + " }"@,
        None => Seq::empty(),
    }
}

/// The children part: the static children table, when there is one, then the other children.
pub open spec fn children_src(static_children: Seq<char>, children: Seq<char>) -> Seq<char> {
    if static_children.len() == 0 {
        children
    } else {
        "{\nconst __DENSKY_static_children = { "@ + static_children
            + " };\nconst out = __DENSKY_static_children[req.__accumulator__.path];\nif (out) return out();\n};\n"@
            + children
    }
}

/// How many slashes `s` holds.
pub open spec fn slash_count(s: Seq<char>) -> nat
    decreases s.len(),
{
    if s.len() == 0 {
        0
    } else {
        slash_count(s.drop_last()) + if s.last() == '/' { 1nat } else { 0nat }
    }
}

/// The code the router generates for one node (`None` for a static node without an
/// input file, or a slash count past the integer range).
pub open spec fn manifest_src(
    leaf: OptimizedTreeLeaf,
    static_children: Seq<char>,
    children: Seq<char>,
    dynamic_child: Seq<char>,
) -> Option<Seq<char>> {
    let comment = "// "@ + leaf.pathname@;
    let kids = children_src(static_children, children);
    let tail = "\n"@ + guarded_src(leaf) + "\n"@ + dynamic_child + "\nreturn null;"@;
    if leaf.is_root {
        Some(kids + "\n"@ + comment + tail)
    } else if leaf.is_static {
        match leaf.index {
            Some(p) => Some(comment + "\n"@ + handler_src(leaf, p@)),
            None => None,
        }
    } else {
        match leaf.varname {
            Some(v) => {
                let name = if v@.len() == 0 {
                    Seq::<char>::empty()
                } else {
                    v@.skip(1)
                };
                Some(
                    comment + "\nif (req.__accumulator__.segments.length > 0) {\nconst __var_"@ + name
                        + " = req.__accumulator__.segments.shift();\nif (__var_"@ + name
                        + " === undefined) {\nthrow new Error(\"Unreachable\");\n}\nreq.params.set(\""@ + name
                        + "\", __var_"@ + name
                        + ");\n// @ts-ignore READ-ONLY\nreq.__accumulator__.path = req.__accumulator__.segments.join(\"/\");\n"@
                        + kids + tail + "\n}"@,
                )
            },
            None => {
                let rel = leaf.relative_pathname@;
                if slash_count(rel) + 1 > usize::MAX {
                    None
                } else {
                Some(
                    comment + "\nif (req.__accumulator__.path === \""@ + rel
                        + "\" || req.__accumulator__.path.startsWith(\""@ + rel
                        + "/\")) {\n// @ts-ignore READ-ONLY\nreq.__accumulator__.segments = req.__accumulator__.segments.slice("@
                        + decimal_spec(slash_count(rel) + 1)
                        + ");\n// @ts-ignore READ-ONLY\nreq.__accumulator__.path = req.__accumulator__.segments.join(\"/\");\n"@
                        + kids + tail + "\n}"@,
                )
                }
            },
        }
    }
}

fn find_thorn_files<'a>(thorns: &'a Vec<(String, Vec<String>)>, name: &str) -> (r: Option<&'a Vec<String>>)
    ensures
        match r {
            Some(v) => v@ == thorn_files(thorns@, name@),
            None => thorn_files(thorns@, name@) == Seq::<String>::empty(),
        },
{
    let mut i: usize = 0;
    assert(thorns@.skip(0) =~= thorns@);
    while i < thorns.len()
        invariant
            i <= thorns@.len(),
            thorn_files(thorns@, name@) == thorn_files(thorns@.skip(i as int), name@),
        decreases thorns@.len() - i,
    {
        assert(thorns@.skip(i as int).skip(1) =~= thorns@.skip(i + 1));
        if str_eq(thorns[i].0.as_str(), name) {
            return Some(&thorns[i].1);
        }
        i = i + 1;
    }
    None
}

fn quote_all(files: Option<&Vec<String>>) -> (r: String)
    ensures
        r@ == quoted_list(
            match files {
                Some(v) => v@,
                None => Seq::<String>::empty(),
            },
        ),
{
    let mut out = String::new();
    match files {
        Some(v) => {
            let mut i: usize = 0;
            while i < v.len()
                invariant
                    i <= v@.len(),
                    out@ == quoted_list(v@.take(i as int)),
                decreases v@.len() - i,
            {
                let q = quoted(v[i].as_str());
                out = out.concat(q.as_str()).concat(",");
                i = i + 1;
                assert(v@.take(i as int).drop_last() =~= v@.take(i - 1));
            }
            assert(v@.take(v@.len() as int) =~= v@);
        },
        None => {},
    }
    out
}

fn count_slashes(s: &str) -> (r: usize)
    ensures
        r == slash_count(s@),
{
    let c = to_chars(s);
    let mut k: usize = 0;
    let mut i: usize = 0;
    while i < c.len()
        invariant
            c@ == s@,
            i <= c@.len(),
            k == slash_count(c@.take(i as int)),
            k <= i,
        decreases c@.len() - i,
    {
        assert(c@.take(i + 1).drop_last() =~= c@.take(i as int));
        if c[i] == '/' {
            k = k + 1;
        }
        i = i + 1;
    }
    assert(c@.take(c@.len() as int) =~= c@);
    k
}

/// The imports and arguments the router's generated file starts with.
pub fn cloud_before_manifest() -> (r: CloudManifestUpdate)
    ensures
        r.wf(),
        r.imports@ == Map::<Seq<char>, Seq<char>>::empty().insert("densky/http-router.ts"@, "{ type HTTPRequest }"@),
        r.arguments@ == Map::<Seq<char>, Seq<char>>::empty().insert("req"@, "HTTPRequest"@),
        r.content is None,
{
    CloudManifestUpdate::new().add_import(
        String::from_str("{ type HTTPRequest }"),
        String::from_str("densky/http-router.ts"),
    ).add_argument(String::from_str("req"), String::from_str("HTTPRequest"))
}

/// The router's code for one node: the root tries its children and then its own
/// handler; a static node returns its handler; a variable node takes one segment into
/// its variable first; any other node strips its path from the request first. `Fatal`
/// for a static node without an input file.
pub fn cloud_manifest(
    leaf: OptimizedTreeLeaf,
    static_children: String,
    children: String,
    dynamic_child: String,
) -> (r: Result<CloudManifestUpdate, DenskyError>)
    ensures
        manifest_src(leaf, static_children@, children@, dynamic_child@) is None ==> r == Err::<
            CloudManifestUpdate,
            DenskyError,
        >(DenskyError::Fatal),
        manifest_src(leaf, static_children@, children@, dynamic_child@) matches Some(c) ==> (r matches Ok(u) && u.wf()
            && u.imports@ == Map::<Seq<char>, Seq<char>>::empty() && u.arguments@ == Map::<Seq<char>, Seq<char>>::empty()
            && (u.content matches Some(t) && t@ == c)),
{
    let comment = String::from_str("// ").concat(leaf.pathname.as_str());
    let kids = if static_children.unicode_len() == 0 {
        children
    } else {
        String::from_str("{\nconst __DENSKY_static_children = { ").concat(static_children.as_str()).concat(
            " };\nconst out = __DENSKY_static_children[req.__accumulator__.path];\nif (out) return out();\n};\n",
        ).concat(children.as_str())
    };
    let handler = match &leaf.index {
        Some(p) => {
            let mids = quote_all(find_thorn_files(&leaf.single_thorns, "middleware"));
            let fbs = quote_all(find_thorn_files(&leaf.single_thorns, "fallback"));
            let q = quoted(p.as_str());
            Some(
                String::from_str("return {\nmiddlewares: [").concat(mids.as_str()).concat("],\nfallbacks: [").concat(
                    fbs.as_str(),
                ).concat("],\ncontroller: ").concat(q.as_str()).concat("\n};"),
            )
        },
        None => None,
    };
    let guarded = match &handler {
        Some(h) => String::from_str("if (req.__accumulator__.segments.length === 0) { ").concat(h.as_str()).concat(
            " }",
        ),
        None => String::new(),
    };
    let tail = String::from_str("\n").concat(guarded.as_str()).concat("\n").concat(dynamic_child.as_str()).concat(
        "\nreturn null;",
    );
    let content = if leaf.is_root {
        kids.concat("\n").concat(comment.as_str()).concat(tail.as_str())
    } else if leaf.is_static {
        match handler {
            Some(h) => comment.concat("\n").concat(h.as_str()),
            None => return Err(DenskyError::Fatal),
        }
    } else {
        match &leaf.varname {
            Some(v) => {
                let n = v.unicode_len();
                let name = if n == 0 {
                    String::new()
                } else {
                    String::from_str(v.as_str().substring_char(1, n))
                };
                comment.concat("\nif (req.__accumulator__.segments.length > 0) {\nconst __var_").concat(
                    name.as_str(),
                ).concat(" = req.__accumulator__.segments.shift();\nif (__var_").concat(name.as_str()).concat(
                    " === undefined) {\nthrow new Error(\"Unreachable\");\n}\nreq.params.set(\"",
                ).concat(name.as_str()).concat("\", __var_").concat(name.as_str()).concat(
                    ");\n// @ts-ignore READ-ONLY\nreq.__accumulator__.path = req.__accumulator__.segments.join(\"/\");\n",
                ).concat(kids.as_str()).concat(tail.as_str()).concat("\n}")
            },
            None => {
                let rel = leaf.relative_pathname.as_str();
                let count = count_slashes(rel);
                if count == usize::MAX {
                    return Err(DenskyError::Fatal);
                }
                let digits = decimal(count + 1);
                comment.concat("\nif (req.__accumulator__.path === \"").concat(rel).concat(
                    "\" || req.__accumulator__.path.startsWith(\"",
                ).concat(rel).concat(
                    "/\")) {\n// @ts-ignore READ-ONLY\nreq.__accumulator__.segments = req.__accumulator__.segments.slice(",
                ).concat(digits.as_str()).concat(
                    ");\n// @ts-ignore READ-ONLY\nreq.__accumulator__.path = req.__accumulator__.segments.join(\"/\");\n",
                ).concat(kids.as_str()).concat(tail.as_str()).concat("\n}")
            },
        }
    };
    Ok(CloudManifestUpdate::new_content(content))
}


/// The upper-case form of a text.
pub uninterp spec fn upper_of(s: Seq<char>) -> Seq<char>;

/// Relies on `str::to_uppercase`: the upper-case form, which depends on the text alone.
#[verifier::external_body]
fn uppercase(s: &str) -> (r: String)
    ensures
        r@ == upper_of(s@),
{
    s.to_uppercase()
}

/// The http method a handler answers.
pub enum HTTPMethod {
    GET,
    POST,
    DELETE,
    PATCH,
    OPTIONS,
    ANY,
}

/// The method an upper-case name stands for.
pub open spec fn method_of(u: Seq<char>) -> Option<HTTPMethod> {
    if u == "GET"@ {
        Some(HTTPMethod::GET)
    } else if u == "POST"@ {
        Some(HTTPMethod::POST)
    } else if u == "DELETE"@ {
        Some(HTTPMethod::DELETE)
    } else if u == "PATCH"@ {
        Some(HTTPMethod::PATCH)
    } else if u == "OPTIONS"@ {
        Some(HTTPMethod::OPTIONS)
    } else if u == "ANY"@ {
        Some(HTTPMethod::ANY)
    } else {
        None
    }
}

impl HTTPMethod {
    /// The method an upper-case name stands for, if any.
    pub fn from_upper(u: &str) -> (r: Option<HTTPMethod>)
        ensures
            r == method_of(u@),
    {
        if str_eq(u, "GET") {
            Some(HTTPMethod::GET)
        } else if str_eq(u, "POST") {
            Some(HTTPMethod::POST)
        } else if str_eq(u, "DELETE") {
            Some(HTTPMethod::DELETE)
        } else if str_eq(u, "PATCH") {
            Some(HTTPMethod::PATCH)
        } else if str_eq(u, "OPTIONS") {
            Some(HTTPMethod::OPTIONS)
        } else if str_eq(u, "ANY") {
            Some(HTTPMethod::ANY)
        } else {
            None
        }
    }

    /// The method a name stands for, in any case.
    pub fn from_string(value: String) -> (r: Option<HTTPMethod>)
        ensures
            r == method_of(upper_of(value@)),
    {
        let u = uppercase(value.as_str());
        HTTPMethod::from_upper(u.as_str())
    }
}

/// One request handler found in a route file.
pub struct HttpHandler {
    pub method: HTTPMethod,
    pub body: String,
    pub req_param: Option<String>,
}

/// Why a route file could not be read as handlers.
pub enum HttpParseError {
    /// The file has no handlers.
    Empty(String),
    /// `(file, message)`.
    InvalidSyntax(String, String),
    /// The current folder could not be read.
    CurrentDir,
}

} // verus!
