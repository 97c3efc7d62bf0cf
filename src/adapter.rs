//! The records exchanged with plugins and the small helpers around them.
use vstd::prelude::*;
use vstd::string::*;

use crate::path::to_chars;

verus! {

/// Whether two strings hold the same characters.
pub fn str_eq(a: &str, b: &str) -> (r: bool)
    ensures
        r == (a@ == b@),
{
    let x = to_chars(a);
    let y = to_chars(b);
    if x.len() != y.len() {
        return false;
    }
    let mut i: usize = 0;
    while i < x.len()
        invariant
            x@ == a@,
            y@ == b@,
            x.len() == y.len(),
            i <= x.len(),
            x@.take(i as int) == y@.take(i as int),
        decreases x.len() - i,
    {
        if x[i] != y[i] {
            assert(x@[i as int] != y@[i as int]);
            return false;
        }
        i = i + 1;
        assert(x@.take(i as int) =~= y@.take(i as int));
    }
    assert(x@ =~= x@.take(x@.len() as int));
    assert(y@ =~= y@.take(y@.len() as int));
    true
}

/// A discovered file as handed to a plugin.
pub struct CloudFile {
    pub file_path: String,
    pub relative_path: String,
    pub output_path: String,
}

impl CloudFile {
    pub fn new(full_path: &str, relative_path: &str, output_path: &str) -> (r: CloudFile)
        ensures
            r.file_path@ == full_path@,
            r.relative_path@ == relative_path@,
            r.output_path@ == output_path@,
    {
        CloudFile {
            file_path: String::from_str(full_path),
            relative_path: String::from_str(relative_path),
            output_path: String::from_str(output_path),
        }
    }
}

/// How a plugin wants its files walked.
pub enum CloudFilesStrategy {
    /// No walk.
    NoTree,
    SimpleTree,
    OptimizedTree,
}

/// Where a build reads and writes.
pub struct CompileContext {
    pub output_dir: String,
    pub cwd: String,
    pub verbose: bool,
}

pub struct CompileOptions {
    pub verbose: bool,
}

/// The state the http router plugin keeps between calls.
pub struct HttpRouterContext {
    pub container: bool,
}

/// How much is logged, from nothing to everything.
pub enum LogLevel {
    Unset,
    Off,
    Error,
    Warn,
    Info,
    Debug,
    Trace,
}

/// The level a name of the log level setting stands for; an unknown name means `Info`.
pub open spec fn level_of(v: Seq<char>) -> LogLevel {
    if v == "n"@ || v == "no"@ || v == "none"@ {
        LogLevel::Off
    } else if v == "e"@ || v == "err"@ || v == "error"@ {
        LogLevel::Error
    } else if v == "w"@ || v == "wrn"@ || v == "warn"@ {
        LogLevel::Warn
    } else if v == "i"@ || v == "inf"@ || v == "info"@ {
        LogLevel::Info
    } else if v == "d"@ || v == "dbg"@ || v == "debug"@ {
        LogLevel::Debug
    } else if v == "t"@ || v == "trc"@ || v == "trace"@ {
        LogLevel::Trace
    } else {
        LogLevel::Info
    }
}

impl LogLevel {
    /// The level a setting names: `n`/`no`/`none`, `e`/`err`/`error`, `w`/`wrn`/`warn`,
    /// `i`/`inf`/`info`, `d`/`dbg`/`debug`, `t`/`trc`/`trace`; anything else is `Info`.
    pub fn from_name(value: &str) -> (r: LogLevel)
        ensures
            r == level_of(value@),
    {
        if str_eq(value, "n") || str_eq(value, "no") || str_eq(value, "none") {
            LogLevel::Off
        } else if str_eq(value, "e") || str_eq(value, "err") || str_eq(value, "error") {
            LogLevel::Error
        } else if str_eq(value, "w") || str_eq(value, "wrn") || str_eq(value, "warn") {
            LogLevel::Warn
        } else if str_eq(value, "i") || str_eq(value, "inf") || str_eq(value, "info") {
            LogLevel::Info
        } else if str_eq(value, "d") || str_eq(value, "dbg") || str_eq(value, "debug") {
            LogLevel::Debug
        } else if str_eq(value, "t") || str_eq(value, "trc") || str_eq(value, "trace") {
            LogLevel::Trace
        } else {
            LogLevel::Info
        }
    }
}

/// What happened to a watched file.
pub enum WatchKind {
    Create,
    Remove,
    Modify,
}

/// A change to one watched file.
pub struct WatchEvent {
    pub kind: WatchKind,
    pub path: String,
}

pub open spec fn kind_name(k: WatchKind) -> Seq<char> {
    match k {
        WatchKind::Create => "create"@,
        WatchKind::Remove => "remove"@,
        WatchKind::Modify => "modify"@,
    }
}

/// The entries `["kind","path"],` of the first `n` events.
pub open spec fn event_items(e: Seq<WatchEvent>, n: int) -> Seq<char>
    decreases n,
{
    if n <= 0 {
        Seq::empty()
    } else {
        event_items(e, n - 1) + "[\""@ + kind_name(e[n - 1].kind) + "\",\""@ + e[n - 1].path@ + "\"],"@
    }
}

/// The update message for `events`: a JSON array of `[kind, path]` pairs.
pub open spec fn update_payload_spec(events: Seq<WatchEvent>) -> Seq<char> {
    let body = "["@ + event_items(events, events.len() as int);
    body.drop_last() + "]"@
}

/// The update message sent to the running server for `events`, a JSON array of
/// `[kind, path]` pairs (paths written as they are).
pub fn update_payload(events: &Vec<WatchEvent>) -> (r: String)
    ensures
        r@ == update_payload_spec(events@),
{
    let mut out: Vec<char> = to_chars("[");
    let mut i: usize = 0;
    while i < events.len()
        invariant
            i <= events@.len(),
            out@ == "["@ + event_items(events@, i as int),
        decreases events@.len() - i,
    {
        let kind = match events[i].kind {
            WatchKind::Create => "create",
            WatchKind::Remove => "remove",
            WatchKind::Modify => "modify",
        };
        let piece = String::from_str("[\"").concat(kind).concat("\",\"").concat(events[i].path.as_str()).concat(
            "\"],",
        );
        let chars = to_chars(piece.as_str());
        let ghost before = out@;
        let mut j: usize = 0;
        while j < chars.len()
            invariant
                j <= chars@.len(),
                out@ == before + chars@.take(j as int),
            decreases chars@.len() - j,
        {
            out.push(chars[j]);
            j = j + 1;
            assert(out@ =~= before + chars@.take(j as int));
        }
        assert(chars@.take(chars@.len() as int) =~= chars@);
        i = i + 1;
        assert(out@ =~= "["@ + event_items(events@, i as int));
    }
    let ghost whole = out@;
    proof {
        reveal_strlit("[");
        assert(whole.len() >= 1);
    }
    out.pop();
    assert(out@ =~= whole.drop_last());
    let body = crate::path::string_from_chars(&out);
    body.concat("]")
}

/// An import statement: `import t from "filename";`.
pub fn import(t: &str, filename: &str) -> (r: String)
    ensures
        r@ == "import "@ + t@ + " from \""@ + filename@ + "\";"@,
{
    String::from_str("import ").concat(t).concat(" from \"").concat(filename).concat("\";")
}

/// The file name of an import, as it is written inside the quotes.
pub fn import_filename(filename: &str) -> (r: String)
    ensures
        r@ == filename@,
{
    String::from_str(filename)
}


/// Which log labels are shown.
pub enum LogFilter {
    Unset,
    /// Nothing.
    Off,
    /// Everything.
    All,
    /// Labels starting with one of these.
    List(Vec<String>),
}

/// The pieces of `t` between commas after the first `i` characters: done pieces and
/// the piece being read.
pub open spec fn comma_state(t: Seq<char>, i: int) -> (Seq<Seq<char>>, Seq<char>)
    decreases i,
{
    if i <= 0 {
        (Seq::empty(), Seq::empty())
    } else {
        let st = comma_state(t, i - 1);
        if t[i - 1] == ',' {
            (st.0.push(st.1), Seq::empty())
        } else {
            (st.0, st.1.push(t[i - 1]))
        }
    }
}

/// The pieces of `t` between commas, empty ones included.
pub open spec fn comma_pieces(t: Seq<char>) -> Seq<Seq<char>> {
    let st = comma_state(t, t.len() as int);
    st.0.push(st.1)
}

/// The filter a setting of the label filter stands for: everything when it is not
/// set, nothing for `None` (or `none`), else the comma-separated label prefixes.
pub open spec fn filter_of(v: Option<Seq<char>>) -> Option<Seq<Seq<char>>> {
    match v {
        None => None,
        Some(t) => if t == "None"@ || t == "none"@ {
            Some(Seq::empty())
        } else {
            Some(comma_pieces(t))
        },
    }
}

impl LogFilter {
    /// The filter a setting stands for (see [`filter_of`]): `All` when unset, `Off` for
    /// `None`, else the list of prefixes.
    pub fn from_setting(value: Option<&str>) -> (r: LogFilter)
        ensures
            value is None ==> r is All,
            value matches Some(v) ==> (v@ == "None"@ || v@ == "none"@) ==> r is Off,
            value matches Some(v) ==> !(v@ == "None"@ || v@ == "none"@) ==> (r matches LogFilter::List(l)
                && l@.map_values(|s: String| s@) == comma_pieces(v@)),
    {
        match value {
            None => LogFilter::All,
            Some(v) => {
                if str_eq(v, "None") || str_eq(v, "none") {
                    return LogFilter::Off;
                }
                let t = to_chars(v);
                let mut done: Vec<String> = Vec::new();
                let mut cur: Vec<char> = Vec::new();
                let mut i: usize = 0;
                while i < t.len()
                    invariant
                        t@ == v@,
                        i <= t@.len(),
                        done@.map_values(|s: String| s@) == comma_state(t@, i as int).0,
                        cur@ == comma_state(t@, i as int).1,
                    decreases t@.len() - i,
                {
                    if t[i] == ',' {
                        let ghost before = done@;
                        done.push(crate::path::string_from_chars(&cur));
                        assert(done@.map_values(|s: String| s@) =~= before.map_values(|s: String| s@).push(cur@));
                        cur = Vec::new();
                        assert(cur@ =~= comma_state(t@, i + 1).1);
                    } else {
                        cur.push(t[i]);
                    }
                    i = i + 1;
                }
                let ghost before = done@;
                done.push(crate::path::string_from_chars(&cur));
                assert(done@.map_values(|s: String| s@) =~= before.map_values(|s: String| s@).push(cur@));
                LogFilter::List(done)
            },
        }
    }
}

/// The rank of a level: `Unset` lowest, `Trace` highest.
pub open spec fn level_rank(l: LogLevel) -> int {
    match l {
        LogLevel::Unset => 0,
        LogLevel::Off => 1,
        LogLevel::Error => 2,
        LogLevel::Warn => 3,
        LogLevel::Info => 4,
        LogLevel::Debug => 5,
        LogLevel::Trace => 6,
    }
}

fn rank(l: &LogLevel) -> (r: u8)
    ensures
        r == level_rank(*l),
{
    match l {
        LogLevel::Unset => 0,
        LogLevel::Off => 1,
        LogLevel::Error => 2,
        LogLevel::Warn => 3,
        LogLevel::Info => 4,
        LogLevel::Debug => 5,
        LogLevel::Trace => 6,
    }
}

/// Some prefix of `prefixes` starts `label`.
pub open spec fn label_listed(prefixes: Seq<String>, label: Seq<char>) -> bool {
    exists|i: int|
        0 <= i < prefixes.len() && (#[trigger] prefixes[i])@.len() <= label.len() && label.take(
            prefixes[i]@.len() as int,
        ) == prefixes[i]@
}

/// Whether a message of level `target` and label `label` is shown under the level
/// `level` and the filter `filter`: its level is not above `level`, and the filter lets
/// the label through (an unset filter lets nothing through).
pub fn must_show(target: &LogLevel, level: &LogLevel, filter: &LogFilter, label: &str) -> (r: bool)
    ensures
        r == (level_rank(*target) <= level_rank(*level) && match filter {
            LogFilter::All => true,
            LogFilter::List(l) => label_listed(l@, label@),
            _ => false,
        }),
{
    if rank(target) > rank(level) {
        return false;
    }
    match filter {
        LogFilter::All => true,
        LogFilter::List(l) => {
            let mut i: usize = 0;
            while i < l.len()
                invariant
                    i <= l@.len(),
                    level_rank(*target) <= level_rank(*level),
                    match *filter {
                        LogFilter::List(ll) => ll == *l,
                        _ => false,
                    },
                    forall|j: int| 0 <= j < i ==> !((#[trigger] l@[j])@.len() <= label@.len() && label@.take(
                        l@[j]@.len() as int,
                    ) == l@[j]@),
                decreases l@.len() - i,
            {
                if crate::path::starts_with(label, l[i].as_str()) {
                    assert(label_listed(l@, label@)) by {
                        assert(l@[i as int]@ == l[i as int]@);
                    }
                    return true;
                }
                i = i + 1;
            }
            false
        },
        _ => false,
    }
}

} // verus!
