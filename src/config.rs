//! The project configuration: output folder, plugin search folders and the plugins
//! ("clouds") a project uses, with their versions.
use vstd::prelude::*;
use vstd::string::*;

use crate::node::DenskyError;
use crate::path::{join_paths, join_spec};

verus! {

/// Whether `s` reads as a semver version requirement.
pub uninterp spec fn version_req_accepts(s: Seq<char>) -> bool;

/// Relies on `semver::VersionReq::parse`: whether the text parses as a version
/// requirement, which depends on the text alone.
#[verifier::external_body]
fn parses_as_version_req(s: &str) -> (r: bool)
    ensures
        r == version_req_accepts(s@),
{
    semver::VersionReq::parse(s).is_ok()
}

/// The version a project asks of a plugin.
pub enum CloudVersion {
    /// A semver requirement, as written.
    Semver(String),
    /// A folder to load the plugin from.
    Path(String),
    Unknown(String),
}

impl CloudVersion {
    /// The version a text stands for, given whether it parses as a version requirement:
    /// a requirement if it does, else a path.
    pub fn classify(value: String, is_req: bool) -> (r: CloudVersion)
        ensures
            is_req ==> r == CloudVersion::Semver(value),
            !is_req ==> r == CloudVersion::Path(value),
    {
        if is_req {
            CloudVersion::Semver(value)
        } else {
            CloudVersion::Path(value)
        }
    }

    /// The version a text stands for: a semver requirement when it parses as one, else
    /// a path.
    pub fn from_text(value: String) -> (r: CloudVersion)
        ensures
            version_req_accepts(value@) ==> r == CloudVersion::Semver(value),
            !version_req_accepts(value@) ==> r == CloudVersion::Path(value),
    {
        let is_req = parses_as_version_req(value.as_str());
        CloudVersion::classify(value, is_req)
    }
}

/// One entry of the `clouds` table, as read from the file.
pub enum CloudEntry {
    /// `"name": "version"`.
    Version(String),
    /// `"name": { "version": ... }`, the version if given.
    Table(Option<String>),
    /// Anything else.
    Invalid,
}

/// A plugin a project uses.
pub struct CloudDependency {
    pub name: String,
    pub version: CloudVersion,
    pub optional: bool,
}

/// A project's configuration.
pub struct ConfigFile {
    pub verbose: bool,
    pub output: String,
    pub vendor: Vec<String>,
    pub dependencies: Vec<CloudDependency>,
}

/// The `vendor` entries that are texts, each taken from `cwd`, in order; other entries
/// (`None`) are dropped.
pub open spec fn vendor_folders(v: Seq<Option<String>>, cwd: Seq<char>) -> Seq<Seq<char>>
    decreases v.len(),
{
    if v.len() == 0 {
        Seq::empty()
    } else {
        match v.last() {
            Some(s) => vendor_folders(v.drop_last(), cwd).push(join_spec(s@, cwd)),
            None => vendor_folders(v.drop_last(), cwd),
        }
    }
}

/// The version text of a `clouds` entry: its string, the table's version, or `*`.
pub open spec fn entry_version(e: CloudEntry) -> Seq<char> {
    match e {
        CloudEntry::Version(v) => v@,
        CloudEntry::Table(Some(v)) => v@,
        _ => "*"@,
    }
}

pub open spec fn version_of(text: Seq<char>, v: CloudVersion) -> bool {
    if version_req_accepts(text) {
        v matches CloudVersion::Semver(s) && s@ == text
    } else {
        v matches CloudVersion::Path(s) && s@ == text
    }
}

impl ConfigFile {
    /// The configuration from what the file holds: `verbose` (default false), `output`
    /// (default `.densky`) and each `vendor` folder given as text taken from `cwd`, and the `clouds`
    /// entries with their versions. `Config` when a `clouds` entry is neither a version
    /// nor a table.
    pub fn assemble(
        cwd: &str,
        verbose: Option<bool>,
        output: Option<String>,
        vendor: Vec<Option<String>>,
        clouds: Vec<(String, CloudEntry)>,
    ) -> (r: Result<ConfigFile, DenskyError>)
        ensures
            r is Err <==> exists|i: int| 0 <= i < clouds@.len() && (#[trigger] clouds@[i]).1 is Invalid,
            r is Err ==> r == Err::<ConfigFile, DenskyError>(DenskyError::Config),
            r matches Ok(c) ==> {
                &&& c.verbose == (verbose == Some(true))
                &&& c.output@ == join_spec(
                    match output {
                        Some(o) => o@,
                        None => ".densky"@,
                    },
                    cwd@,
                )
                &&& c.vendor@.map_values(|f: String| f@) == vendor_folders(vendor@, cwd@)
                &&& c.dependencies@.len() == clouds@.len()
                &&& forall|i: int|
                    0 <= i < clouds@.len() ==> (#[trigger] c.dependencies@[i]).name == clouds@[i].0
                        && version_of(entry_version(clouds@[i].1), c.dependencies@[i].version)
                        && !c.dependencies@[i].optional
            },
    {
        let out = match &output {
            Some(o) => join_paths(o.as_str(), cwd),
            None => join_paths(".densky", cwd),
        };
        let mut folders: Vec<String> = Vec::new();
        let mut i: usize = 0;
        while i < vendor.len()
            invariant
                i <= vendor@.len(),
                folders@.map_values(|f: String| f@) == vendor_folders(vendor@.take(i as int), cwd@),
            decreases vendor@.len() - i,
        {
            assert(vendor@.take(i + 1).drop_last() =~= vendor@.take(i as int));
            match &vendor[i] {
                Some(v) => {
                    let ghost before = folders@;
                    folders.push(join_paths(v.as_str(), cwd));
                    assert(folders@.map_values(|f: String| f@) =~= before.map_values(|f: String| f@).push(
                        join_spec(v@, cwd@),
                    ));
                },
                None => {},
            }
            i = i + 1;
        }
        assert(vendor@.take(vendor@.len() as int) =~= vendor@);
        let mut deps: Vec<CloudDependency> = Vec::new();
        let mut k: usize = 0;
        while k < clouds.len()
            invariant
                k <= clouds@.len(),
                deps@.len() == k,
                forall|j: int| 0 <= j < k ==> !((#[trigger] clouds@[j]).1 is Invalid),
                forall|j: int|
                    0 <= j < k ==> (#[trigger] deps@[j]).name == clouds@[j].0 && version_of(
                        entry_version(clouds@[j].1),
                        deps@[j].version,
                    ) && !deps@[j].optional,
            decreases clouds@.len() - k,
        {
            let text = match &clouds[k].1 {
                CloudEntry::Version(v) => v.clone(),
                CloudEntry::Table(Some(v)) => v.clone(),
                CloudEntry::Table(None) => String::from_str("*"),
                CloudEntry::Invalid => return Err(DenskyError::Config),
            };
            let version = CloudVersion::from_text(text);
            deps.push(CloudDependency { name: clouds[k].0.clone(), version, optional: false });
            k = k + 1;
        }
        Ok(ConfigFile { verbose: verbose == Some(true), output: out, vendor: folders, dependencies: deps })
    }
}

} // verus!
