//! The project that a verb is about: its manifest, and the tree around it.
use vstd::prelude::*;
use vstd::string::*;

use crate::manifest::read::{document, from_str, refusal, says};
use crate::manifest::{manifest_error_text, Error, ErrorView, Manifest};
use crate::verbs::common::{root, root_of, Here};
use crate::verbs::doctor::Reach;

verus! {

/// What was found where a manifest was looked for.
pub enum ManifestFile {
    Absent,
    /// It is there, and cannot be read.
    Unreadable(String),
    Holds(String),
}

/// Why a file that is there is no manifest, if it is none. `words` are those in
/// which a schema that does not compile is refused.
pub open spec fn flaw(path: Seq<char>, file: ManifestFile, words: Seq<char>) -> Option<ErrorView> {
    match file {
        ManifestFile::Absent => None,
        ManifestFile::Unreadable(e) => Some(Error::Read { path, source: e@ }),
        ManifestFile::Holds(t) => refusal(t@, path, words),
    }
}

/// The text says why a file that is there is no manifest.
pub open spec fn says_flaw(path: Seq<char>, file: ManifestFile, text: Seq<char>) -> bool {
    exists|words: Seq<char>| #[trigger]
        flaw(path, file, words) is Some && text == manifest_error_text(
            flaw(path, file, words)->0,
        )
}

/// The manifest is the one that the file holds.
pub open spec fn holds_manifest(path: Seq<char>, file: ManifestFile, m: Manifest) -> bool {
    file matches ManifestFile::Holds(t) && (forall|words: Seq<char>| #[trigger]
        refusal(t@, path, words) is None) && document(t@, path) is Ok && says(
        m,
        document(t@, path)->Ok_0,
    )
}

pub open spec fn no_manifest(path: Seq<char>) -> Seq<char> {
    "no manifest at "@ + path
        + ". reaper is run from inside a project; see docs/tenants.md for what one looks like"@
}

/// What the file holds; nothing if there is none.
fn load(path: &str, file: &ManifestFile) -> (r: Option<Result<Manifest, Error>>)
    ensures
        match r {
            None => file is Absent,
            Some(Ok(m)) => holds_manifest(path@, *file, m),
            Some(Err(e)) => file !is Absent && exists|words: Seq<char>| #[trigger]
                flaw(path@, *file, words) == Some(e@),
        },
{
    match file {
        ManifestFile::Absent => None,
        ManifestFile::Unreadable(e) => {
            assert(flaw(path@, *file, Seq::empty()) is Some);
            Some(Err(Error::Read { path: path.to_string(), source: e.clone() }))
        },
        ManifestFile::Holds(t) => {
            let r = from_str(t.as_str(), path);
            proof {
                let words = choose|words: Seq<char>|
                    match r {
                        Ok(m) => #[trigger] refusal(t@, path@, words) is None && document(
                            t@,
                            path@,
                        ) is Ok && says(m, document(t@, path@)->Ok_0),
                        Err(e) => refusal(t@, path@, words) == Some(e@),
                    };
                assert(flaw(path@, *file, words) == refusal(t@, path@, words));
            }
            Some(r)
        },
    }
}

/// The manifest a verb is to go by.
pub fn load_manifest(path: &str, file: &ManifestFile) -> (r: Result<Manifest, String>)
    ensures
        match r {
            Ok(m) => holds_manifest(path@, *file, m),
            Err(e) => if file is Absent {
                e@ == no_manifest(path@)
            } else {
                says_flaw(path@, *file, e@)
            },
        },
{
    match load(path, file) {
        None => Err(
            "no manifest at ".to_string().concat(path).concat(
                ". reaper is run from inside a project; see docs/tenants.md for what one looks like",
            ),
        ),
        Some(Ok(m)) => Ok(m),
        Some(Err(e)) => Err(e.message()),
    }
}

/// The project a verb was pointed at, if it was pointed at one.
///
/// Every verb that acts on a project's sessions can be pointed at a manifest,
/// and they all have to agree about what it means -- otherwise it selects the
/// work for one verb and is silently rejected by the next.
pub fn project_of(named: &Option<(String, ManifestFile)>) -> (r: Result<Option<String>, String>)
    ensures
        match *named {
            None => r matches Ok(None),
            Some(p) => match r {
                Ok(None) => false,
                Ok(Some(project)) => exists|m: Manifest| #[trigger]
                    holds_manifest(p.0@, p.1, m) && m.project == project,
                Err(e) => if p.1 is Absent {
                    e@ == no_manifest(p.0@)
                } else {
                    says_flaw(p.0@, p.1, e@)
                },
            },
        },
{
    match named {
        None => Ok(None),
        Some(p) => match load_manifest(p.0.as_str(), &p.1) {
            Ok(m) => {
                let ghost whole = m;
                assert(holds_manifest(p.0@, p.1, whole));
                Ok(Some(m.project))
            },
            Err(e) => Err(e),
        },
    }
}

/// The project that is stood in, if one is.
pub fn project_here(path: &str, file: &ManifestFile) -> (r: Here)
    ensures
        match r {
            Here::Absent => file is Absent,
            Here::Project(project) => exists|m: Manifest| #[trigger]
                holds_manifest(path@, *file, m) && m.project == project,
            Here::Broken(e) => says_flaw(path@, *file, e@),
        },
{
    match load(path, file) {
        None => Here::Absent,
        Some(Ok(m)) => {
            let ghost whole = m;
            assert(holds_manifest(path@, *file, whole));
            Here::Project(m.project)
        },
        Some(Err(e)) => Here::Broken(e.message()),
    }
}

/// The manifest as the doctor finds it.
pub fn in_reach(path: &str, file: &ManifestFile) -> (r: Reach)
    ensures
        match r {
            Reach::Absent => file is Absent,
            Reach::Valid(m) => holds_manifest(path@, *file, m),
            Reach::Broken(e) => says_flaw(path@, *file, e@),
        },
{
    match load(path, file) {
        None => Reach::Absent,
        Some(Ok(m)) => Reach::Valid(m),
        Some(Err(e)) => Reach::Broken(e.message()),
    }
}

/// The tree that results can land in, and the project it belongs to, if a
/// project is in reach.
///
/// A session may be taken down from anywhere, and results have nowhere to land
/// unless the project they belong to is here. A manifest that was named wins,
/// exactly as it does for selecting the sessions; otherwise it is the one here.
pub fn tree_for(named: &Option<(String, ManifestFile)>, path: &str, file: &ManifestFile) -> (r:
    Option<(String, String)>)
    ensures
        match *named {
            Some(p) => match r {
                Some(t) => t.1@ == root(p.0@) && exists|m: Manifest| #[trigger]
                    holds_manifest(p.0@, p.1, m) && m.project == t.0,
                None => p.1 is Absent || exists|words: Seq<char>| #[trigger]
                    flaw(p.0@, p.1, words) is Some,
            },
            None => match r {
                Some(t) => t.1@ == "."@ && exists|m: Manifest| #[trigger]
                    holds_manifest(path@, *file, m) && m.project == t.0,
                None => file is Absent || exists|words: Seq<char>| #[trigger]
                    flaw(path@, *file, words) is Some,
            },
        },
{
    match named {
        Some(p) => match load(p.0.as_str(), &p.1) {
            Some(Ok(m)) => {
                let ghost whole = m;
                assert(holds_manifest(p.0@, p.1, whole));
                Some((m.project, root_of(p.0.as_str())))
            },
            _ => None,
        },
        None => match load(path, file) {
            Some(Ok(m)) => {
                let ghost whole = m;
                assert(holds_manifest(path@, *file, whole));
                Some((m.project, ".".to_string()))
            },
            _ => None,
        },
    }
}

}
