//! Where the layer stores keep their documents: `<root>/config`,
//! `<root>/dimensions` and `<root>/state`, one file `<id>@<version>.json` per
//! document. Reading and writing the files is the caller's part.

use vstd::prelude::*;

verus! {

/// Joins a path segment onto a base path, as POSIX paths are joined: an
/// absolute segment replaces the base; otherwise a `/` separates them unless
/// the base is empty or already ends with one.
pub open spec fn path_join(base: Seq<char>, segment: Seq<char>) -> Seq<char> {
    if segment.len() > 0 && segment[0] == '/' {
        segment
    } else if base.len() == 0 || base.last() == '/' {
        base + segment
    } else {
        base + "/"@ + segment
    }
}

/// The file name of a document: `<id>@<version>.json`.
pub open spec fn document_file(id: Seq<char>, version: Seq<char>) -> Seq<char> {
    id + "@"@ + version + ".json"@
}

pub fn join_path(base: &str, segment: &str) -> (p: String)
    ensures
        p@ == path_join(base@, segment@),
{
    let sl = segment.unicode_len();
    if sl > 0 && segment.get_char(0) == '/' {
        return String::from_str(segment);
    }
    let bl = base.unicode_len();
    let mut p = String::from_str(base);
    if bl > 0 && base.get_char(bl - 1) != '/' {
        p.append("/");
    }
    p.append(segment);
    p
}

fn file_name(id: &str, version: &str) -> (s: String)
    ensures
        s@ == document_file(id@, version@),
{
    let mut s = String::from_str(id);
    s.append("@");
    s.append(version);
    s.append(".json");
    s
}

/// The store of Configuration documents.
pub struct ConfigStore {
    root: String,
}

impl View for ConfigStore {
    type V = Seq<char>;

    closed spec fn view(&self) -> Seq<char> {
        self.root@
    }
}

impl ConfigStore {
    pub fn new(root: String) -> (s: Self)
        ensures
            s@ == root@,
    {
        ConfigStore { root }
    }

    /// `<root>/config`.
    pub fn config_dir(&self) -> (p: String)
        ensures
            p@ == path_join(self@, "config"@),
    {
        join_path(self.root.as_str(), "config")
    }

    /// `<root>/config/<config_id>@<version>.json`.
    pub fn config_path(&self, config_id: &str, version: &str) -> (p: String)
        ensures
            p@ == path_join(path_join(self@, "config"@), document_file(config_id@, version@)),
    {
        let dir = self.config_dir();
        let name = file_name(config_id, version);
        join_path(dir.as_str(), name.as_str())
    }
}

/// The store of Dimensions documents.
pub struct DimensionsStore {
    root: String,
}

impl View for DimensionsStore {
    type V = Seq<char>;

    closed spec fn view(&self) -> Seq<char> {
        self.root@
    }
}

impl DimensionsStore {
    pub fn new(root: String) -> (s: Self)
        ensures
            s@ == root@,
    {
        DimensionsStore { root }
    }

    /// `<root>/dimensions`.
    pub fn dims_dir(&self) -> (p: String)
        ensures
            p@ == path_join(self@, "dimensions"@),
    {
        join_path(self.root.as_str(), "dimensions")
    }

    /// `<root>/dimensions/<dims_id>@<version>.json`.
    pub fn dims_path(&self, dims_id: &str, version: &str) -> (p: String)
        ensures
            p@ == path_join(path_join(self@, "dimensions"@), document_file(dims_id@, version@)),
    {
        let dir = self.dims_dir();
        let name = file_name(dims_id, version);
        join_path(dir.as_str(), name.as_str())
    }
}

/// The store of State documents.
pub struct StateStore {
    root: String,
}

impl View for StateStore {
    type V = Seq<char>;

    closed spec fn view(&self) -> Seq<char> {
        self.root@
    }
}

impl StateStore {
    pub fn new(root: String) -> (s: Self)
        ensures
            s@ == root@,
    {
        StateStore { root }
    }

    /// `<root>/state`.
    pub fn state_dir(&self) -> (p: String)
        ensures
            p@ == path_join(self@, "state"@),
    {
        join_path(self.root.as_str(), "state")
    }

    /// `<root>/state/<state_id>@<version>.json`.
    pub fn state_path(&self, state_id: &str, version: &str) -> (p: String)
        ensures
            p@ == path_join(path_join(self@, "state"@), document_file(state_id@, version@)),
    {
        let dir = self.state_dir();
        let name = file_name(state_id, version);
        join_path(dir.as_str(), name.as_str())
    }
}

} // verus!
