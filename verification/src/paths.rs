//! Where ZCode keeps its data, and where the cleaner keeps its settings.
use crate::text::{copy_list, law_inner_stands_between};
use vstd::prelude::*;
use vstd::string::*;

verus! {

/// A path that is made by joining parts to a base, one after the other.
///
/// How two parts are joined is up to the platform that the path is used on.
#[derive(Debug)]
pub struct FilePath {
    /// What the parts are joined to.
    pub base: String,
    /// The parts, outermost first.
    pub parts: Vec<String>,
}

/// What a `FilePath` holds.
#[verifier::ext_equal]
pub struct FilePathView {
    pub base: Seq<char>,
    pub parts: Seq<Seq<char>>,
}

impl DeepView for FilePath {
    type V = FilePathView;

    open spec fn deep_view(&self) -> FilePathView {
        FilePathView { base: self.base@, parts: self.parts.deep_view() }
    }
}

impl FilePathView {
    /// The path with one more part at its end.
    pub open spec fn join(self, part: Seq<char>) -> FilePathView {
        FilePathView { base: self.base, parts: self.parts.push(part) }
    }
}

impl FilePath {
    /// The path that is `base` alone.
    pub fn new(base: String) -> (r: FilePath)
        ensures
            r.deep_view() == (FilePathView { base: base@, parts: Seq::empty() }),
    {
        let r = FilePath { base, parts: Vec::new() };
        assert(r.deep_view() =~= (FilePathView { base: base@, parts: Seq::empty() }));
        r
    }

    /// The path with one more part at its end.
    pub fn join(&self, part: &str) -> (r: FilePath)
        ensures
            r.deep_view() == self.deep_view().join(part@),
    {
        let mut parts = copy_list(&self.parts);
        let ghost before = parts.deep_view();
        parts.push(part.to_owned());
        assert(parts.deep_view() =~= before.push(part@));
        FilePath { base: self.base.clone(), parts }
    }
}

/// The environment variable that names the user's home directory.
pub open spec fn home_variable_text(windows: bool) -> Seq<char> {
    if windows {
        "USERPROFILE"@
    } else {
        "HOME"@
    }
}

/// The environment variable that names the user's home directory.
pub fn home_variable(windows: bool) -> (r: &'static str)
    ensures
        r@ == home_variable_text(windows),
{
    if windows {
        "USERPROFILE"
    } else {
        "HOME"
    }
}

/// ZCode's data directory: what `ZCODE_HOME` says, else `.zcode` in the home directory.
pub open spec fn zcode_root_path(
    zcode_home: Option<Seq<char>>,
    home: Option<Seq<char>>,
) -> FilePathView {
    match zcode_home {
        Some(dir) => FilePathView { base: dir, parts: Seq::empty() },
        None => FilePathView { base: home->0, parts: seq![".zcode"@] },
    }
}

/// ZCode's data directory, from the values of `ZCODE_HOME` and of the home variable. The second is
/// needed only where the first is not set.
pub fn zcode_root(zcode_home: Option<String>, home: Option<String>) -> (r: FilePath)
    requires
        zcode_home is Some || home is Some,
    ensures
        r.deep_view() == zcode_root_path(zcode_home.deep_view(), home.deep_view()),
{
    match zcode_home {
        Some(dir) => FilePath::new(dir),
        None => {
            let r = FilePath::new(home.unwrap()).join(".zcode");
            assert(r.deep_view().parts =~= seq![".zcode"@]);
            r
        },
    }
}

/// The session database below ZCode's data directory.
pub fn db_path(root: &FilePath) -> (r: FilePath)
    ensures
        r.deep_view() == root.deep_view().join("cli/db/db.sqlite"@),
{
    root.join("cli/db/db.sqlite")
}

/// The write-ahead log of the session database.
pub fn wal_path(root: &FilePath) -> (r: FilePath)
    ensures
        r.deep_view() == root.deep_view().join("cli/db/db.sqlite-wal"@),
{
    root.join("cli/db/db.sqlite-wal")
}

/// The file with the cleaner's settings in the home directory.
pub fn settings_path(home: &FilePath) -> (r: FilePath)
    ensures
        r.deep_view() == home.deep_view().join(".zcode-cleaner.json"@),
{
    home.join(".zcode-cleaner.json")
}

/// The directory of rollout files, relative to ZCode's data directory.
pub const ROLLOUT_DIR: &'static str = "cli/rollout";

/// The name of a session's rollout file.
pub open spec fn rollout_name_text(id: Seq<char>) -> Seq<char> {
    "model-io-"@ + id + ".jsonl"@
}

/// The name of a session's rollout file.
pub fn rollout_name(id: &str) -> (r: String)
    ensures
        r@ == rollout_name_text(id@),
{
    let mut r = "model-io-".to_owned();
    r.append(id);
    r.append(".jsonl");
    r
}

/// Joining keeps the path and adds one part behind it.
pub proof fn law_join_adds_one_part(path: FilePathView, part: Seq<char>)
    ensures
        path.join(part).base == path.base,
        path.parts.is_prefix_of(path.join(part).parts),
        path.join(part).parts.len() == path.parts.len() + 1,
        path.join(part).parts.last() == part,
{
}

/// `ZCODE_HOME` decides where it is set, whatever the home directory is; else the data lies in
/// `.zcode`, directly in the home directory. That is named by another variable on Windows.
pub proof fn law_zcode_home_goes_first(dir: Seq<char>, home: Option<Seq<char>>)
    ensures
        zcode_root_path(Some(dir), home).base == dir,
        zcode_root_path(Some(dir), home).parts.len() == 0,
        zcode_root_path(None, Some(dir)).base == dir,
        zcode_root_path(None, Some(dir)).parts.len() == 1,
        zcode_root_path(None, Some(dir)).parts[0] == ".zcode"@,
        home_variable_text(true) == "USERPROFILE"@,
        home_variable_text(false) == "HOME"@,
{
}

/// Rollout files are named by their sessions, and no two sessions share one.
pub proof fn law_rollout_files_are_named_by_sessions(id: Seq<char>, other: Seq<char>)
    ensures
        rollout_name_text(id) == "model-io-"@ + id + ".jsonl"@,
        rollout_name_text(id) == rollout_name_text(other) ==> id == other,
        ROLLOUT_DIR@ == "cli/rollout"@,
{
    law_inner_stands_between(rollout_name_text(id), "model-io-"@, ".jsonl"@, id);
    law_inner_stands_between(rollout_name_text(other), "model-io-"@, ".jsonl"@, other);
}

} // verus!
