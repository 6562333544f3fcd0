//! Places on disk, as the steps that lead to them.

use crate::text::views;
use vstd::prelude::*;

verus! {

/// Where a path begins.
#[derive(Debug, PartialEq, Eq)]
pub enum PathBase {
    /// The user's configuration folder, or the current folder where there is
    /// none.
    ConfigDir,
    /// The given folder.
    Dir(String),
}

/// A place on disk: the parts are joined to the base one after another.
#[derive(Debug, PartialEq, Eq)]
pub struct FilePath {
    pub base: PathBase,
    pub parts: Vec<String>,
}

/// A place on disk as a mathematical value; without a folder it begins in the
/// configuration folder.
#[verifier::ext_equal]
pub ghost struct PathView {
    pub folder: Option<Seq<char>>,
    pub parts: Seq<Seq<char>>,
}

impl View for FilePath {
    type V = PathView;

    open spec fn view(&self) -> PathView {
        PathView {
            folder: match self.base {
                PathBase::ConfigDir => None,
                PathBase::Dir(s) => Some(s@),
            },
            parts: views(self.parts@),
        }
    }
}

/// A place in the configuration folder.
pub open spec fn in_config(name: Seq<char>) -> PathView {
    PathView { folder: None, parts: seq!["YDM"@, name] }
}

/// A place in the given folder.
pub open spec fn in_folder(folder: Seq<char>, part: Seq<char>) -> PathView {
    PathView { folder: Some(folder), parts: seq![part] }
}

impl PathView {
    /// The place one step further.
    pub open spec fn join(self, part: Seq<char>) -> PathView {
        PathView { parts: self.parts.push(part), ..self }
    }
}

impl Clone for FilePath {
    fn clone(&self) -> (res: Self)
        ensures
            res@ == self@,
    {
        let base = match &self.base {
            PathBase::ConfigDir => PathBase::ConfigDir,
            PathBase::Dir(s) => PathBase::Dir(s.clone()),
        };
        let mut parts: Vec<String> = Vec::new();
        let mut i: usize = 0;
        while i < self.parts.len()
            invariant
                i <= self.parts.len(),
                parts@ == self.parts@.take(i as int),
            decreases self.parts.len() - i,
        {
            parts.push(self.parts[i].clone());
            i += 1;
        }
        assert(self.parts@.take(i as int) == self.parts@);
        FilePath { base, parts }
    }
}

impl FilePath {
    /// A place in the program's part of the configuration folder.
    pub fn config(name: &str) -> (r: Self)
        ensures
            r@ == in_config(name@),
    {
        let mut parts: Vec<String> = Vec::new();
        parts.push("YDM".to_string());
        parts.push(name.to_string());
        let r = FilePath { base: PathBase::ConfigDir, parts };
        assert(r@.parts =~= seq!["YDM"@, name@]);
        r
    }

    /// A place in the given folder.
    pub fn folder(folder: &str, part: &str) -> (r: Self)
        ensures
            r@ == in_folder(folder@, part@),
    {
        let mut parts: Vec<String> = Vec::new();
        parts.push(part.to_string());
        let r = FilePath { base: PathBase::Dir(folder.to_string()), parts };
        assert(r@.parts =~= seq![part@]);
        r
    }

    /// The place one step further.
    pub fn join(&self, part: &str) -> (r: Self)
        ensures
            r@ == self@.join(part@),
    {
        let mut r = self.clone();
        let ghost before = r.parts@;
        r.parts.push(part.to_string());
        assert(views(r.parts@) =~= views(before).push(part@));
        r
    }
}

} // verus!
