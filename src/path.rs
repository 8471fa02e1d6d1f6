//! An ordered list of directories in which data files are looked for.
//!
//! Whether a directory or a file exists is asked of the file system by the
//! caller; this type keeps the order and decides which candidate wins.
use crate::error::FormatError;
use vstd::prelude::*;

verus! {

/// The path of `name` inside the directory `dir`.
pub open spec fn joined(dir: Seq<char>, name: Seq<char>) -> Seq<char> {
    dir + seq!['/'] + name
}

/// Relies on std's `format!`, which writes each `&str` argument verbatim in
/// place of its `{}`.
#[verifier::external_body]
fn join_path(dir: &str, name: &str) -> (r: String)
    ensures
        r@ == joined(dir@, name@),
{
    format!("{}/{}", dir, name)
}

/// Search directories, tried in the order in which they were added.
#[derive(Debug)]
pub struct PathManager {
    search: Vec<String>,
}

impl View for PathManager {
    type V = Seq<Seq<char>>;

    closed spec fn view(&self) -> Seq<Seq<char>> {
        self.search@.map_values(|d: String| d@)
    }
}

impl PathManager {
    /// A manager with no search directory yet.
    pub fn new() -> (r: PathManager)
        ensures
            r@ == Seq::<Seq<char>>::empty(),
    {
        let r = PathManager { search: Vec::new() };
        r
    }

    /// Appends `path` to the search list if it exists (as the caller found),
    /// and fails with `NotFound` otherwise.
    pub fn add_path(&mut self, path: &str, exists: bool) -> (r: Result<(), FormatError>)
        ensures
            exists ==> r is Ok && final(self)@ == old(self)@.push(path@),
            !exists ==> r == Err::<(), FormatError>(FormatError::NotFound) && final(self)@ == old(
                self,
            )@,
    {
        if exists {
            self.search.push(path.to_owned());
            Ok(())
        } else {
            Err(FormatError::NotFound)
        }
    }

    /// Where `name` would be in each search directory, in search order.
    pub fn candidates(&self, name: &str) -> (r: Vec<String>)
        ensures
            r@.len() == self@.len(),
            forall|i: int| 0 <= i < r@.len() ==> r@[i]@ == joined(self@[i], name@),
    {
        let mut r: Vec<String> = Vec::new();
        let mut i: usize = 0;
        while i < self.search.len()
            invariant
                i <= self.search@.len(),
                r@.len() == i,
                forall|j: int| 0 <= j < i ==> r@[j]@ == joined(self@[j], name@),
            decreases self.search@.len() - i,
        {
            r.push(join_path(self.search[i].as_str(), name));
            i = i + 1;
        }
        r
    }

    /// The candidate path of `name` in the first directory whose candidate
    /// exists, where `present[i]` tells whether the candidate in directory `i`
    /// exists (a missing flag counts as absent); `None` if there is none.
    pub fn find(&self, name: &str, present: &[bool]) -> (r: Option<String>)
        ensures
            match r {
                Some(p) => exists|i: int|
                    0 <= i < self@.len() && i < present@.len() && present@[i] && p@ == joined(
                        self@[i],
                        name@,
                    ) && forall|j: int| 0 <= j < i && j < present@.len() ==> !present@[j],
                None => forall|j: int| 0 <= j < self@.len() && j < present@.len() ==> !present@[j],
            },
    {
        let mut i: usize = 0;
        while i < self.search.len()
            invariant
                i <= self.search@.len(),
                forall|j: int| 0 <= j < i && j < present@.len() ==> !present@[j],
            decreases self.search@.len() - i,
        {
            if i < present.len() && present[i] {
                return Some(join_path(self.search[i].as_str(), name));
            }
            i = i + 1;
        }
        None
    }
}

} // verus!
