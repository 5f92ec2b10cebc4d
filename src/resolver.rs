//! Choosing the executable that a bare command name refers to.
use vstd::prelude::*;
use crate::builtin::same_text;

verus! {

/// One entry of a directory on the search path.
#[derive(Clone, Debug)]
pub struct Entry {
    pub name: String,
    /// Permission bits, or `None` where they could not be read.
    pub mode: Option<u32>,
}

/// Some execute bit is set, for owner, group or other.
pub open spec fn is_executable_mode(mode: u32) -> bool {
    mode & 0o111 != 0
}

/// `e` is named `name` and can be executed.
pub open spec fn qualifies(e: Entry, name: Seq<char>) -> bool {
    e.name@ == name && e.mode is Some && is_executable_mode(e.mode->0)
}

/// Some entry of `dir` qualifies for `name`.
pub open spec fn dir_has(dir: Seq<Entry>, name: Seq<char>) -> bool {
    exists|i: int| 0 <= i < dir.len() && qualifies(#[trigger] dir[i], name)
}

/// Whether permission bits `mode` allow execution by anyone.
pub fn is_executable(mode: u32) -> (r: bool)
    ensures
        r == is_executable_mode(mode),
{
    mode & 0o111 != 0
}

/// The index of the first entry of `dir` that qualifies for `name`.
pub fn find_in_dir(name: &str, dir: &Vec<Entry>) -> (r: Option<usize>)
    ensures
        match r {
            Some(i) => i < dir@.len() && qualifies(dir@[i as int], name@) && forall|j: int|
                0 <= j < i ==> !qualifies(#[trigger] dir@[j], name@),
            None => !dir_has(dir@, name@),
        },
{
    let mut i: usize = 0;
    while i < dir.len()
        invariant
            i <= dir@.len(),
            forall|j: int| 0 <= j < i ==> !qualifies(#[trigger] dir@[j], name@),
        decreases dir@.len() - i,
    {
        let e = &dir[i];
        let hit = match e.mode {
            Some(m) => is_executable(m) && same_text(e.name.as_str(), name),
            None => false,
        };
        if hit {
            return Some(i);
        }
        i = i + 1;
    }
    None
}

/// Searches the directories in order and returns the directory index and
/// entry index of the first executable entry named `name`.
pub fn resolve(name: &str, dirs: &Vec<Vec<Entry>>) -> (r: Option<(usize, usize)>)
    ensures
        match r {
            Some((d, i)) => {
                &&& d < dirs@.len()
                &&& i < dirs@[d as int]@.len()
                &&& qualifies(dirs@[d as int]@[i as int], name@)
                &&& forall|k: int| 0 <= k < d ==> !dir_has(#[trigger] dirs@[k]@, name@)
                &&& forall|j: int| 0 <= j < i ==> !qualifies(#[trigger] dirs@[d as int]@[j], name@)
            },
            None => forall|k: int| 0 <= k < dirs@.len() ==> !dir_has(#[trigger] dirs@[k]@, name@),
        },
{
    let mut d: usize = 0;
    while d < dirs.len()
        invariant
            d <= dirs@.len(),
            forall|k: int| 0 <= k < d ==> !dir_has(#[trigger] dirs@[k]@, name@),
        decreases dirs@.len() - d,
    {
        match find_in_dir(name, &dirs[d]) {
            Some(i) => {
                return Some((d, i));
            },
            None => {},
        }
        d = d + 1;
    }
    None
}

} // verus!
