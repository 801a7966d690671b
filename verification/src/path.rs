//! Paths as sequences of names.

use vstd::prelude::*;

verus! {

/// A path, as the names that lead to an entry, outermost first.
pub struct EntryPath {
    pub segments: Vec<String>,
}

/// The names held by a vector of strings, each as its characters.
pub open spec fn names_of(segments: Seq<String>) -> Seq<Seq<char>> {
    segments.map_values(|s: String| s@)
}

impl View for EntryPath {
    type V = Seq<Seq<char>>;

    open spec fn view(&self) -> Seq<Seq<char>> {
        names_of(self.segments@)
    }
}

/// The paths held by a vector, each as its sequence of names.
pub open spec fn path_views(paths: Seq<EntryPath>) -> Seq<Seq<Seq<char>>> {
    paths.map_values(|p: EntryPath| p@)
}

/// A copy of the first `n` of some names.
pub fn leading_names(names: &Vec<String>, n: usize) -> (copy: Vec<String>)
    requires
        n <= names@.len(),
    ensures
        copy@ == names@.take(n as int),
{
    let mut copy: Vec<String> = Vec::new();
    let mut i: usize = 0;
    while i < n
        invariant
            i <= n <= names@.len(),
            copy@ == names@.take(i as int),
        decreases n - i,
    {
        copy.push(names[i].clone());
        proof {
            assert(copy@ =~= names@.take(i + 1));
        }
        i += 1;
    }
    copy
}

/// The path of the entry called `name` in the directory at `dir`.
pub fn child_path(dir: &Vec<String>, name: &String) -> (path: EntryPath)
    ensures
        path@ == names_of(dir@).push(name@),
{
    let mut segments = leading_names(dir, dir.len());
    segments.push(name.clone());
    let path = EntryPath { segments };
    proof {
        assert(dir@.take(dir.len() as int) =~= dir@);
        assert(path@ =~= names_of(dir@).push(name@));
    }
    path
}

} // verus!
