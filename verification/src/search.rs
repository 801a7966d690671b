//! Recursive search by name over a directory subtree.
//!
//! The subtree is given as a [`Listing`]: what reading each directory yielded.
//! The walk is depth first. Within a directory the entries are taken in listing
//! order; a subdirectory is walked to its end before its own name is tested,
//! and the name test is applied to every entry, file or directory.

use crate::path::{child_path, names_of, path_views, EntryPath};
use vstd::prelude::*;

verus! {

/// What reading a directory yielded.
pub enum Listing {
    /// The directory could not be read: it does not exist, or access was denied.
    Unreadable,
    /// The entries, in the order in which the platform reported them. Where the
    /// platform failed in the middle of a directory, the entries before the failure.
    Entries(Vec<DirEntry>),
}

/// One child of a directory.
pub struct DirEntry {
    /// The bare name, without any directory in front.
    pub name: String,
    /// Whether the entry is a directory.
    pub is_dir: bool,
    /// For a directory, what reading it yielded. Not looked at for a file.
    pub listing: Listing,
}

/// `needle` occurs in `haystack` as a contiguous run of characters.
pub open spec fn contains_run(haystack: Seq<char>, needle: Seq<char>) -> bool {
    exists|i: int|
        0 <= i && i + needle.len() <= haystack.len() && #[trigger] haystack.subrange(
            i,
            i + needle.len(),
        ) == needle
}

/// The matches found in the first `n` entries of a directory at `dir`.
pub open spec fn matches_in_prefix(
    query: Seq<char>,
    dir: Seq<Seq<char>>,
    entries: Seq<DirEntry>,
    n: nat,
) -> Seq<Seq<Seq<char>>>
    decreases entries, n,
{
    if n == 0 || n > entries.len() {
        Seq::empty()
    } else {
        matches_in_prefix(query, dir, entries, (n - 1) as nat) + matches_at_entry(
            query,
            dir,
            entries[n - 1],
        )
    }
}

/// The matches that one entry of the directory at `dir` contributes: those of
/// its subtree first, then the entry itself where its name contains the query.
pub open spec fn matches_at_entry(query: Seq<char>, dir: Seq<Seq<char>>, entry: DirEntry) -> Seq<
    Seq<Seq<char>>,
>
    decreases entry, 0nat,
{
    let path = dir.push(entry.name@);
    let below = if entry.is_dir {
        matches_in_listing(query, path, entry.listing)
    } else {
        Seq::empty()
    };
    let own = if contains_run(entry.name@, query) {
        seq![path]
    } else {
        Seq::empty()
    };
    below + own
}

/// The matches of a whole walk of the directory at `dir`, in the order of discovery.
pub open spec fn matches_in_listing(query: Seq<char>, dir: Seq<Seq<char>>, listing: Listing) -> Seq<
    Seq<Seq<char>>,
>
    decreases listing, 0nat,
{
    match listing {
        Listing::Unreadable => Seq::empty(),
        Listing::Entries(entries) => matches_in_prefix(query, dir, entries@, entries@.len()),
    }
}

/// `path` names an entry somewhere below `dir` whose own name contains `query`.
pub open spec fn is_match_below(query: Seq<char>, dir: Seq<Seq<char>>, path: Seq<Seq<char>>) -> bool {
    &&& path.len() > dir.len()
    &&& path.take(dir.len() as int) == dir
    &&& contains_run(path.last(), query)
}

/// Every path in `found` names an entry below `dir` whose name contains `query`.
pub open spec fn all_match_below(
    query: Seq<char>,
    dir: Seq<Seq<char>>,
    found: Seq<Seq<Seq<char>>>,
) -> bool {
    forall|k: int| 0 <= k < found.len() ==> is_match_below(query, dir, #[trigger] found[k])
}

proof fn lemma_prefix_matches_lie_below(
    query: Seq<char>,
    dir: Seq<Seq<char>>,
    entries: Seq<DirEntry>,
    n: nat,
)
    ensures
        all_match_below(query, dir, matches_in_prefix(query, dir, entries, n)),
    decreases entries, n,
{
    if n != 0 && n <= entries.len() {
        lemma_prefix_matches_lie_below(query, dir, entries, (n - 1) as nat);
        lemma_entry_matches_lie_below(query, dir, entries[n - 1]);
    }
}

proof fn lemma_entry_matches_lie_below(query: Seq<char>, dir: Seq<Seq<char>>, entry: DirEntry)
    ensures
        all_match_below(query, dir, matches_at_entry(query, dir, entry)),
    decreases entry, 0nat,
{
    let path = dir.push(entry.name@);
    assert(path.take(dir.len() as int) =~= dir);
    if entry.is_dir {
        lemma_matches_lie_below(query, path, entry.listing);
        let below = matches_in_listing(query, path, entry.listing);
        assert forall|k: int| 0 <= k < below.len() implies is_match_below(
            query,
            dir,
            #[trigger] below[k],
        ) by {
            assert(is_match_below(query, path, below[k]));
            assert(below[k].take(dir.len() as int) =~= below[k].take(path.len() as int).take(
                dir.len() as int,
            ));
        }
    }
}

/// Every match of a walk lies below the directory that was searched, and the
/// name of the entry it leads to contains the query, case kept.
pub proof fn lemma_matches_lie_below(query: Seq<char>, dir: Seq<Seq<char>>, listing: Listing)
    ensures
        all_match_below(query, dir, matches_in_listing(query, dir, listing)),
    decreases listing, 0nat,
{
    match listing {
        Listing::Unreadable => {},
        Listing::Entries(entries) => {
            lemma_prefix_matches_lie_below(query, dir, entries@, entries@.len());
        },
    }
}

/// The first `n` entries of two readings agree in name, kind and, for
/// directories, in what lies below.
pub open spec fn same_prefix(first: Seq<DirEntry>, second: Seq<DirEntry>, n: nat) -> bool
    decreases first, n,
{
    if n == 0 {
        true
    } else if n > first.len() || n > second.len() {
        false
    } else {
        same_prefix(first, second, (n - 1) as nat) && same_entry(first[n - 1], second[n - 1])
    }
}

/// Two entries agree in name, kind and, for directories, in what lies below.
pub open spec fn same_entry(first: DirEntry, second: DirEntry) -> bool
    decreases first, 0nat,
{
    &&& first.name@ == second.name@
    &&& first.is_dir == second.is_dir
    &&& first.is_dir ==> same_listing(first.listing, second.listing)
}

/// Two readings of a tree that found it unchanged: the same directories were
/// readable, with the same entries in the same order.
pub open spec fn same_listing(first: Listing, second: Listing) -> bool
    decreases first, 0nat,
{
    match first {
        Listing::Unreadable => second is Unreadable,
        Listing::Entries(entries) => {
            &&& second is Entries
            &&& entries@.len() == second->0@.len()
            &&& same_prefix(entries@, second->0@, entries@.len())
        },
    }
}

proof fn lemma_same_prefix_same_matches(
    query: Seq<char>,
    dir: Seq<Seq<char>>,
    first: Seq<DirEntry>,
    second: Seq<DirEntry>,
    n: nat,
)
    requires
        same_prefix(first, second, n),
    ensures
        matches_in_prefix(query, dir, first, n) == matches_in_prefix(query, dir, second, n),
    decreases first, n,
{
    if n != 0 {
        lemma_same_prefix_same_matches(query, dir, first, second, (n - 1) as nat);
        let a = first[n - 1];
        let b = second[n - 1];
        assert(same_entry(a, b));
        if a.is_dir {
            assert(same_listing(a.listing, b.listing));
            lemma_unchanged_tree_same_matches(query, dir.push(a.name@), a.listing, b.listing);
        }
        assert(matches_at_entry(query, dir, a) == matches_at_entry(query, dir, b));
    }
}

/// Searching a tree twice without a change in between gives the same matches
/// in the same order, whatever the query, the empty one included.
pub proof fn lemma_unchanged_tree_same_matches(
    query: Seq<char>,
    dir: Seq<Seq<char>>,
    first: Listing,
    second: Listing,
)
    requires
        same_listing(first, second),
    ensures
        matches_in_listing(query, dir, first) == matches_in_listing(query, dir, second),
    decreases first, 0nat,
{
    match first {
        Listing::Unreadable => {},
        Listing::Entries(entries) => {
            lemma_same_prefix_same_matches(query, dir, entries@, second->0@, entries@.len());
        },
    }
}

/// The empty query occurs in every name, so a search for it reports every
/// entry that the walk reaches.
pub proof fn lemma_empty_query_is_in_every_name(name: Seq<char>)
    ensures
        contains_run(name, Seq::empty()),
{
    let nothing = Seq::<char>::empty();
    assert(name.subrange(0int, 0int + nothing.len()) =~= nothing);
}

/// A directory that could not be read, the root of a search included, yields
/// no match.
pub proof fn lemma_unreadable_yields_nothing(query: Seq<char>, dir: Seq<Seq<char>>)
    ensures
        matches_in_listing(query, dir, Listing::Unreadable) == Seq::<Seq<Seq<char>>>::empty(),
{
}

/// Whether `needle` occurs in `haystack`, by `str::contains` of the standard
/// library with a string as the pattern. The contract restates its
/// documentation: true exactly when the pattern matches a contiguous part of
/// the string, compared character for character with the case kept.
#[verifier::external_body]
pub(crate) fn name_contains(haystack: &str, needle: &str) -> (found: bool)
    ensures
        found == contains_run(haystack@, needle@),
{
    haystack.contains(needle)
}

/// Walks the directory at `directory_path`, whose reading yielded `listing`,
/// and appends its matches to `result` in the order of discovery. An unreadable
/// directory adds nothing, and the walk goes on with what follows it.
pub fn find_file_recursively(
    name: &str,
    directory_path: &Vec<String>,
    listing: &Listing,
    result: &mut Vec<EntryPath>,
)
    ensures
        path_views(final(result)@) == path_views(old(result)@) + matches_in_listing(
            name@,
            names_of(directory_path@),
            *listing,
        ),
    decreases *listing,
{
    let ghost dir = names_of(directory_path@);
    match listing {
        Listing::Unreadable => {
            proof {
                assert(path_views(result@) =~= path_views(result@) + Seq::empty());
            }
        },
        Listing::Entries(entries) => {
            let mut i: usize = 0;
            proof {
                assert(path_views(result@) =~= path_views(result@) + Seq::empty());
            }
            while i < entries.len()
                invariant
                    i <= entries.len(),
                    dir == names_of(directory_path@),
                    *listing == Listing::Entries(*entries),
                    path_views(result@) == path_views(old(result)@) + matches_in_prefix(
                        name@,
                        dir,
                        entries@,
                        i as nat,
                    ),
                decreases entries.len() - i,
            {
                let entry = &entries[i];
                let path = child_path(directory_path, &entry.name);
                let ghost before = path_views(result@);
                if entry.is_dir {
                    proof {
                        assert(decreases_to!(listing->0 => (listing->0)[i as int]));
                    }
                    find_file_recursively(name, &path.segments, &entry.listing, result);
                }
                let ghost middle = path_views(result@);
                if name_contains(entry.name.as_str(), name) {
                    result.push(path);
                    proof {
                        assert(path_views(result@) =~= middle + seq![path@]);
                    }
                }
                proof {
                    let contributed = matches_at_entry(name@, dir, entries@[i as int]);
                    assert(path_views(result@) =~= before + contributed);
                    assert(before + contributed =~= path_views(old(result)@) + (matches_in_prefix(
                        name@,
                        dir,
                        entries@,
                        i as nat,
                    ) + contributed));
                }
                i += 1;
            }
        },
    }
}

/// Searches the subtree under `directory_path` for entries whose name contains
/// `name`, and returns their paths in the order of discovery. A root that could
/// not be read gives no match.
pub fn find_file(name: &str, directory_path: &Vec<String>, listing: &Listing) -> (result: Vec<
    EntryPath,
>)
    ensures
        path_views(result@) == matches_in_listing(
            name@,
            names_of(directory_path@),
            *listing,
        ),
        all_match_below(name@, names_of(directory_path@), path_views(result@)),
        listing is Unreadable ==> result@.len() == 0,
{
    let mut result: Vec<EntryPath> = Vec::new();
    find_file_recursively(name, directory_path, listing, &mut result);
    proof {
        lemma_matches_lie_below(name@, names_of(directory_path@), *listing);
        assert(path_views(Seq::<EntryPath>::empty()) =~= Seq::empty());
        assert(Seq::<Seq<Seq<char>>>::empty() + matches_in_listing(
            name@,
            names_of(directory_path@),
            *listing,
        ) =~= matches_in_listing(name@, names_of(directory_path@), *listing));
    }
    result
}

} // verus!
