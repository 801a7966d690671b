//! The entries of one directory, by name.

use crate::path::names_of;
use vstd::prelude::*;

verus! {

/// Why a directory, or one of its entries, could not be read.
#[derive(Clone, Copy, Debug, PartialEq, Eq, Structural)]
pub enum ListError {
    /// The directory does not exist.
    NotFound,
    /// Access to it was denied.
    PermissionDenied,
    /// The read failed for another reason.
    Io,
}

/// What reading one directory gave: a failure to open it, or one item for
/// each entry in the order of the platform, a name or the failure to read it.
pub type Reading = Result<Vec<Result<String, ListError>>, ListError>;

/// No item before position `k` is a failure.
pub open spec fn all_read_before(items: Seq<Result<String, ListError>>, k: int) -> bool {
    forall|j: int| 0 <= j < k && j < items.len() ==> (#[trigger] items[j]) is Ok
}

/// The names that the items hold, in their order.
pub open spec fn names_read(items: Seq<Result<String, ListError>>) -> Seq<Seq<char>> {
    items.map_values(|item: Result<String, ListError>| item->Ok_0@)
}

/// Position `k` holds the first failure among the items.
pub open spec fn first_failure_at(items: Seq<Result<String, ListError>>, k: int) -> bool {
    0 <= k < items.len() && items[k] is Err && all_read_before(items, k)
}

/// What a listing returns for the items of a directory that could be opened:
/// the first failure among them, else every name in order.
pub open spec fn listing_of_items(items: Seq<Result<String, ListError>>) -> Result<
    Seq<Seq<char>>,
    ListError,
> {
    if all_read_before(items, items.len() as int) {
        Ok(names_read(items))
    } else {
        Err(items[choose|k: int| first_failure_at(items, k)]->Err_0)
    }
}

/// What a listing returns for a reading: the failure to open the directory,
/// else what its items give.
pub open spec fn listing_of(reading: Reading) -> Result<Seq<Seq<char>>, ListError> {
    match reading {
        Err(failure) => Err(failure),
        Ok(items) => listing_of_items(items@),
    }
}

/// The names of a result, as plain values.
pub open spec fn listed(result: Result<Vec<String>, ListError>) -> Result<
    Seq<Seq<char>>,
    ListError,
> {
    match result {
        Ok(names) => Ok(names_of(names@)),
        Err(failure) => Err(failure),
    }
}

/// Lists the immediate entries of a directory from what reading it gave:
/// every name that the platform reported, in its order, none added, dropped or
/// changed. A failure is handed on as it came, the first one where there are
/// several. A directory without entries gives an empty list, not a failure.
pub fn get_files_in_folder(reading: &Reading) -> (result: Result<Vec<String>, ListError>)
    ensures
        listed(result) == listing_of(*reading),
        result is Ok ==> reading is Ok && result->Ok_0@.len() == reading->Ok_0@.len(),
{
    match reading {
        Err(failure) => Err(*failure),
        Ok(items) => {
            let mut file_names: Vec<String> = Vec::new();
            let mut i: usize = 0;
            while i < items.len()
                invariant
                    i <= items.len(),
                    all_read_before(items@, i as int),
                    listing_of(*reading) == listing_of_items(items@),
                    names_of(file_names@) == names_read(items@).take(i as int),
                decreases items.len() - i,
            {
                match &items[i] {
                    Ok(name) => {
                        let ghost before = names_of(file_names@);
                        file_names.push(name.clone());
                        proof {
                            assert(names_of(file_names@) =~= before.push(name@));
                            assert(names_read(items@).take(i + 1) =~= before.push(name@));
                        }
                    },
                    Err(failure) => {
                        proof {
                            lemma_first_failure(items@, i as int);
                        }
                        return Err(*failure);
                    },
                }
                i += 1;
            }
            proof {
                assert(names_read(items@).take(items@.len() as int) =~= names_read(items@));
            }
            Ok(file_names)
        },
    }
}

/// The first failure among the items is the one that a listing returns.
pub proof fn lemma_first_failure(items: Seq<Result<String, ListError>>, k: int)
    requires
        first_failure_at(items, k),
    ensures
        listing_of_items(items) == Err::<Seq<Seq<char>>, ListError>(items[k]->Err_0),
{
    let chosen = choose|c: int| first_failure_at(items, c);
    assert(first_failure_at(items, chosen));
    assert(!all_read_before(items, items.len() as int));
    if chosen < k {
        assert(items[chosen] is Ok);
    } else if k < chosen {
        assert(items[k] is Ok);
    }
}

/// Where every entry could be read, the listing holds exactly the names that
/// the platform reported: as many, and each in its place.
pub proof fn lemma_listing_keeps_every_name(items: Seq<Result<String, ListError>>)
    requires
        all_read_before(items, items.len() as int),
    ensures
        listing_of_items(items) is Ok,
        listing_of_items(items)->Ok_0.len() == items.len(),
        forall|k: int|
            0 <= k < items.len() ==> listing_of_items(items)->Ok_0[k] == (#[trigger] items[k])->Ok_0@,
{
}

} // verus!
