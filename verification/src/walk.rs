//! The same search, one directory at a time.
//!
//! A [`Walk`] names the directory it wants read next and takes what the read
//! gave; the caller does the reading and nothing else. The walk keeps its place
//! on a stack of its own, so a deep tree costs no call depth. Of any tree that
//! the reads are taken from, a finished walk holds exactly the matches of
//! [`matches_in_listing`].

use crate::path::{child_path, leading_names, names_of, path_views, EntryPath};
use crate::search::{
    contains_run, matches_at_entry, matches_in_listing, matches_in_prefix, name_contains,
    DirEntry, Listing,
};
use vstd::prelude::*;

verus! {

/// One entry as a single read of its directory shows it.
pub struct Child {
    pub name: String,
    pub is_dir: bool,
}

/// What a single read of a directory gave.
pub enum Glimpse {
    /// The directory could not be read.
    Unreadable,
    /// Its entries in the order of the platform, up to the first that failed.
    Children(Vec<Child>),
}

/// A directory that the walk is inside of: where it is, what it holds, and
/// the position of the entry that is dealt with next.
pub struct Frame {
    pub dir: Vec<String>,
    pub children: Vec<Child>,
    pub next: usize,
}

/// The frame stands at an entry that is a directory.
pub open spec fn at_directory(frame: Frame) -> bool {
    frame.next < frame.children@.len() && frame.children@[frame.next as int].is_dir
}

/// The directory that a walk with these frames wants read.
pub open spec fn wanted(root: Seq<Seq<char>>, frames: Seq<Frame>) -> Seq<Seq<char>> {
    if frames.len() == 0 {
        root
    } else {
        names_of(frames.last().dir@).push(
            frames.last().children@[frames.last().next as int].name@,
        )
    }
}

/// The part of `tree` that lies at the directory which the frames want read.
pub open spec fn subtree(tree: Listing, frames: Seq<Frame>) -> Listing
    decreases frames.len(),
{
    if frames.len() == 0 {
        tree
    } else {
        match subtree(tree, frames.drop_last()) {
            Listing::Entries(entries) => if frames.last().next < entries@.len() {
                entries@[frames.last().next as int].listing
            } else {
                Listing::Unreadable
            },
            Listing::Unreadable => Listing::Unreadable,
        }
    }
}

/// A read shows the same entries as a directory of the tree holds.
pub open spec fn same_children(children: Seq<Child>, entries: Seq<DirEntry>) -> bool {
    &&& children.len() == entries.len()
    &&& forall|j: int|
        0 <= j < children.len() ==> (#[trigger] children[j]).name@ == entries[j].name@
            && children[j].is_dir == entries[j].is_dir
}

/// A read of a directory of the tree gives this glimpse.
pub open spec fn reads_as(listing: Listing, glimpse: Glimpse) -> bool {
    match glimpse {
        Glimpse::Unreadable => listing is Unreadable,
        Glimpse::Children(children) => listing is Entries && same_children(
            children@,
            listing->0@,
        ),
    }
}

/// Each frame holds what `tree` holds at its place.
pub open spec fn frames_agree(root: Seq<Seq<char>>, frames: Seq<Frame>, tree: Listing) -> bool
    decreases frames.len(),
{
    frames.len() == 0 || {
        &&& frames_agree(root, frames.drop_last(), tree)
        &&& subtree(tree, frames.drop_last()) is Entries
        &&& same_children(frames.last().children@, subtree(tree, frames.drop_last())->0@)
        &&& names_of(frames.last().dir@) == wanted(root, frames.drop_last())
        &&& frames.last().next <= frames.last().children@.len()
    }
}

/// The matches that a walk of `tree` has found when it stands at these frames.
pub open spec fn collected(query: Seq<char>, frames: Seq<Frame>, tree: Listing) -> Seq<
    Seq<Seq<char>>,
>
    decreases frames.len(),
{
    if frames.len() == 0 {
        Seq::empty()
    } else {
        collected(query, frames.drop_last(), tree) + matches_in_prefix(
            query,
            names_of(frames.last().dir@),
            subtree(tree, frames.drop_last())->0@,
            frames.last().next as nat,
        )
    }
}

/// The entries that the frames have still to deal with, and the frames themselves.
pub open spec fn remaining(frames: Seq<Frame>) -> nat
    decreases frames.len(),
{
    if frames.len() == 0 {
        0
    } else {
        remaining(frames.drop_last()) + (frames.last().children@.len()
            - frames.last().next) as nat + 1
    }
}

/// The frame with its position moved on by one.
pub open spec fn moved_on(frame: Frame) -> Frame {
    Frame { next: (frame.next + 1) as usize, ..frame }
}

/// What the entry at a frame's position adds by its own name.
pub open spec fn own_match(query: Seq<char>, frame: Frame) -> Seq<Seq<Seq<char>>> {
    let name = frame.children@[frame.next as int].name@;
    if contains_run(name, query) {
        seq![names_of(frame.dir@).push(name)]
    } else {
        Seq::empty()
    }
}

/// Moving past an entry whose subtree, if it has one, is done adds the
/// matches of that entry to what was collected.
proof fn lemma_entry_done(
    query: Seq<char>,
    root: Seq<Seq<char>>,
    below: Seq<Frame>,
    top: Frame,
    tree: Listing,
)
    requires
        frames_agree(root, below.push(top), tree),
        top.next < top.children@.len(),
    ensures
        frames_agree(root, below.push(moved_on(top)), tree),
        collected(query, below.push(moved_on(top)), tree) == collected(
            query,
            below.push(top),
            tree,
        ) + matches_at_entry(
            query,
            names_of(top.dir@),
            subtree(tree, below)->0@[top.next as int],
        ),
        matches_at_entry(query, names_of(top.dir@), subtree(tree, below)->0@[top.next as int])
            == (if top.children@[top.next as int].is_dir {
            matches_in_listing(query, wanted(root, below.push(top)), subtree(tree, below.push(top)))
        } else {
            Seq::empty()
        }) + own_match(query, top),
{
    let before = below.push(top);
    let after = below.push(moved_on(top));
    assert(before.drop_last() =~= below);
    assert(after.drop_last() =~= below);
    assert(before.last() == top);
    assert(after.last() == moved_on(top));
    let entries = subtree(tree, below)->0@;
    let dir = names_of(top.dir@);
    let n = top.next as nat;
    assert(top.children@.len() == top.children.len());
    assert(moved_on(top).next as nat == n + 1);
    assert(collected(query, after, tree) == collected(query, below, tree) + matches_in_prefix(
        query,
        dir,
        entries,
        n + 1,
    ));
    assert(collected(query, before, tree) == collected(query, below, tree) + matches_in_prefix(
        query,
        dir,
        entries,
        n,
    ));
    assert(matches_in_prefix(query, dir, entries, n + 1) == matches_in_prefix(
        query,
        dir,
        entries,
        n,
    ) + matches_at_entry(query, dir, entries[n as int]));
    assert(collected(query, after, tree) =~= collected(query, before, tree) + matches_at_entry(
        query,
        dir,
        entries[n as int],
    ));
    assert(top.children@[n as int].name@ == entries[n as int].name@);
}

/// Leaving a directory whose entries are all dealt with: what its frame
/// collected is what a walk of the whole directory finds.
proof fn lemma_directory_done(
    query: Seq<char>,
    root: Seq<Seq<char>>,
    lower: Seq<Frame>,
    top: Frame,
    tree: Listing,
)
    requires
        frames_agree(root, lower.push(top), tree),
        top.next == top.children@.len(),
    ensures
        frames_agree(root, lower, tree),
        collected(query, lower.push(top), tree) == collected(query, lower, tree)
            + matches_in_listing(query, wanted(root, lower), subtree(tree, lower)),
{
    assert(lower.push(top).drop_last() =~= lower);
    assert(lower.push(top).last() == top);
}

/// Entering a directory that was read adds nothing yet.
proof fn lemma_directory_entered(
    query: Seq<char>,
    root: Seq<Seq<char>>,
    lower: Seq<Frame>,
    top: Frame,
    tree: Listing,
)
    requires
        frames_agree(root, lower, tree),
        subtree(tree, lower) is Entries,
        same_children(top.children@, subtree(tree, lower)->0@),
        names_of(top.dir@) == wanted(root, lower),
        top.next == 0,
    ensures
        frames_agree(root, lower.push(top), tree),
        collected(query, lower.push(top), tree) == collected(query, lower, tree),
{
    assert(lower.push(top).drop_last() =~= lower);
    assert(lower.push(top).last() == top);
    assert(collected(query, lower, tree) + Seq::<Seq<Seq<char>>>::empty() =~= collected(
        query,
        lower,
        tree,
    ));
}

/// The place `first` comes before the place `second` in the order of the
/// walk: they agree on the outer frames, and then `second` is further on in a
/// directory or has gone into one.
pub open spec fn stands_before(first: Seq<Frame>, second: Seq<Frame>) -> bool {
    exists|i: int| parts_at(first, second, i)
}

/// The two places agree on the frames before `i` and part there, `second` ahead.
pub open spec fn parts_at(first: Seq<Frame>, second: Seq<Frame>, i: int) -> bool {
    &&& 0 <= i <= first.len()
    &&& i < second.len()
    &&& forall|j: int| 0 <= j < i ==> (#[trigger] first[j]).next == second[j].next
    &&& i < first.len() ==> first[i].next < second[i].next
}

proof fn lemma_stands_before_chain(first: Seq<Frame>, second: Seq<Frame>, third: Seq<Frame>)
    requires
        stands_before(first, second),
        stands_before(second, third),
    ensures
        stands_before(first, third),
{
    let i = choose|i: int| parts_at(first, second, i);
    let j = choose|j: int| parts_at(second, third, j);
    if i <= j {
        assert(parts_at(first, third, i));
    } else {
        assert(parts_at(first, third, j));
    }
}

/// The state of a search that is carried out one read at a time.
pub struct Walk {
    /// The text searched for.
    pub query: String,
    /// The directory below which the search goes.
    pub root: Vec<String>,
    /// The directories that the walk is inside of, the outermost first.
    pub frames: Vec<Frame>,
    /// The matches so far, in the order of discovery.
    pub found: Vec<EntryPath>,
    /// Whether the walk waits for a read; a walk that does not is finished.
    pub awaiting: bool,
}

/// The walk `before` was fed `given`, and both fit `tree`.
pub open spec fn fed_from(before: Walk, given: Glimpse, tree: Listing) -> bool {
    before.tracks(tree) && reads_as(before.awaited(tree), given)
}

impl Walk {
    /// Every frame stands at a directory, the one that is being read or
    /// waited for; a finished walk has left them all.
    pub open spec fn wf(self) -> bool {
        &&& forall|k: int|
            0 <= k < self.frames@.len() ==> at_directory(#[trigger] self.frames@[k])
        &&& self.awaiting || self.frames@.len() == 0
    }

    /// The walk is in the middle of `tree` and holds what was found so far.
    pub open spec fn midway(self, tree: Listing) -> bool {
        &&& frames_agree(names_of(self.root@), self.frames@, tree)
        &&& path_views(self.found@) == collected(self.query@, self.frames@, tree)
    }

    /// The walk fits `tree`: midway it holds what a walk of the tree has found
    /// up to its place, and when finished, every match of the tree in order.
    pub open spec fn tracks(self, tree: Listing) -> bool {
        if self.awaiting {
            self.midway(tree)
        } else {
            path_views(self.found@) == matches_in_listing(
                self.query@,
                names_of(self.root@),
                tree,
            )
        }
    }

    /// What `tree` holds at the directory that the walk wants read.
    pub open spec fn awaited(self, tree: Listing) -> Listing {
        subtree(tree, self.frames@)
    }

    /// A walk below `root` for `query`, which first wants `root` itself read.
    pub fn start(query: String, root: Vec<String>) -> (walk: Walk)
        ensures
            walk.wf(),
            walk.awaiting,
            walk.query == query,
            walk.root == root,
            walk.frames@.len() == 0,
            walk.found@.len() == 0,
            forall|tree: Listing| #[trigger] walk.tracks(tree),
    {
        let walk = Walk { query, root, frames: Vec::new(), found: Vec::new(), awaiting: true };
        proof {
            assert(path_views(walk.found@) =~= Seq::<Seq<Seq<char>>>::empty());
        }
        walk
    }

    /// The names that lead to the directory wanted next.
    fn wanted_names(&self) -> (names: Vec<String>)
        requires
            self.wf(),
        ensures
            names_of(names@) == wanted(names_of(self.root@), self.frames@),
    {
        let n: usize = self.frames.len();
        if n == 0 {
            let names = leading_names(&self.root, self.root.len());
            proof {
                assert(self.root@.take(self.root@.len() as int) =~= self.root@);
            }
            names
        } else {
            let top = &self.frames[n - 1];
            child_path(&top.dir, &top.children[top.next].name).segments
        }
    }

    /// The directory that the caller is to read next, or `None` when the walk
    /// is finished.
    pub fn wanted_path(&self) -> (path: Option<EntryPath>)
        requires
            self.wf(),
        ensures
            path is Some <==> self.awaiting,
            path is Some ==> path->0@ == wanted(names_of(self.root@), self.frames@),
    {
        if self.awaiting {
            Some(EntryPath { segments: self.wanted_names() })
        } else {
            None
        }
    }

    /// Tests the name of the entry at which the innermost frame stands, and
    /// moves the frame on by one.
    fn pass_entry(&mut self)
        requires
            old(self).frames@.len() > 0,
            old(self).frames@.last().next < old(self).frames@.last().children@.len(),
        ensures
            final(self).frames@ == old(self).frames@.drop_last().push(
                moved_on(old(self).frames@.last()),
            ),
            path_views(final(self).found@) == path_views(old(self).found@) + own_match(
                old(self).query@,
                old(self).frames@.last(),
            ),
            final(self).query == old(self).query,
            final(self).root == old(self).root,
            final(self).awaiting == old(self).awaiting,
    {
        let ghost found_before = path_views(self.found@);
        let mut top = self.frames.pop().unwrap();
        proof {
            assert(found_before + Seq::<Seq<Seq<char>>>::empty() =~= found_before);
        }
        if name_contains(top.children[top.next].name.as_str(), self.query.as_str()) {
            let path = child_path(&top.dir, &top.children[top.next].name);
            self.found.push(path);
            proof {
                assert(path_views(self.found@) =~= found_before + seq![path@]);
            }
        }
        proof {
            assert(top.next < top.children.len());
        }
        top.next = top.next + 1;
        self.frames.push(top);
    }

    /// Takes what the read of the wanted directory gave, and goes on until the
    /// next directory has to be read or the walk is finished.
    ///
    /// Whatever tree the reads are taken from: a walk that fitted it before
    /// fits it after, so a finished walk holds every match of that tree, in
    /// the order of a depth-first walk.
    pub fn feed(&mut self, glimpse: Glimpse)
        requires
            old(self).wf(),
            old(self).awaiting,
        ensures
            final(self).wf(),
            final(self).query == old(self).query,
            final(self).root == old(self).root,
            final(self).awaiting ==> stands_before(old(self).frames@, final(self).frames@),
            forall|tree: Listing| #[trigger]
                fed_from(*old(self), glimpse, tree) ==> final(self).tracks(tree),
    {
        let ghost before = *self;
        let ghost given = glimpse;
        let ghost root = names_of(self.root@);
        let ghost query = self.query@;
        match glimpse {
            Glimpse::Unreadable => {
                if self.frames.len() == 0 {
                    self.awaiting = false;
                    return ;
                }
                self.pass_entry();
                proof {
                    let lower = before.frames@.drop_last();
                    let top = before.frames@.last();
                    assert(before.frames@ =~= lower.push(top));
                    assert forall|tree: Listing| #[trigger]
                        fed_from(before, given, tree) implies self.midway(tree) by {
                        lemma_entry_done(query, root, lower, top, tree);
                        assert(collected(query, before.frames@, tree) + (Seq::empty() + own_match(
                            query,
                            top,
                        )) =~= collected(query, before.frames@, tree) + own_match(query, top));
                    }
                    assert(top.next < top.children.len());
                    assert(parts_at(before.frames@, self.frames@, lower.len() as int));
                }
            },
            Glimpse::Children(children) => {
                let dir = self.wanted_names();
                let frame = Frame { dir, children, next: 0 };
                self.frames.push(frame);
                proof {
                    assert forall|tree: Listing| #[trigger]
                        fed_from(before, given, tree) implies self.midway(tree) by {
                        lemma_directory_entered(query, root, before.frames@, frame, tree);
                    }
                    assert(parts_at(before.frames@, self.frames@, before.frames@.len() as int));
                }
            },
        }
        loop
            invariant
                before == *old(self),
                given == glimpse,
                self.query == before.query,
                self.root == before.root,
                root == names_of(self.root@),
                query == self.query@,
                self.awaiting,
                self.frames@.len() > 0,
                forall|k: int|
                    0 <= k < self.frames@.len() - 1 ==> at_directory(#[trigger] self.frames@[k]),
                self.frames@.last().next <= self.frames@.last().children@.len(),
                stands_before(before.frames@, self.frames@),
                forall|tree: Listing| #[trigger]
                    fed_from(before, given, tree) ==> self.midway(tree),
            decreases remaining(self.frames@),
        {
            let ghost frames = self.frames@;
            let ghost found = path_views(self.found@);
            let n: usize = self.frames.len();
            let at_end = self.frames[n - 1].next == self.frames[n - 1].children.len();
            if at_end {
                let ghost lower = frames.drop_last();
                let ghost top = frames.last();
                proof {
                    assert(frames =~= lower.push(top));
                }
                self.frames.pop();
                if n == 1 {
                    self.awaiting = false;
                    proof {
                        assert forall|tree: Listing| #[trigger]
                            fed_from(before, given, tree) implies self.tracks(tree) by {
                            lemma_directory_done(query, root, lower, top, tree);
                            assert(Seq::<Seq<Seq<char>>>::empty() + matches_in_listing(
                                query,
                                root,
                                tree,
                            ) =~= matches_in_listing(query, root, tree));
                        }
                    }
                    return ;
                }
                let ghost parent = lower.last();
                let ghost outer = lower.drop_last();
                proof {
                    assert(lower =~= outer.push(parent));
                    assert(self.frames@ =~= lower);
                    assert(at_directory(frames[n - 2]));
                }
                self.pass_entry();
                proof {
                    assert forall|tree: Listing| #[trigger]
                        fed_from(before, given, tree) implies self.midway(tree) by {
                        lemma_directory_done(query, root, lower, top, tree);
                        lemma_entry_done(query, root, outer, parent, tree);
                        let under = matches_in_listing(
                            query,
                            wanted(root, lower),
                            subtree(tree, lower),
                        );
                        assert((collected(query, lower, tree) + under) + own_match(query, parent)
                            =~= collected(query, lower, tree) + (under + own_match(
                            query,
                            parent,
                        )));
                    }
                    assert(remaining(frames) == remaining(lower) + 1);
                    assert(self.frames@.drop_last() =~= outer);
                    assert(self.frames@.last() == moved_on(parent));
                    assert(parent.next < parent.children.len());
                    assert(parts_at(frames, self.frames@, outer.len() as int));
                    lemma_stands_before_chain(before.frames@, frames, self.frames@);
                    assert(remaining(self.frames@) + 1 == remaining(lower));
                }
            } else if self.frames[n - 1].children[self.frames[n - 1].next].is_dir {
                return ;
            } else {
                let ghost lower = frames.drop_last();
                let ghost top = frames.last();
                proof {
                    assert(frames =~= lower.push(top));
                }
                self.pass_entry();
                proof {
                    assert forall|tree: Listing| #[trigger]
                        fed_from(before, given, tree) implies self.midway(tree) by {
                        lemma_entry_done(query, root, lower, top, tree);
                        assert(collected(query, frames, tree) + (Seq::empty() + own_match(
                            query,
                            top,
                        )) =~= collected(query, frames, tree) + own_match(query, top));
                    }
                    assert(self.frames@.drop_last() =~= lower);
                    assert(self.frames@.last() == moved_on(top));
                    assert(top.next < top.children.len());
                    assert(parts_at(frames, self.frames@, lower.len() as int));
                    lemma_stands_before_chain(before.frames@, frames, self.frames@);
                    assert(remaining(self.frames@) + 1 == remaining(frames));
                }
            }
        }
    }
}

/// A walk that is finished holds exactly the matches of the tree that its
/// reads were taken from, in the order of the search on the whole tree.
pub proof fn lemma_finished_walk_found_all(walk: Walk, tree: Listing)
    requires
        walk.tracks(tree),
        !walk.awaiting,
    ensures
        path_views(walk.found@) == matches_in_listing(walk.query@, names_of(walk.root@), tree),
{
}

} // verus!
