//! One triage session: the sequence, the cursor that moves through it, the ledger
//! of decisions and the cache of bytes around the cursor.

use vstd::prelude::*;
use crate::cache::{
    Margins, WindowCache, in_look_ahead, in_window, lemma_positions_bound, load_plan, loaded,
    window,
};
use crate::ledger::{DecisionLedger, Verdict};
use crate::export::{Presence, export_plan, lemma_paths_under_root};
use crate::path::{FilePath, paths_view, starts_with};
use crate::sequence::{lemma_project_len, lemma_under_base};
use crate::tree::{DirectoryNode, Tree};

verus! {

/// How far a session has come.
#[derive(Clone, Copy, Debug, PartialEq, Eq)]
pub struct Counts {
    pub kept: usize,
    pub discarded: usize,
    pub remaining: usize,
    pub total: usize,
}

/// A session over the images of one directory tree. Items are presented in the
/// order of the sequence, each once; the cursor is the position of the item to be
/// decided next, and every position before it is decided.
pub struct Session {
    root: FilePath,
    tree: DirectoryNode,
    sequence: Vec<FilePath>,
    cursor: usize,
    ledger: DecisionLedger,
    cache: WindowCache,
}

impl Session {
    /// The path of the directory that was scanned.
    pub closed spec fn root(&self) -> Seq<Seq<u8>> {
        self.root@
    }

    /// The tree that was scanned.
    pub closed spec fn tree(&self) -> Tree {
        self.tree@
    }

    /// The paths of the sequence, as they are handed to a reader.
    pub closed spec fn paths(&self) -> Seq<FilePath> {
        self.sequence@
    }

    /// The sequence: the image paths in the order in which they are presented.
    pub open spec fn sequence(&self) -> Seq<Seq<Seq<u8>>> {
        paths_view(self.paths())
    }

    /// The position of the item to be decided next.
    pub closed spec fn cursor(&self) -> nat {
        self.cursor as nat
    }

    /// The kept paths, in the order of their decisions.
    pub closed spec fn kept(&self) -> Seq<Seq<Seq<u8>>> {
        self.ledger.kept()
    }

    /// The discarded paths, in the order of their decisions.
    pub closed spec fn discarded(&self) -> Seq<Seq<Seq<u8>>> {
        self.ledger.discarded()
    }

    /// The cached bytes, by position.
    pub closed spec fn cache(&self) -> Map<usize, Seq<u8>> {
        self.cache@
    }

    /// The margins of the cache.
    pub closed spec fn margins(&self) -> Margins {
        self.cache.spec_margins()
    }

    /// What holds of a session at all times: the sequence is the projection of the
    /// tree; every position before the cursor is decided, and no other; every kept
    /// path is a path of the sequence; the look-ahead does not reach past the
    /// window; the cache holds bytes only for undecided positions of the sequence
    /// within the forward margin.
    pub open spec fn wf(&self) -> bool {
        &&& self.sequence() == self.tree().project(self.root())
        &&& self.cursor() <= self.sequence().len()
        &&& self.kept().len() + self.discarded().len() == self.cursor()
        &&& forall|i: int|
            0 <= i < self.kept().len() ==> self.sequence().contains(#[trigger] self.kept()[i])
        &&& self.margins().look_ahead <= self.margins().forward
        &&& forall|position: usize| #[trigger]
            self.cache().contains_key(position) ==> self.cursor() <= position < self.cursor()
                + self.margins().forward && position < self.sequence().len()
    }

    /// Opens a session on the tree scanned at `root`, with the standard margins:
    /// the sequence is the tree's projection, nothing is decided and nothing is
    /// cached.
    pub fn open(root: FilePath, tree: DirectoryNode) -> (r: Session)
        ensures
            r.wf(),
            r.root() == root@,
            r.tree() == tree@,
            r.margins() == Margins::spec_standard(),
            r.cursor() == 0,
            r.kept() == Seq::<Seq<Seq<u8>>>::empty(),
            r.discarded() == Seq::<Seq<Seq<u8>>>::empty(),
            r.cache() == Map::<usize, Seq<u8>>::empty(),
    {
        Session::open_with_margins(root, tree, Margins::standard())
    }

    /// Opens a session on the tree scanned at `root`, with the given margins; a
    /// look-ahead that reaches past the window is cut to the window.
    pub fn open_with_margins(root: FilePath, tree: DirectoryNode, margins: Margins) -> (r: Session)
        ensures
            r.wf(),
            r.root() == root@,
            r.tree() == tree@,
            r.margins() == margins.spec_within_window(),
            r.cursor() == 0,
            r.kept() == Seq::<Seq<Seq<u8>>>::empty(),
            r.discarded() == Seq::<Seq<Seq<u8>>>::empty(),
            r.cache() == Map::<usize, Seq<u8>>::empty(),
    {
        let sequence = tree.get_images_depth_first_current_priority(&root);
        Session {
            root,
            tree,
            sequence,
            cursor: 0,
            ledger: DecisionLedger::new(),
            cache: WindowCache::with_margins(margins.within_window()),
        }
    }

    /// The item to be decided next, or none when every item is decided.
    pub fn current_item(&self) -> (r: Option<&FilePath>)
        requires
            self.wf(),
        ensures
            match r {
                Some(path) => self.cursor() < self.sequence().len() && *path == self.paths()[
                    self.cursor() as int
                ],
                None => self.cursor() == self.sequence().len(),
            },
    {
        if self.cursor < self.sequence.len() {
            Some(&self.sequence[self.cursor])
        } else {
            None
        }
    }

    /// The position of the item to be decided next.
    pub fn position(&self) -> (r: usize)
        ensures
            r == self.cursor(),
    {
        self.cursor
    }

    /// The paths of the sequence.
    pub fn image_paths(&self) -> (r: &Vec<FilePath>)
        ensures
            r@ == self.paths(),
    {
        &self.sequence
    }

    /// The kept paths, in the order of their decisions.
    pub fn kept_paths(&self) -> (r: &Vec<FilePath>)
        ensures
            paths_view(r@) == self.kept(),
    {
        self.ledger.kept_paths()
    }

    /// The path of the directory that was scanned.
    pub fn working_root(&self) -> (r: &FilePath)
        ensures
            r@ == self.root(),
    {
        &self.root
    }

    /// How far the session has come. The kept, the discarded and the remaining
    /// items are together all the items, which are the images of the tree.
    pub fn counts(&self) -> (c: Counts)
        requires
            self.wf(),
        ensures
            c.kept == self.kept().len(),
            c.discarded == self.discarded().len(),
            c.remaining == self.sequence().len() - self.cursor(),
            c.total == self.sequence().len(),
            c.total == self.tree().count_images(),
            c.kept + c.discarded + c.remaining == c.total,
    {
        proof {
            lemma_project_len(self.tree(), self.root());
        }
        Counts {
            kept: self.ledger.kept_count(),
            discarded: self.ledger.discarded_count(),
            remaining: self.sequence.len() - self.cursor,
            total: self.sequence.len(),
        }
    }

    /// The bytes cached for `position`, if any.
    pub fn cached_bytes(&self, position: usize) -> (r: Option<&Vec<u8>>)
        ensures
            match r {
                Some(bytes) => self.cache().contains_key(position) && bytes@ == self.cache()[position],
                None => !self.cache().contains_key(position),
            },
    {
        self.cache.get(position)
    }

    /// Decides the current item and moves on. The item's path is recorded in the
    /// ledger under `verdict`, its cache entry is removed, the cursor moves to the
    /// next position, and the eviction pass at the new cursor follows. What was
    /// cached for an undecided position stays cached, the item advanced to in
    /// particular. When every item is decided already, nothing changes.
    pub fn advance(&mut self, verdict: Verdict)
        requires
            old(self).wf(),
        ensures
            final(self).wf(),
            final(self).root() == old(self).root(),
            final(self).tree() == old(self).tree(),
            final(self).paths() == old(self).paths(),
            final(self).margins() == old(self).margins(),
            old(self).cursor() == old(self).sequence().len() ==> {
                &&& final(self).cursor() == old(self).cursor()
                &&& final(self).kept() == old(self).kept()
                &&& final(self).discarded() == old(self).discarded()
                &&& final(self).cache() == old(self).cache()
            },
            old(self).cursor() < old(self).sequence().len() ==> {
                &&& final(self).cursor() == old(self).cursor() + 1
                &&& final(self).kept() == match verdict {
                    Verdict::Keep => old(self).kept().push(
                        old(self).sequence()[old(self).cursor() as int],
                    ),
                    Verdict::Discard => old(self).kept(),
                }
                &&& final(self).discarded() == match verdict {
                    Verdict::Keep => old(self).discarded(),
                    Verdict::Discard => old(self).discarded().push(
                        old(self).sequence()[old(self).cursor() as int],
                    ),
                }
                &&& final(self).cache() == old(self).cache().remove(
                    old(self).cursor() as usize,
                ).restrict(window(old(self).margins(), final(self).cursor() as usize))
            },
            forall|position: usize|
                old(self).cursor() < position && #[trigger] old(self).cache().contains_key(position)
                    ==> final(self).cache().contains_key(position) && final(self).cache()[position]
                    == old(self).cache()[position],
    {
        if self.cursor < self.sequence.len() {
            let decided = self.sequence[self.cursor].duplicate();
            self.ledger.record(decided, verdict);
            self.cache.purge(self.cursor);
            self.cursor = self.cursor + 1;
            self.cache.evict(self.cursor);
            assert forall|i: int| 0 <= i < self.kept().len() implies self.sequence().contains(
                #[trigger] self.kept()[i],
            ) by {
                if i < old(self).kept().len() {
                    assert(self.kept()[i] == old(self).kept()[i]);
                } else {
                    assert(self.kept()[i] == self.sequence()[old(self).cursor() as int]);
                }
            }
            assert forall|position: usize| #[trigger]
                self.cache().contains_key(position) implies self.cursor() <= position
                < self.cursor() + self.margins().forward && position < self.sequence().len() by {
                assert(old(self).cache().contains_key(position));
            }
        }
    }

    /// The loading pass at the cursor: reads, with `read`, the file of every
    /// position of the look-ahead that has no entry, in ascending order and each
    /// once, and caches what was read. A file that could not be read leaves its
    /// position without an entry, to be read for again by the next pass. Returns the
    /// positions that were read for.
    pub fn ensure_loaded<F: Fn(&FilePath) -> Option<Vec<u8>>>(&mut self, read: F) -> (attempted:
        Vec<usize>)
        requires
            old(self).wf(),
            forall|i: int|
                0 <= i < old(self).paths().len() ==> call_requires(
                    read,
                    (&#[trigger] old(self).paths()[i],),
                ),
        ensures
            final(self).wf(),
            final(self).root() == old(self).root(),
            final(self).tree() == old(self).tree(),
            final(self).paths() == old(self).paths(),
            final(self).margins() == old(self).margins(),
            final(self).cursor() == old(self).cursor(),
            final(self).kept() == old(self).kept(),
            final(self).discarded() == old(self).discarded(),
            attempted@ == load_plan(
                old(self).margins(),
                old(self).cache().dom(),
                old(self).cursor() as usize,
                old(self).sequence().len() as usize,
            ),
            loaded(
                old(self).margins(),
                old(self).cache(),
                final(self).cache(),
                old(self).cursor() as usize,
                old(self).sequence().len() as usize,
            ),
            forall|position: usize| #[trigger]
                final(self).cache().contains_key(position) && !old(self).cache().contains_key(
                    position,
                ) ==> exists|bytes: Vec<u8>|
                    bytes@ == final(self).cache()[position] && call_ensures(
                        read,
                        (&old(self).paths()[position as int],),
                        Some(bytes),
                    ),
            forall|position: usize|
                in_look_ahead(
                    old(self).margins(),
                    old(self).cursor() as int,
                    old(self).sequence().len() as int,
                    position as int,
                ) && !#[trigger] final(self).cache().contains_key(position) ==> call_ensures(
                    read,
                    (&old(self).paths()[position as int],),
                    None::<Vec<u8>>,
                ),
    {
        let attempted = self.cache.ensure_loaded(&self.sequence, self.cursor, read);
        assert forall|position: usize| #[trigger]
            self.cache().contains_key(position) implies self.cursor() <= position < self.cursor()
            + self.margins().forward && position < self.sequence().len() by {
            if !old(self).cache().contains_key(position) {
                assert(in_look_ahead(
                    self.margins(),
                    self.cursor() as int,
                    self.sequence().len() as int,
                    position as int,
                ));
            }
        }
        attempted
    }

    /// Starts over: nothing is decided and nothing is cached. The tree and the
    /// sequence stay.
    pub fn reset(&mut self)
        requires
            old(self).wf(),
        ensures
            final(self).wf(),
            final(self).root() == old(self).root(),
            final(self).tree() == old(self).tree(),
            final(self).paths() == old(self).paths(),
            final(self).margins() == old(self).margins(),
            final(self).cursor() == 0,
            final(self).kept() == Seq::<Seq<Seq<u8>>>::empty(),
            final(self).discarded() == Seq::<Seq<Seq<u8>>>::empty(),
            final(self).cache() == Map::<usize, Seq<u8>>::empty(),
    {
        self.cursor = 0;
        self.ledger = DecisionLedger::new();
        self.cache.clear();
    }
}

/// At all times the kept, the discarded and the remaining items are together all
/// the items of the sequence: each item is decided once or is still to come.
pub proof fn lemma_counts_add_up(session: Session)
    requires
        session.wf(),
    ensures
        session.cursor() <= session.sequence().len(),
        session.kept().len() + session.discarded().len() + (session.sequence().len()
            - session.cursor()) == session.sequence().len(),
{
}

/// At all times a cached position is one that is not yet decided, lies in the
/// sequence and lies in the window at the cursor.
pub proof fn lemma_cached_is_undecided(session: Session, position: usize)
    requires
        session.wf(),
        session.cache().contains_key(position),
    ensures
        session.cursor() <= position < session.sequence().len(),
        in_window(session.margins(), session.cursor() as int, position as int),
{
}

/// At all times the cache holds no more entries than the forward margin has
/// positions.
pub proof fn lemma_cache_bounded(session: Session)
    requires
        session.wf(),
    ensures
        session.cache().dom().finite(),
        session.cache().len() <= session.margins().forward,
{
    lemma_positions_bound(
        session.cache().dom(),
        session.cursor() as int,
        session.cursor() + session.margins().forward,
    );
}

/// At all times every kept path lies under the root, and deeper: the export of
/// the kept paths of a session cannot end in a path error.
pub proof fn lemma_kept_under_root(session: Session, presence: Seq<Presence>)
    requires
        session.wf(),
    ensures
        forall|i: int|
            0 <= i < session.kept().len() ==> starts_with(
                #[trigger] session.kept()[i],
                session.root(),
            ) && session.kept()[i].len() > session.root().len(),
        !export_plan(session.kept(), session.root(), presence).1,
{
    assert forall|i: int| 0 <= i < session.kept().len() implies starts_with(
        #[trigger] session.kept()[i],
        session.root(),
    ) && session.kept()[i].len() > session.root().len() by {
        let path = session.kept()[i];
        assert(session.sequence().contains(path));
        let j = choose|j: int| 0 <= j < session.sequence().len() && session.sequence()[j] == path;
        lemma_under_base(session.tree(), session.root(), j);
    }
    lemma_paths_under_root(session.kept(), session.root(), presence);
}

} // verus!
