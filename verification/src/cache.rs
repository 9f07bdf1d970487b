//! The bounded look-ahead cache of file bytes, keyed by position in the sequence.

use std::collections::HashMap;
use vstd::prelude::*;
use crate::path::FilePath;

verus! {

/// The standard backward margin.
pub const BACKWARD_MARGIN: usize = 5;

/// The standard forward margin.
pub const FORWARD_MARGIN: usize = 15;

/// The standard look-ahead.
pub const LOOK_AHEAD: usize = 10;

/// How far the window of a cache reaches around the cursor, and how far ahead of
/// the cursor a loading pass fills it.
#[derive(Clone, Copy, Debug, PartialEq, Eq)]
pub struct Margins {
    /// How many positions behind the cursor an eviction pass leaves in the cache.
    pub backward: usize,
    /// How many positions from the cursor on an eviction pass leaves in the cache.
    pub forward: usize,
    /// How many positions from the cursor on a loading pass fills.
    pub look_ahead: usize,
}

impl Margins {
    /// The margins that are used where none are given.
    pub open spec fn spec_standard() -> Margins {
        Margins { backward: BACKWARD_MARGIN, forward: FORWARD_MARGIN, look_ahead: LOOK_AHEAD }
    }

    /// The margins with a look-ahead that does not reach past the window.
    pub open spec fn spec_within_window(self) -> Margins {
        Margins {
            backward: self.backward,
            forward: self.forward,
            look_ahead: if self.look_ahead <= self.forward {
                self.look_ahead
            } else {
                self.forward
            },
        }
    }

    /// The margins that are used where none are given: five positions behind the
    /// cursor, fifteen from the cursor on, and a look-ahead of ten.
    pub fn standard() -> (r: Margins)
        ensures
            r == Margins::spec_standard(),
    {
        Margins { backward: BACKWARD_MARGIN, forward: FORWARD_MARGIN, look_ahead: LOOK_AHEAD }
    }

    /// The margins with a look-ahead that does not reach past the window: what a
    /// loading pass caches beyond the window, the next eviction pass would remove.
    pub fn within_window(self) -> (r: Margins)
        ensures
            r == self.spec_within_window(),
            r.look_ahead <= r.forward,
    {
        Margins {
            backward: self.backward,
            forward: self.forward,
            look_ahead: if self.look_ahead <= self.forward {
                self.look_ahead
            } else {
                self.forward
            },
        }
    }
}

/// `position` lies in the window that an eviction pass at `cursor` keeps.
pub open spec fn in_window(margins: Margins, cursor: int, position: int) -> bool {
    cursor - margins.backward <= position < cursor + margins.forward
}

/// The positions that an eviction pass at `cursor` keeps.
pub open spec fn window(margins: Margins, cursor: usize) -> Set<usize> {
    Set::new(|position: usize| in_window(margins, cursor as int, position as int))
}

/// `position` is one that a loading pass at `cursor` fills, in a sequence of `len`
/// paths.
pub open spec fn in_look_ahead(margins: Margins, cursor: int, len: int, position: int) -> bool {
    cursor <= position < cursor + margins.look_ahead && position < len
}

/// The positions among the first `n` from `cursor` on that lie in the sequence and
/// are not cached, in ascending order.
pub open spec fn load_plan_upto(cached: Set<usize>, cursor: int, len: int, n: nat) -> Seq<usize>
    decreases n,
{
    if n == 0 {
        Seq::empty()
    } else {
        let rest = load_plan_upto(cached, cursor, len, (n - 1) as nat);
        let position = cursor + n - 1;
        if position < len && !cached.contains(position as usize) {
            rest.push(position as usize)
        } else {
            rest
        }
    }
}

/// The positions that a loading pass at `cursor` reads: those of the look-ahead
/// that are not cached, in ascending order.
pub open spec fn load_plan(margins: Margins, cached: Set<usize>, cursor: usize, len: usize) -> Seq<
    usize,
> {
    load_plan_upto(cached, cursor as int, len as int, margins.look_ahead as nat)
}

/// What one loading pass at `cursor` may do to a cache: every entry stays as it
/// was, and a new entry lies in the look-ahead.
pub open spec fn loaded(
    margins: Margins,
    before: Map<usize, Seq<u8>>,
    after: Map<usize, Seq<u8>>,
    cursor: usize,
    len: usize,
) -> bool {
    &&& before.submap_of(after)
    &&& forall|position: usize| #[trigger]
        after.contains_key(position) && !before.contains_key(position) ==> in_look_ahead(
            margins,
            cursor as int,
            len as int,
            position as int,
        )
}

/// Every position of the look-ahead at `cursor` is cached.
pub open spec fn look_ahead_cached(
    margins: Margins,
    cached: Set<usize>,
    cursor: usize,
    len: usize,
) -> bool {
    forall|position: usize|
        in_look_ahead(margins, cursor as int, len as int, position as int)
            ==> #[trigger] cached.contains(position)
}

/// Where the look-ahead does not reach past the window, it lies within it: what a
/// loading pass caches, the eviction pass at the same cursor leaves in the cache.
pub proof fn lemma_look_ahead_in_window(margins: Margins, cursor: int, len: int, position: int)
    requires
        margins.look_ahead <= margins.forward,
        in_look_ahead(margins, cursor, len, position),
    ensures
        in_window(margins, cursor, position),
{
}

/// A set of positions that all lie between `lo` and `hi` holds at most `hi - lo`
/// of them.
pub proof fn lemma_positions_bound(positions: Set<usize>, lo: int, hi: int)
    requires
        lo <= hi,
        forall|position: usize| #[trigger] positions.contains(position) ==> lo <= position < hi,
    ensures
        positions.finite(),
        positions.len() <= hi - lo,
    decreases hi - lo,
{
    if lo == hi {
        assert(positions =~= Set::empty());
    } else {
        let top = hi - 1;
        if 0 <= top <= usize::MAX && positions.contains(top as usize) {
            let rest = positions.remove(top as usize);
            lemma_positions_bound(rest, lo, top);
        } else {
            lemma_positions_bound(positions, lo, top);
        }
    }
}

/// A cache whose positions all lie in the window at `cursor` holds no more entries
/// than the window has positions.
pub proof fn lemma_window_bound(margins: Margins, cache: Map<usize, Seq<u8>>, cursor: usize)
    requires
        forall|position: usize| #[trigger]
            cache.contains_key(position) ==> in_window(margins, cursor as int, position as int),
    ensures
        cache.dom().finite(),
        cache.len() <= margins.backward + margins.forward,
{
    lemma_positions_bound(cache.dom(), cursor - margins.backward, cursor + margins.forward);
}

/// The plan holds exactly the positions among the first `n` from `cursor` on that
/// lie in the sequence and are not cached, and holds them in ascending order.
pub proof fn lemma_load_plan_upto(cached: Set<usize>, cursor: int, len: int, n: nat)
    requires
        0 <= cursor,
        len <= usize::MAX,
    ensures
        forall|position: usize| #[trigger]
            load_plan_upto(cached, cursor, len, n).contains(position) <==> cursor <= position
                < cursor + n && position < len && !cached.contains(position),
        forall|i: int, j: int|
            0 <= i < j < load_plan_upto(cached, cursor, len, n).len() ==> #[trigger] load_plan_upto(
                cached,
                cursor,
                len,
                n,
            )[i] < #[trigger] load_plan_upto(cached, cursor, len, n)[j],
    decreases n,
{
    if n > 0 {
        let rest = load_plan_upto(cached, cursor, len, (n - 1) as nat);
        lemma_load_plan_upto(cached, cursor, len, (n - 1) as nat);
        let last = cursor + n - 1;
        let plan = load_plan_upto(cached, cursor, len, n);
        if last < len && !cached.contains(last as usize) {
            assert forall|position: usize| #[trigger] plan.contains(position) implies cursor
                <= position < cursor + n && position < len && !cached.contains(position) by {
                let i = choose|i: int| 0 <= i < plan.len() && plan[i] == position;
                if i < rest.len() {
                    assert(rest[i] == position);
                    assert(rest.contains(position));
                }
            }
            assert forall|position: usize|
                cursor <= position < cursor + n && position < len && !cached.contains(
                    position,
                ) implies #[trigger] plan.contains(position) by {
                if position == last {
                    assert(plan[rest.len() as int] == position);
                } else {
                    assert(rest.contains(position));
                    let i = choose|i: int| 0 <= i < rest.len() && rest[i] == position;
                    assert(plan[i] == position);
                }
            }
            assert forall|i: int, j: int| 0 <= i < j < plan.len() implies #[trigger] plan[i]
                < #[trigger] plan[j] by {
                assert(plan[i] == rest[i]);
                if j == rest.len() {
                    assert(rest.contains(rest[i]));
                } else {
                    assert(plan[j] == rest[j]);
                }
            }
        }
    }
}

/// A loading pass reads for exactly the positions of the look-ahead that have no
/// entry, in ascending order, so for none twice.
pub proof fn lemma_load_plan(margins: Margins, cached: Set<usize>, cursor: usize, len: usize)
    ensures
        forall|position: usize| #[trigger]
            load_plan(margins, cached, cursor, len).contains(position) <==> in_look_ahead(
                margins,
                cursor as int,
                len as int,
                position as int,
            ) && !cached.contains(position),
        forall|i: int, j: int|
            0 <= i < j < load_plan(margins, cached, cursor, len).len() ==> #[trigger] load_plan(
                margins,
                cached,
                cursor,
                len,
            )[i] < #[trigger] load_plan(margins, cached, cursor, len)[j],
{
    lemma_load_plan_upto(cached, cursor as int, len as int, margins.look_ahead as nat);
}

/// Past the end of the sequence nothing is planned: the plan over the first `n`
/// positions from `cursor` on is the plan over as many of them as lie in the
/// sequence.
pub proof fn lemma_load_plan_ends(cached: Set<usize>, cursor: int, len: int, n: nat, m: nat)
    requires
        m <= n,
        m == n || cursor + m >= len,
    ensures
        load_plan_upto(cached, cursor, len, n) == load_plan_upto(cached, cursor, len, m),
    decreases n,
{
    if m < n {
        lemma_load_plan_ends(cached, cursor, len, (n - 1) as nat, m);
    }
}

/// A second loading pass at the same cursor reads for no position that has an
/// entry: it reads again only where the first pass read and got nothing, and it
/// leaves every entry as it is.
pub proof fn lemma_second_pass(
    margins: Margins,
    start: Map<usize, Seq<u8>>,
    first: Map<usize, Seq<u8>>,
    second: Map<usize, Seq<u8>>,
    cursor: usize,
    len: usize,
)
    requires
        loaded(margins, start, first, cursor, len),
        loaded(margins, first, second, cursor, len),
    ensures
        forall|position: usize| #[trigger]
            load_plan(margins, first.dom(), cursor, len).contains(position)
                ==> !first.contains_key(position) && load_plan(
                margins,
                start.dom(),
                cursor,
                len,
            ).contains(position),
        first.submap_of(second),
{
    lemma_load_plan(margins, start.dom(), cursor, len);
    lemma_load_plan(margins, first.dom(), cursor, len);
}

/// A loading pass over a look-ahead that is cached reads nothing and changes
/// nothing: after a pass in which every read gave bytes, a second pass at the same
/// cursor is without effect.
pub proof fn lemma_ensure_loaded_idempotent(
    margins: Margins,
    first: Map<usize, Seq<u8>>,
    second: Map<usize, Seq<u8>>,
    cursor: usize,
    len: usize,
)
    requires
        look_ahead_cached(margins, first.dom(), cursor, len),
        loaded(margins, first, second, cursor, len),
    ensures
        load_plan(margins, first.dom(), cursor, len) == Seq::<usize>::empty(),
        second == first,
{
    lemma_load_plan(margins, first.dom(), cursor, len);
    let plan = load_plan(margins, first.dom(), cursor, len);
    if plan.len() > 0 {
        assert(plan.contains(plan[0]));
    }
}

/// A bounded set of byte buffers, each the content of the file at one position of
/// the sequence, with the margins of its window.
pub struct WindowCache {
    entries: HashMap<usize, Vec<u8>>,
    margins: Margins,
}

impl View for WindowCache {
    type V = Map<usize, Seq<u8>>;

    closed spec fn view(&self) -> Map<usize, Seq<u8>> {
        self.entries@.map_values(|bytes: Vec<u8>| bytes@)
    }
}

/// Whether `position` lies in the window at `cursor`.
fn is_in_window(margins: Margins, cursor: usize, position: usize) -> (r: bool)
    ensures
        r == in_window(margins, cursor as int, position as int),
{
    if position < cursor {
        cursor - position <= margins.backward
    } else {
        position - cursor < margins.forward
    }
}

impl WindowCache {
    /// The margins of the window.
    pub closed spec fn spec_margins(&self) -> Margins {
        self.margins
    }

    /// The cache without entries, with the standard margins.
    pub fn new() -> (r: WindowCache)
        ensures
            r@ == Map::<usize, Seq<u8>>::empty(),
            r.spec_margins() == Margins::spec_standard(),
    {
        WindowCache { entries: HashMap::new(), margins: Margins::standard() }
    }

    /// The cache without entries, with the given margins.
    pub fn with_margins(margins: Margins) -> (r: WindowCache)
        ensures
            r@ == Map::<usize, Seq<u8>>::empty(),
            r.spec_margins() == margins,
    {
        WindowCache { entries: HashMap::new(), margins }
    }

    /// The margins of the window.
    pub fn margins(&self) -> (r: Margins)
        ensures
            r == self.spec_margins(),
    {
        self.margins
    }

    /// The bytes cached for `position`, if any. A position without an entry is not
    /// yet available.
    pub fn get(&self, position: usize) -> (r: Option<&Vec<u8>>)
        ensures
            match r {
                Some(bytes) => self@.contains_key(position) && bytes@ == self@[position],
                None => !self@.contains_key(position),
            },
    {
        self.entries.get(&position)
    }

    /// Whether bytes are cached for `position`.
    pub fn contains(&self, position: usize) -> (r: bool)
        ensures
            r == self@.contains_key(position),
    {
        self.entries.contains_key(&position)
    }

    /// The number of entries.
    pub fn len(&self) -> (r: usize)
        ensures
            r == self@.len(),
            self@.dom().finite(),
    {
        assert(self@.dom() =~= self.entries@.dom());
        self.entries.len()
    }

    /// Caches `bytes` for `position`, in place of what was cached for it.
    pub fn store(&mut self, position: usize, bytes: Vec<u8>)
        ensures
            final(self)@ == old(self)@.insert(position, bytes@),
            final(self).spec_margins() == old(self).spec_margins(),
    {
        self.entries.insert(position, bytes);
    }

    /// Removes the entry of `position`, if there is one: the position was decided.
    pub fn purge(&mut self, position: usize)
        ensures
            final(self)@ == old(self)@.remove(position),
            final(self).spec_margins() == old(self).spec_margins(),
    {
        self.entries.remove(&position);
    }

    /// Removes every entry.
    pub fn clear(&mut self)
        ensures
            final(self)@ == Map::<usize, Seq<u8>>::empty(),
            final(self).spec_margins() == old(self).spec_margins(),
    {
        self.entries.clear();
    }

    /// The cached positions that lie outside the window at `cursor`, each once.
    fn outside_window(&self, cursor: usize) -> (outside: Vec<usize>)
        ensures
            forall|position: usize| #[trigger]
                outside@.contains(position) <==> self.entries@.contains_key(position) && !in_window(
                    self.margins,
                    cursor as int,
                    position as int,
                ),
    {
        let mut outside: Vec<usize> = Vec::new();
        let ghost mut seen: Seq<usize> = Seq::empty();
        for key in walk: self.entries.keys()
            invariant
                seen == walk.seq().unref().subrange(0, walk.index() as int),
                walk.seq().unref().to_set() == self.entries@.dom(),
                walk.index() == walk.seq().len() ==> seen.to_set() == self.entries@.dom(),
                forall|j: int|
                    0 <= j < seen.len() && !in_window(
                        self.margins,
                        cursor as int,
                        seen[j] as int,
                    ) ==> outside@.contains(#[trigger] seen[j]),
                forall|position: usize| #[trigger]
                    outside@.contains(position) ==> self.entries@.contains_key(position)
                        && !in_window(self.margins, cursor as int, position as int),
        {
            let ghost before = outside@;
            let ghost at = walk.index();
            if !is_in_window(self.margins, cursor, *key) {
                outside.push(*key);
                assert(outside@[before.len() as int] == *key);
            }
            proof {
                seen = seen.push(*key);
            }
            assert(at + 1 == walk.seq().len() ==> seen =~= walk.seq().unref());
            assert forall|position: usize| #[trigger]
                outside@.contains(position) implies self.entries@.contains_key(position)
                && !in_window(self.margins, cursor as int, position as int) by {
                let i = choose|i: int| 0 <= i < outside@.len() && outside@[i] == position;
                if i < before.len() {
                    assert(before.contains(before[i]));
                }
            }
            assert forall|j: int|
                0 <= j < seen.len() && !in_window(
                    self.margins,
                    cursor as int,
                    seen[j] as int,
                ) implies outside@.contains(#[trigger] seen[j]) by {
                if j < at {
                    assert(before.contains(seen[j]));
                    let i = choose|i: int| 0 <= i < before.len() && before[i] == seen[j];
                    assert(outside@[i] == seen[j]);
                }
            }
        }
        outside
    }

    /// The eviction pass: removes every entry whose position lies outside the
    /// window at `cursor`, and leaves the others as they are.
    pub fn evict(&mut self, cursor: usize)
        ensures
            final(self)@ == old(self)@.restrict(window(old(self).spec_margins(), cursor)),
            final(self).spec_margins() == old(self).spec_margins(),
            forall|position: usize| #[trigger]
                final(self)@.contains_key(position) ==> in_window(
                    old(self).spec_margins(),
                    cursor as int,
                    position as int,
                ),
            final(self)@.dom().finite(),
            final(self)@.len() <= old(self).spec_margins().backward + old(
                self,
            ).spec_margins().forward,
    {
        let outside = self.outside_window(cursor);
        let ghost start = self.entries@;
        let mut i: usize = 0;
        while i < outside.len()
            invariant
                i <= outside.len(),
                self.margins == old(self).margins,
                forall|position: usize|
                    #![trigger self.entries@.contains_key(position)]
                    self.entries@.contains_key(position) <==> start.contains_key(position)
                        && !outside@.subrange(0, i as int).contains(position),
                forall|position: usize| #[trigger]
                    self.entries@.contains_key(position) ==> self.entries@[position]
                        == start[position],
            decreases outside.len() - i,
        {
            let ghost gone = outside@.subrange(0, i as int);
            self.entries.remove(&outside[i]);
            assert forall|position: usize|
                #![trigger self.entries@.contains_key(position)]
                self.entries@.contains_key(position) <==> start.contains_key(position)
                    && !outside@.subrange(0, i + 1).contains(position) by {
                let now = outside@.subrange(0, i + 1);
                assert(now[i as int] == outside@[i as int]);
                if gone.contains(position) {
                    let j = choose|j: int| 0 <= j < gone.len() && gone[j] == position;
                    assert(now[j] == position);
                }
                if now.contains(position) && position != outside@[i as int] {
                    let j = choose|j: int| 0 <= j < now.len() && now[j] == position;
                    assert(gone[j] == position);
                }
            }
            i += 1;
        }
        proof {
            assert(outside@.subrange(0, outside@.len() as int) =~= outside@);
            lemma_window_bound(self.margins, self@, cursor);
        }
    }

    /// The positions that a loading pass at `cursor` would read, in ascending
    /// order: those of the look-ahead without an entry.
    pub fn missing(&self, cursor: usize, len: usize) -> (plan: Vec<usize>)
        ensures
            plan@ == load_plan(self.spec_margins(), self@.dom(), cursor, len),
    {
        let mut plan: Vec<usize> = Vec::new();
        let limit: usize = look_ahead_limit(self.margins, cursor, len);
        let mut n: usize = 0;
        while n < limit
            invariant
                n <= limit,
                cursor + limit <= len || limit == 0,
                plan@ == load_plan_upto(self@.dom(), cursor as int, len as int, n as nat),
            decreases limit - n,
        {
            let position: usize = cursor + n;
            if !self.contains(position) {
                plan.push(position);
            }
            n += 1;
        }
        proof {
            lemma_load_plan_ends(
                self@.dom(),
                cursor as int,
                len as int,
                self.margins.look_ahead as nat,
                limit as nat,
            );
        }
        plan
    }

    /// The loading pass: reads, with `read`, the file of every position of the
    /// look-ahead at `cursor` that has no entry, in ascending order and each once,
    /// and caches what was read. A file that could not be read leaves its position
    /// without an entry. Returns the positions that were read for.
    pub fn ensure_loaded<F: Fn(&FilePath) -> Option<Vec<u8>>>(
        &mut self,
        sequence: &Vec<FilePath>,
        cursor: usize,
        read: F,
    ) -> (attempted: Vec<usize>)
        requires
            forall|i: int| 0 <= i < sequence.len() ==> call_requires(read, (&#[trigger] sequence[i],)),
        ensures
            final(self).spec_margins() == old(self).spec_margins(),
            attempted@ == load_plan(
                old(self).spec_margins(),
                old(self)@.dom(),
                cursor,
                sequence.len(),
            ),
            loaded(old(self).spec_margins(), old(self)@, final(self)@, cursor, sequence.len()),
            forall|position: usize| #[trigger]
                final(self)@.contains_key(position) && !old(self)@.contains_key(position)
                    ==> exists|bytes: Vec<u8>|
                    bytes@ == final(self)@[position] && call_ensures(
                        read,
                        (&sequence[position as int],),
                        Some(bytes),
                    ),
            forall|position: usize|
                in_look_ahead(
                    old(self).spec_margins(),
                    cursor as int,
                    sequence.len() as int,
                    position as int,
                ) && !#[trigger] final(self)@.contains_key(position) ==> call_ensures(
                    read,
                    (&sequence[position as int],),
                    None::<Vec<u8>>,
                ),
    {
        let mut attempted: Vec<usize> = Vec::new();
        let len: usize = sequence.len();
        let limit: usize = look_ahead_limit(self.margins, cursor, len);
        let mut n: usize = 0;
        while n < limit
            invariant
                n <= limit <= self.margins.look_ahead,
                cursor + limit <= len || limit == 0,
                len == sequence.len(),
                self.margins == old(self).margins,
                forall|i: int| 0 <= i < sequence.len() ==> call_requires(read, (&#[trigger] sequence[i],)),
                attempted@ == load_plan_upto(old(self)@.dom(), cursor as int, len as int, n as nat),
                old(self)@.submap_of(self@),
                forall|position: usize| #[trigger]
                    self@.contains_key(position) && !old(self)@.contains_key(position) ==> {
                        &&& cursor <= position < cursor + n
                        &&& position < len
                        &&& exists|bytes: Vec<u8>|
                            bytes@ == self@[position] && call_ensures(
                                read,
                                (&sequence[position as int],),
                                Some(bytes),
                            )
                    },
                forall|position: usize|
                    cursor <= position < cursor + n && position < len && !#[trigger] self@.contains_key(
                        position,
                    ) ==> call_ensures(read, (&sequence[position as int],), None::<Vec<u8>>),
            decreases limit - n,
        {
            let position: usize = cursor + n;
            if !self.contains(position) {
                attempted.push(position);
                match read(&sequence[position]) {
                    Some(bytes) => {
                        self.store(position, bytes);
                    },
                    None => {},
                }
            }
            n += 1;
        }
        proof {
            lemma_load_plan_ends(
                old(self)@.dom(),
                cursor as int,
                len as int,
                self.margins.look_ahead as nat,
                limit as nat,
            );
        }
        attempted
    }
}

/// How many positions of the look-ahead at `cursor` lie in a sequence of `len`
/// paths.
fn look_ahead_limit(margins: Margins, cursor: usize, len: usize) -> (limit: usize)
    ensures
        limit <= margins.look_ahead,
        cursor + limit <= len || limit == 0,
        cursor + limit >= len || limit == margins.look_ahead,
{
    if cursor >= len {
        0
    } else if margins.look_ahead <= len - cursor {
        margins.look_ahead
    } else {
        len - cursor
    }
}

} // verus!
