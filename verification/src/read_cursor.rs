//! Reader-set management and position tracking for the broadcast queue: the
//! per-consumer cursor with its single/multi fast-path tag, the immutable
//! reader-group snapshot rebuilt on every subscribe or unsubscribe, and the
//! hub that publishes membership changes and answers the writer's aggregate
//! backpressure query.
//!
//! Readers live in an arena (`Vec<Reader>`) managed by the caller and are
//! named by their arena index; a reader is never moved once published into a
//! group, only logically retired, so removed readers keep their slot and
//! their index stays valid for whoever still holds the handle.

use vstd::prelude::*;

use crate::countedindex::{
    counter_span, lemma_wrap_sub_of_add, wrap_add_spec, wrap_sub, wrap_sub_spec, CountedIndex,
    Transaction, MAX_SANE_DIFF,
};

verus! {

/// Fast-path hint cached on each reader: `Single` means exactly one consumer
/// handle is known to share the cursor, so its position may be advanced
/// unconditionally; `Multi` means cloned handles may race and commits must go
/// through the conditional path.
#[derive(Clone, Copy)]
pub enum ReaderState {
    Single,
    Multi,
}

/// One consumer cursor: its read position, the number of cloned handles
/// sharing it, and the cached single/multi tag.
pub struct Reader {
    pos_data: CountedIndex,
    state: ReaderState,
    num_consumers: usize,
}

/// A reader's attempt at loading a position transaction. It carries the
/// loaded snapshot together with the single/multi tag observed at load time,
/// so the commit can pick the fast or the conditional path without re-reading.
pub struct ReadAttempt {
    linked: Transaction,
    state: ReaderState,
}

impl Reader {
    /// The full position-counter word of this reader.
    pub closed spec fn count(&self) -> int {
        self.pos_data.count()
    }

    /// The ring capacity this reader's counter runs over.
    pub closed spec fn wrap_spec(&self) -> int {
        self.pos_data.wrap_spec()
    }

    /// The cached single/multi tag.
    pub closed spec fn state_spec(&self) -> ReaderState {
        self.state
    }

    /// How many cloned consumer handles share this cursor.
    pub closed spec fn consumers(&self) -> int {
        self.num_consumers as int
    }

    /// Well-formedness: the counter is over a sane capacity, and whenever
    /// more than one handle shares the cursor the cached tag is `Multi` —
    /// the fast path is never believed while it could race.
    pub open spec fn wf(&self) -> bool {
        &&& 1 <= self.wrap_spec() <= MAX_SANE_DIFF
        &&& self.consumers() > 1 ==> self.state_spec() is Multi
    }

    /// Captures the current position transaction together with the cached
    /// single/multi tag.
    pub fn load_attempt(&self) -> (a: ReadAttempt)
        ensures
            a.loaded_count() == self.count(),
            a.wrap_spec() == self.wrap_spec(),
            a.state_spec() == self.state_spec(),
    {
        ReadAttempt { linked: self.pos_data.load_transaction(), state: self.state }
    }

    /// Plain read of the position-counter word, for diagnostics and the
    /// backpressure computation.
    pub fn load_nread(&self) -> (r: usize)
        ensures
            r as int == self.count(),
    {
        self.pos_data.load_count()
    }

    /// Registers one more cloned handle on this cursor and disables the fast
    /// path: with a second handle alive, unconditional commits could race.
    pub fn dup_consumer(&mut self)
        requires
            old(self).consumers() < usize::MAX,
            old(self).wf(),
        ensures
            final(self).consumers() == old(self).consumers() + 1,
            final(self).state_spec() is Multi,
            final(self).count() == old(self).count(),
            final(self).wrap_spec() == old(self).wrap_spec(),
            final(self).wf(),
    {
        self.state = ReaderState::Multi;
        self.num_consumers = self.num_consumers + 1;
    }

    /// Unregisters one cloned handle, returning the count before the
    /// decrement so the caller can detect "I was the last" and retire the
    /// reader.
    pub fn remove_consumer(&mut self) -> (r: usize)
        requires
            old(self).consumers() >= 1,
        ensures
            r as int == old(self).consumers(),
            final(self).consumers() == old(self).consumers() - 1,
            final(self).state_spec() == old(self).state_spec(),
            final(self).count() == old(self).count(),
            final(self).wrap_spec() == old(self).wrap_spec(),
            old(self).wf() ==> final(self).wf(),
    {
        let prev = self.num_consumers;
        self.num_consumers = self.num_consumers - 1;
        prev
    }

    /// How many cloned handles currently share this cursor.
    pub fn get_consumers(&self) -> (r: usize)
        ensures
            r as int == self.consumers(),
    {
        self.num_consumers
    }
}

/// The position-counter word a reader holds after committing an attempt:
/// the direct path and a matching conditional path both advance by `by`; a
/// conditional path whose snapshot went stale leaves the position alone.
pub open spec fn attempt_commit_count(r: Reader, a: ReadAttempt, by: u32) -> int {
    match a.state_spec() {
        ReaderState::Single => wrap_add_spec(r.count(), by as int),
        ReaderState::Multi => if r.consumers() == 1 || a.loaded_count() == r.count() {
            wrap_add_spec(r.count(), by as int)
        } else {
            r.count()
        },
    }
}

/// The single/multi tag a reader holds after committing an attempt: a
/// `Multi`-tagged attempt that finds the live consumer count back at one
/// demotes the tag to `Single`; nothing else touches it.
pub open spec fn attempt_commit_state(r: Reader, a: ReadAttempt) -> ReaderState {
    match a.state_spec() {
        ReaderState::Single => r.state_spec(),
        ReaderState::Multi => if r.consumers() == 1 {
            ReaderState::Single
        } else {
            r.state_spec()
        },
    }
}

/// Whether committing an attempt hands back a refreshed attempt for a retry:
/// only a `Multi`-tagged attempt whose snapshot went stale while other
/// handles are still alive — benign contention, never an error.
pub open spec fn attempt_commit_retries(r: Reader, a: ReadAttempt) -> bool {
    a.state_spec() is Multi && r.consumers() != 1 && a.loaded_count() != r.count()
}

impl ReadAttempt {
    /// The position-counter word the attempt observed.
    pub closed spec fn loaded_count(&self) -> int {
        self.linked.loaded_count()
    }

    /// The ring capacity of the observed counter.
    pub closed spec fn wrap_spec(&self) -> int {
        self.linked.wrap_spec()
    }

    /// The single/multi tag captured at load time.
    pub closed spec fn state_spec(&self) -> ReaderState {
        self.state
    }

    /// The `(index, count)` pair this attempt observed.
    pub fn get(&self) -> (r: (isize, usize))
        requires
            1 <= self.wrap_spec() <= MAX_SANE_DIFF,
        ensures
            r.0 as int == self.loaded_count() % self.wrap_spec(),
            r.1 as int == self.loaded_count(),
    {
        self.linked.get()
    }

    /// Commits `by` consumed items against `reader`, choosing the path by the
    /// tag captured at load time:
    ///
    /// - `Single`: commit unconditionally — exactly one handle exists, so
    ///   nothing can race this cursor.
    /// - `Multi` with the live consumer count back at one: demote the cached
    ///   tag to `Single` in place (contention has permanently disappeared
    ///   until the next duplicate) and commit unconditionally.
    /// - `Multi` otherwise: commit conditionally; if the snapshot went stale
    ///   because a cloned handle advanced the cursor first, hand back a
    ///   refreshed attempt so the read can be retried against the current
    ///   position.
    pub fn commit_attempt(self, reader: &mut Reader, by: u32) -> (r: Option<ReadAttempt>)
        requires
            self.wrap_spec() == old(reader).wrap_spec(),
            old(reader).wf(),
        ensures
            final(reader).count() == attempt_commit_count(*old(reader), self, by),
            final(reader).state_spec() == attempt_commit_state(*old(reader), self),
            final(reader).consumers() == old(reader).consumers(),
            final(reader).wrap_spec() == old(reader).wrap_spec(),
            final(reader).wf(),
            r is Some <==> attempt_commit_retries(*old(reader), self),
            r matches Some(fresh) ==> {
                &&& fresh.loaded_count() == old(reader).count()
                &&& fresh.wrap_spec() == old(reader).wrap_spec()
                &&& fresh.state_spec() is Multi
            },
    {
        match self.state {
            ReaderState::Single => {
                reader.pos_data.commit_direct(by);
                None
            },
            ReaderState::Multi => {
                if reader.num_consumers == 1 {
                    reader.state = ReaderState::Single;
                    reader.pos_data.commit_direct(by);
                    None
                } else {
                    match reader.pos_data.commit(&self.linked, by) {
                        Some(transaction) => Some(
                            ReadAttempt { linked: transaction, state: ReaderState::Multi },
                        ),
                        None => None,
                    }
                }
            },
        }
    }
}

/// An immutable snapshot of the currently active readers, as the arena
/// indices of its members. Every subscribe or unsubscribe builds a brand-new
/// group; no group is ever mutated after construction.
pub struct ReaderGroup {
    readers: Vec<usize>,
}

/// The membership left after unsubscribing `id`: the members other than `id`,
/// in their original order.
pub open spec fn remove_spec(members: Seq<usize>, id: usize) -> Seq<usize> {
    members.filter(|x: usize| x != id)
}

/// The backpressure lag of one registered reader: how far the writer's
/// counter has advanced past that reader's, in the counter's wraparound
/// arithmetic.
pub open spec fn lag_of(arena: Seq<Reader>, id: usize, writer: int) -> int {
    wrap_sub_spec(writer, arena[id as int].count())
}

/// The aggregate backpressure of a membership list: the largest lag of any
/// member, or zero for an empty list.
pub open spec fn max_lag(arena: Seq<Reader>, members: Seq<usize>, writer: int) -> int
    decreases members.len(),
{
    if members.len() == 0 {
        0
    } else {
        let rest = max_lag(arena, members.drop_last(), writer);
        let l = lag_of(arena, members.last(), writer);
        if l > rest {
            l
        } else {
            rest
        }
    }
}

impl ReaderGroup {
    /// The arena indices of this group's members, in registration order.
    pub closed spec fn members(&self) -> Seq<usize> {
        self.readers@
    }

    /// Every member names a reader inside the arena.
    pub open spec fn ids_in_bounds(&self, arena: Seq<Reader>) -> bool {
        forall|i: int|
            0 <= i < self.members().len() ==> (#[trigger] self.members()[i]) < arena.len()
    }

    /// The empty group: no readers registered yet.
    pub fn new() -> (g: ReaderGroup)
        ensures
            g.members() == Seq::<usize>::empty(),
    {
        ReaderGroup { readers: Vec::new() }
    }

    /// Builds the membership for one subscribe: a fresh reader initialized at
    /// position `raw` over capacity `wrap` with a single consumer, and a new
    /// group holding the old members plus the fresh reader's name `id`. The
    /// caller places the reader at index `id` of the arena and publishes the
    /// group; this group itself is left untouched.
    pub fn add_reader(&self, raw: usize, wrap: u32, id: usize) -> (r: (ReaderGroup, Reader))
        requires
            1 <= wrap <= MAX_SANE_DIFF,
        ensures
            r.0.members() == self.members().push(id),
            r.1.count() == raw,
            r.1.wrap_spec() == wrap,
            r.1.consumers() == 1,
            r.1.state_spec() is Single,
            r.1.wf(),
    {
        let new_reader = Reader {
            pos_data: CountedIndex::from_usize(raw, wrap),
            state: ReaderState::Single,
            num_consumers: 1,
        };
        let mut new_readers = clone_ids(&self.readers);
        new_readers.push(id);
        (ReaderGroup { readers: new_readers }, new_reader)
    }

    /// Builds the membership for one unsubscribe: a new group holding the old
    /// members with `reader` filtered out. The reader itself is not retired
    /// here — its arena slot stays valid for whoever still holds the handle.
    pub fn remove_reader(&self, reader: usize) -> (g: ReaderGroup)
        ensures
            g.members() == remove_spec(self.members(), reader),
    {
        let mut kept: Vec<usize> = Vec::new();
        let mut i: usize = 0;
        while i < self.readers.len()
            invariant
                i <= self.readers.len(),
                kept@ == remove_spec(self.members().take(i as int), reader),
            decreases self.readers.len() - i,
        {
            let id = self.readers[i];
            proof {
                lemma_remove_spec_take_step(self.members(), reader, i as int);
            }
            if id != reader {
                kept.push(id);
            }
            i = i + 1;
        }
        proof {
            assert(self.members().take(self.readers.len() as int) =~= self.members());
        }
        ReaderGroup { readers: kept }
    }

    /// The aggregate backpressure over this membership snapshot: the largest
    /// distance any member's position trails `cur_writer`, which is how many
    /// slots the writer may safely advance before overwriting unread data.
    /// A lag computed as larger than [`MAX_SANE_DIFF`] means a reader raced
    /// ahead of the writer mid-computation (a transient artifact of
    /// concurrent advancement, impossible under correct quiescent use); the
    /// whole query then aborts with `None`, which the caller absorbs by
    /// retrying, rather than report a would-be-negative lag.
    pub fn get_max_diff(&self, arena: &Vec<Reader>, cur_writer: usize) -> (r: Option<u32>)
        requires
            self.ids_in_bounds(arena@),
        ensures
            r is Some <==> (forall|i: int|
                0 <= i < self.members().len() ==> lag_of(
                    arena@,
                    #[trigger] self.members()[i],
                    cur_writer as int,
                ) <= MAX_SANE_DIFF),
            r matches Some(d) ==> d as int == max_lag(
                arena@,
                self.members(),
                cur_writer as int,
            ),
    {
        let mut max_diff: usize = 0;
        let mut i: usize = 0;
        while i < self.readers.len()
            invariant
                i <= self.readers.len(),
                self.ids_in_bounds(arena@),
                max_diff as int == max_lag(arena@, self.members().take(i as int), cur_writer as int),
                max_diff <= MAX_SANE_DIFF,
                forall|j: int|
                    0 <= j < i ==> lag_of(arena@, #[trigger] self.members()[j], cur_writer as int)
                        <= MAX_SANE_DIFF,
            decreases self.readers.len() - i,
        {
            let id = self.readers[i];
            let rpos = arena[id].load_nread();
            let diff = wrap_sub(cur_writer, rpos);
            proof {
                assert(self.members().take(i as int + 1).drop_last() =~= self.members().take(
                    i as int,
                ));
            }
            if diff > (MAX_SANE_DIFF as usize) {
                return None;
            }
            max_diff = if diff > max_diff {
                diff
            } else {
                max_diff
            };
            i = i + 1;
        }
        proof {
            assert(self.members().take(self.readers.len() as int) =~= self.members());
        }
        Some(max_diff as u32)
    }
}

/// An exact copy of a membership list.
fn clone_ids(v: &Vec<usize>) -> (r: Vec<usize>)
    ensures
        r@ == v@,
{
    let mut r: Vec<usize> = Vec::new();
    let mut i: usize = 0;
    while i < v.len()
        invariant
            i <= v.len(),
            r@ == v@.take(i as int),
        decreases v.len() - i,
    {
        r.push(v[i]);
        proof {
            assert(v@.take(i as int + 1) =~= v@.take(i as int).push(v@[i as int]));
        }
        i = i + 1;
    }
    proof {
        assert(v@.take(v.len() as int) =~= v@);
    }
    r
}

/// What a freshly subscribed reader looks like: standing at position `raw`
/// over capacity `wrap`, with a single consumer handle and the fast-path tag.
pub open spec fn fresh_reader(r: Reader, raw: int, wrap: int) -> bool {
    &&& r.count() == raw
    &&& r.wrap_spec() == wrap
    &&& r.consumers() == 1
    &&& r.state_spec() is Single
}

/// The hub: holds the currently published reader-group snapshot. Subscribes
/// and unsubscribes replace the snapshot wholesale; the backpressure query
/// reads through it, so a value it returns is always computed over exactly
/// one membership snapshot, never over a partially mutated set.
pub struct ReadCursor {
    readers: ReaderGroup,
}

impl ReadCursor {
    /// The arena indices of the currently registered readers, in
    /// registration order.
    pub closed spec fn members(&self) -> Seq<usize> {
        self.readers.members()
    }

    /// Well-formedness against the arena the members live in: every member
    /// names a reader inside the arena, and no reader is registered twice.
    pub open spec fn wf(&self, arena: Seq<Reader>) -> bool {
        &&& self.members().no_duplicates()
        &&& forall|i: int|
            0 <= i < self.members().len() ==> (#[trigger] self.members()[i]) < arena.len()
    }

    /// Builds a cursor over a ring of capacity `wrap` whose group holds
    /// exactly one reader, standing at position zero, placed at the end of
    /// `arena`; returns the cursor and that reader's arena index.
    pub fn new(wrap: u32, arena: &mut Vec<Reader>) -> (r: (ReadCursor, usize))
        requires
            1 <= wrap <= MAX_SANE_DIFF,
        ensures
            r.1 == old(arena)@.len(),
            final(arena)@.len() == old(arena)@.len() + 1,
            forall|i: int| 0 <= i < old(arena)@.len() ==> final(arena)@[i] == old(arena)@[i],
            fresh_reader(final(arena)@[r.1 as int], 0, wrap as int),
            final(arena)@[r.1 as int].wf(),
            r.0.members() == seq![r.1],
            r.0.wf(final(arena)@),
    {
        let rg = ReaderGroup::new();
        let id = arena.len();
        let (real_group, reader) = rg.add_reader(0, wrap, id);
        arena.push(reader);
        proof {
            assert(real_group.members() =~= seq![id]);
        }
        (ReadCursor { readers: real_group }, id)
    }

    /// A locality hint for an imminent membership read; it has no logical
    /// effect.
    pub fn prefetch_metadata(&self) {
        let _ = self.readers.readers.len();
    }

    /// The aggregate backpressure over the currently published membership:
    /// `Some(lag)` is the largest distance any registered reader trails
    /// `cur_writer`, computed over exactly one membership snapshot; `None`
    /// means a reader appeared to race ahead of the writer mid-computation
    /// and the whole check should be retried.
    pub fn get_max_diff(&self, arena: &Vec<Reader>, cur_writer: usize) -> (r: Option<u32>)
        requires
            self.wf(arena@),
        ensures
            r is Some <==> (forall|i: int|
                0 <= i < self.members().len() ==> lag_of(
                    arena@,
                    #[trigger] self.members()[i],
                    cur_writer as int,
                ) <= MAX_SANE_DIFF),
            r matches Some(d) ==> d as int == max_lag(
                arena@,
                self.members(),
                cur_writer as int,
            ),
    {
        self.readers.get_max_diff(arena, cur_writer)
    }

    /// Subscribes a new reader duplicating the position of the registered
    /// reader `reader`: places a fresh cursor at the end of the arena,
    /// initialized at `reader`'s current position with a single consumer, and
    /// publishes a new group holding the old members plus the new index. The
    /// retired group is simply dropped. Returns the new reader's arena index.
    pub fn add_reader(&mut self, arena: &mut Vec<Reader>, reader: usize) -> (new_id: usize)
        requires
            old(self).wf(old(arena)@),
            reader < old(arena)@.len(),
            old(arena)@[reader as int].wf(),
        ensures
            new_id == old(arena)@.len(),
            final(arena)@.len() == old(arena)@.len() + 1,
            forall|i: int| 0 <= i < old(arena)@.len() ==> final(arena)@[i] == old(arena)@[i],
            fresh_reader(
                final(arena)@[new_id as int],
                old(arena)@[reader as int].count(),
                old(arena)@[reader as int].wrap_spec(),
            ),
            final(arena)@[new_id as int].wf(),
            final(self).members() == old(self).members().push(new_id),
            final(self).wf(final(arena)@),
    {
        let raw = arena[reader].load_nread();
        let wrap = arena[reader].pos_data.wrap_at();
        let new_id = arena.len();
        let (new_group, new_reader) = self.readers.add_reader(raw, wrap, new_id);
        arena.push(new_reader);
        self.readers = new_group;
        proof {
            let om = old(self).members();
            let members = om.push(new_id);
            assert forall|i: int| 0 <= i < members.len() implies (#[trigger] members[i])
                < arena@.len() by {
                if i < om.len() {
                    assert(om[i] < old(arena)@.len());
                }
            }
            assert forall|i: int, j: int|
                0 <= i < members.len() && 0 <= j < members.len() && i != j implies members[i]
                != members[j] by {
                if i < om.len() && j < om.len() {
                    assert(om[i] != om[j]);
                } else if i < om.len() {
                    assert(om[i] < old(arena)@.len());
                } else if j < om.len() {
                    assert(om[j] < old(arena)@.len());
                }
            }
        }
        new_id
    }

    /// Unsubscribes the reader named `reader`: publishes a new group holding
    /// the old members with `reader` filtered out, and drops the retired
    /// group. The reader's arena slot is not touched — its lifetime is the
    /// handle owner's responsibility.
    pub fn remove_reader(&mut self, reader: usize)
        ensures
            final(self).members() == remove_spec(old(self).members(), reader),
            forall|x: usize|
                final(self).members().contains(x) ==> old(self).members().contains(x) && x
                    != reader,
            old(self).members().no_duplicates() ==> final(self).members().no_duplicates(),
            forall|arena: Seq<Reader>| old(self).wf(arena) ==> final(self).wf(arena),
    {
        let new_group = self.readers.remove_reader(reader);
        self.readers = new_group;
        proof {
            lemma_remove_spec_props(old(self).members(), reader);
            let nm = self.members();
            assert forall|arena: Seq<Reader>| old(self).wf(arena) implies self.wf(arena) by {
                assert forall|i: int| 0 <= i < nm.len() implies (#[trigger] nm[i])
                    < arena.len() by {
                    assert(nm.contains(nm[i]));
                    assert(old(self).members().contains(nm[i]));
                    let j = choose|j: int|
                        0 <= j < old(self).members().len() && old(self).members()[j] == nm[i];
                    assert(old(self).members()[j] < arena.len());
                }
            }
        }
    }
}

/// Every member left by [`remove_spec`] was a member before and is not the
/// removed one, and removal never introduces a duplicate.
pub proof fn lemma_remove_spec_props(s: Seq<usize>, id: usize)
    ensures
        forall|x: usize| remove_spec(s, id).contains(x) ==> s.contains(x) && x != id,
        s.no_duplicates() ==> remove_spec(s, id).no_duplicates(),
    decreases s.len(),
{
    reveal(Seq::filter);
    if s.len() > 0 {
        lemma_remove_spec_props(s.drop_last(), id);
        let sub = remove_spec(s.drop_last(), id);
        assert(s.drop_last().no_duplicates() ==> sub.no_duplicates());
        assert forall|x: usize| remove_spec(s, id).contains(x) implies s.contains(x) && x
            != id by {
            if sub.contains(x) {
                assert(s.drop_last().contains(x));
                let j = choose|j: int|
                    0 <= j < s.drop_last().len() && s.drop_last()[j] == x;
                assert(s[j] == x);
            } else {
                assert(x == s.last());
                assert(s[s.len() - 1] == x);
            }
        }
        if s.no_duplicates() {
            assert forall|i: int, j: int|
                0 <= i < s.drop_last().len() && 0 <= j < s.drop_last().len() && i != j implies s
                .drop_last()[i] != s.drop_last()[j] by {
                assert(s[i] != s[j]);
            }
            if s.last() != id {
                assert(!sub.contains(s.last())) by {
                    if sub.contains(s.last()) {
                        assert(s.drop_last().contains(s.last()));
                        let j = choose|j: int|
                            0 <= j < s.drop_last().len() && s.drop_last()[j] == s.last();
                        assert(s[j] == s[s.len() - 1]);
                    }
                }
                assert(remove_spec(s, id) == sub.push(s.last()));
            }
        }
    }
}

/// The logical item numbers drained by one commit of `by` items from counter
/// position `start`: `start, start + 1, ..., start + by - 1`. Item numbers
/// are the unbounded mathematical counter; the packed machine word tracks it
/// faithfully up to the accepted very-long-horizon overflow.
pub open spec fn observed_by_commit(start: int, by: int) -> Seq<int> {
    Seq::new(by as nat, |i: int| start + i)
}

/// All item numbers drained by a run of successful commits of sizes `bys`,
/// in the order a reader starting at `start` observes them.
pub open spec fn observed_items(start: int, bys: Seq<int>) -> Seq<int>
    decreases bys.len(),
{
    if bys.len() == 0 {
        Seq::empty()
    } else {
        observed_by_commit(start, bys[0]) + observed_items(start + bys[0], bys.drop_first())
    }
}

/// The total number of items a run of commits of sizes `bys` drains.
pub open spec fn total_committed(bys: Seq<int>) -> int
    decreases bys.len(),
{
    if bys.len() == 0 {
        0
    } else {
        bys[0] + total_committed(bys.drop_first())
    }
}

/// Law (broadcast completeness): a reader that starts at position `start`
/// and commits any run of amounts observes exactly the items
/// `start, start + 1, ...`, each one exactly once and in that order —
/// however the run is split into commits. Hence every reader registered
/// before an item was sent observes it exactly once, and all such readers
/// observe the same relative order.
pub proof fn lemma_broadcast_exactly_once(start: int, bys: Seq<int>)
    requires
        forall|i: int| 0 <= i < bys.len() ==> bys[i] >= 0,
    ensures
        observed_items(start, bys).len() == total_committed(bys),
        forall|k: int|
            0 <= k < total_committed(bys) ==> #[trigger] observed_items(start, bys)[k] == start
                + k,
    decreases bys.len(),
{
    if bys.len() > 0 {
        assert(forall|i: int|
            0 <= i < bys.drop_first().len() ==> #[trigger] bys.drop_first()[i] == bys[i + 1]);
        lemma_broadcast_exactly_once(start + bys[0], bys.drop_first());
    }
}

/// Law (same total order): two readers that start at the same position and
/// drain the same number of items observe identical item sequences, however
/// differently their runs are split into commits.
pub proof fn lemma_broadcast_same_order(start: int, bys1: Seq<int>, bys2: Seq<int>)
    requires
        forall|i: int| 0 <= i < bys1.len() ==> bys1[i] >= 0,
        forall|i: int| 0 <= i < bys2.len() ==> bys2[i] >= 0,
        total_committed(bys1) == total_committed(bys2),
    ensures
        observed_items(start, bys1) == observed_items(start, bys2),
{
    lemma_broadcast_exactly_once(start, bys1);
    lemma_broadcast_exactly_once(start, bys2);
    assert(observed_items(start, bys1) =~= observed_items(start, bys2));
}

/// Law (late-subscriber isolation): a reader that starts at position `start`
/// never observes an item numbered below `start`. A reader subscribed after
/// item `k` was committed starts at a position past `k`, so it never
/// observes item `k` (see [`fresh_reader`]: a new reader is seeded at the
/// live position of the subscription it duplicates).
pub proof fn lemma_late_subscriber_isolation(start: int, bys: Seq<int>, k: int)
    requires
        forall|i: int| 0 <= i < bys.len() ==> bys[i] >= 0,
        k < start,
    ensures
        !observed_items(start, bys).contains(k),
{
    lemma_broadcast_exactly_once(start, bys);
    if observed_items(start, bys).contains(k) {
        let j = choose|j: int|
            0 <= j < observed_items(start, bys).len() && observed_items(start, bys)[j] == k;
        assert(observed_items(start, bys)[j] == start + j);
    }
}

/// Law (fast/slow path equivalence): for a reader with consumer count one,
/// committing through an attempt tagged for the direct path and through one
/// tagged for the compare-and-swap path advances the position identically and
/// neither path asks for a retry — the observed items are path-independent.
pub proof fn lemma_commit_path_independence(
    r: Reader,
    fast: ReadAttempt,
    slow: ReadAttempt,
    by: u32,
)
    requires
        r.wf(),
        r.consumers() == 1,
        fast.state_spec() is Single,
        slow.state_spec() is Multi,
        fast.loaded_count() == r.count(),
        slow.loaded_count() == r.count(),
    ensures
        attempt_commit_count(r, fast, by) == attempt_commit_count(r, slow, by),
        attempt_commit_count(r, fast, by) == wrap_add_spec(r.count(), by as int),
        !attempt_commit_retries(r, fast),
        !attempt_commit_retries(r, slow),
{
}

/// Law (demotion correctness): once a reader's consumer count is back to
/// one, a commit through an attempt still tagged `Multi` demotes the cached
/// tag to `Single`, advances the position by exactly the committed amount —
/// the same as the direct path, so nothing is lost or duplicated — and never
/// asks for a retry; attempts loaded afterwards take the direct path.
pub proof fn lemma_demotion(r: Reader, a: ReadAttempt, by: u32)
    requires
        r.wf(),
        r.consumers() == 1,
        a.state_spec() is Multi,
    ensures
        attempt_commit_state(r, a) is Single,
        attempt_commit_count(r, a, by) == wrap_add_spec(r.count(), by as int),
        !attempt_commit_retries(r, a),
{
}

/// Any reader's position-counter word lies on the counter's circle: it is
/// one machine word.
pub proof fn lemma_reader_count_in_range(r: Reader)
    ensures
        0 <= r.count() < counter_span(),
{
    crate::countedindex::lemma_count_in_range(r.pos_data);
}

/// Law (backpressure soundness): the aggregate lag is at least every
/// registered reader's lag — the query never understates how far the slowest
/// reader trails the writer — and is itself the lag of some registered
/// reader, or zero for an empty membership.
pub proof fn lemma_max_lag_sound(arena: Seq<Reader>, members: Seq<usize>, writer: int)
    requires
        0 <= writer < counter_span(),
        forall|i: int| 0 <= i < members.len() ==> (#[trigger] members[i]) < arena.len(),
    ensures
        forall|i: int|
            0 <= i < members.len() ==> lag_of(arena, #[trigger] members[i], writer) <= max_lag(
                arena,
                members,
                writer,
            ),
        members.len() == 0 ==> max_lag(arena, members, writer) == 0,
        members.len() > 0 ==> exists|i: int|
            0 <= i < members.len() && lag_of(arena, #[trigger] members[i], writer) == max_lag(
                arena,
                members,
                writer,
            ),
    decreases members.len(),
{
    if members.len() > 0 {
        assert forall|i: int| 0 <= i < members.drop_last().len() implies (
        #[trigger] members.drop_last()[i]) < arena.len() by {
            assert(members[i] < arena.len());
        }
        lemma_max_lag_sound(arena, members.drop_last(), writer);
        let m = max_lag(arena, members, writer);
        assert forall|i: int| 0 <= i < members.len() implies lag_of(
            arena,
            #[trigger] members[i],
            writer,
        ) <= m by {
            if i < members.len() - 1 {
                assert(members.drop_last()[i] == members[i]);
                assert(lag_of(arena, members.drop_last()[i], writer) <= max_lag(
                    arena,
                    members.drop_last(),
                    writer,
                ));
            }
        }
        if members.len() == 1 {
            lemma_reader_count_in_range(arena[members[0] as int]);
            assert(lag_of(arena, members[0], writer) >= 0);
            assert(lag_of(arena, members[0], writer) == m);
        } else {
            let l = lag_of(arena, members.last(), writer);
            if l >= max_lag(arena, members.drop_last(), writer) {
                assert(lag_of(arena, members[members.len() - 1], writer) == m);
            } else {
                let j = choose|j: int|
                    0 <= j < members.drop_last().len() && lag_of(
                        arena,
                        #[trigger] members.drop_last()[j],
                        writer,
                    ) == max_lag(arena, members.drop_last(), writer);
                assert(members.drop_last()[j] == members[j]);
                assert(lag_of(arena, members[j], writer) == m);
            }
        }
    }
}

/// Law (lag measures advance): a reader standing still while the writer
/// advances `d` positions past the reader's word lags by exactly `d` — the
/// backpressure query measures true distance, wraparound included.
pub proof fn lemma_lag_measures_advance(arena: Seq<Reader>, id: usize, d: int)
    requires
        id < arena.len(),
        0 <= d < counter_span(),
    ensures
        lag_of(arena, id, wrap_add_spec(arena[id as int].count(), d)) == d,
{
    lemma_reader_count_in_range(arena[id as int]);
    lemma_wrap_sub_of_add(arena[id as int].count(), d);
}

/// Law (registration accounting): a subscribe grows the membership by exactly
/// one; an unsubscribe of a registered reader shrinks it by exactly one; an
/// unsubscribe of an unregistered reader changes nothing; and a subscribe
/// followed by the matching unsubscribe restores the membership exactly. With
/// each call's effect pinned this way, any serial interleaving of subscribes
/// and unsubscribes of distinct readers leaves the membership at the net
/// count, never losing an add or a remove.
pub proof fn lemma_registration_net(g: ReaderGroup, id: usize)
    requires
        g.members().no_duplicates(),
    ensures
        g.members().push(id).len() == g.members().len() + 1,
        g.members().contains(id) ==> remove_spec(g.members(), id).len() == g.members().len()
            - 1,
        !g.members().contains(id) ==> remove_spec(g.members(), id) == g.members(),
        !g.members().contains(id) ==> remove_spec(g.members().push(id), id) == g.members(),
{
    let s = g.members();
    if s.contains(id) {
        lemma_remove_spec_present(s, id);
    } else {
        lemma_remove_spec_absent(s, id);
        reveal(Seq::filter);
        assert(s.push(id).drop_last() =~= s);
        assert(s.push(id).last() == id);
    }
}

/// Removing an identifier that is not a member leaves the membership as it
/// was.
proof fn lemma_remove_spec_absent(s: Seq<usize>, id: usize)
    requires
        !s.contains(id),
    ensures
        remove_spec(s, id) == s,
    decreases s.len(),
{
    reveal(Seq::filter);
    if s.len() > 0 {
        assert(!s.drop_last().contains(id)) by {
            if s.drop_last().contains(id) {
                let j = choose|j: int| 0 <= j < s.drop_last().len() && s.drop_last()[j] == id;
                assert(s[j] == id);
            }
        }
        lemma_remove_spec_absent(s.drop_last(), id);
        assert(s[s.len() - 1] != id);
        assert(remove_spec(s, id) =~= s);
    } else {
        assert(remove_spec(s, id) =~= s);
    }
}

/// Removing an identifier that is a member exactly once shrinks the
/// membership by exactly one.
proof fn lemma_remove_spec_present(s: Seq<usize>, id: usize)
    requires
        s.no_duplicates(),
        s.contains(id),
    ensures
        remove_spec(s, id).len() == s.len() - 1,
    decreases s.len(),
{
    reveal(Seq::filter);
    assert forall|i: int, j: int|
        0 <= i < s.drop_last().len() && 0 <= j < s.drop_last().len() && i != j implies s
        .drop_last()[i] != s.drop_last()[j] by {
        assert(s[i] != s[j]);
    }
    if s.last() == id {
        assert(!s.drop_last().contains(id)) by {
            if s.drop_last().contains(id) {
                let j = choose|j: int| 0 <= j < s.drop_last().len() && s.drop_last()[j] == id;
                assert(s[j] == s[s.len() - 1]);
            }
        }
        lemma_remove_spec_absent(s.drop_last(), id);
    } else {
        assert(s.drop_last().contains(id)) by {
            let j = choose|j: int| 0 <= j < s.len() && s[j] == id;
            assert(s.drop_last()[j] == id);
        }
        lemma_remove_spec_present(s.drop_last(), id);
    }
}

/// Filtering one more element: taking `i + 1` elements and removing `id`
/// keeps the result of the first `i` elements, extended by the new element
/// exactly when it is not `id`.
proof fn lemma_remove_spec_take_step(s: Seq<usize>, id: usize, i: int)
    requires
        0 <= i < s.len(),
    ensures
        s[i] != id ==> remove_spec(s.take(i + 1), id) == remove_spec(s.take(i), id).push(s[i]),
        s[i] == id ==> remove_spec(s.take(i + 1), id) == remove_spec(s.take(i), id),
{
    reveal(Seq::filter);
    assert(s.take(i + 1).drop_last() =~= s.take(i));
    assert(s.take(i + 1).last() == s[i]);
}

} // verus!
