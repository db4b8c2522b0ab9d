//! Position counter for the broadcast ring: a monotonically advancing machine
//! word read as a packed `(epoch, index)` pair over the ring's fixed capacity
//! (`wrap`). The index is the word modulo `wrap` and the epoch is the word
//! divided by `wrap`, so the epoch increases by exactly one each time the
//! index wraps past `wrap - 1`. Two counters with an equal packed word refer
//! to the same logical position until the word itself overflows (a
//! very-long-horizon caveat that is accepted, not defended against).

use vstd::prelude::*;

verus! {

/// A lag computed as larger than this is treated as "the reader raced ahead
/// of the writer mid-computation" and the whole backpressure query is
/// retried. The ring capacity is bounded by the same constant so that a true
/// lag can never legitimately exceed it.
pub const MAX_SANE_DIFF: u32 = 0x4000_0000;

/// One more than the largest counter word: the modulus of the counter's
/// wrapping arithmetic.
pub open spec fn counter_span() -> int {
    usize::MAX as int + 1
}

/// The counter word reached by advancing `a` by `b` with wraparound.
pub open spec fn wrap_add_spec(a: int, b: int) -> int {
    if a + b < counter_span() {
        a + b
    } else {
        a + b - counter_span()
    }
}

/// The distance from `b` up to `a` with wraparound: how far `a` has advanced
/// past `b` on the counter's circle.
pub open spec fn wrap_sub_spec(a: int, b: int) -> int {
    if a >= b {
        a - b
    } else {
        a - b + counter_span()
    }
}

/// Advancing a counter by `b` and then measuring the distance from the old
/// value gives back exactly `b`: the lag seen by a reader that stands still
/// while the writer commits `b` items is `b`.
pub proof fn lemma_wrap_sub_of_add(a: int, b: int)
    requires
        0 <= a < counter_span(),
        0 <= b < counter_span(),
    ensures
        wrap_sub_spec(wrap_add_spec(a, b), a) == b,
{
}

/// Law (epoch packing): a counter word always reads as an index strictly
/// below the capacity together with an epoch, and one more position first
/// walks the index up and then, exactly when the index stands at the last
/// slot, returns it to zero and raises the epoch by exactly one.
pub proof fn lemma_epoch_packing(count: int, wrap: int)
    requires
        0 <= count,
        1 <= wrap,
    ensures
        0 <= count % wrap < wrap,
        count == wrap * (count / wrap) + count % wrap,
        count % wrap == wrap - 1 ==> (count + 1) / wrap == count / wrap + 1 && (count + 1) % wrap
            == 0,
        count % wrap < wrap - 1 ==> (count + 1) / wrap == count / wrap && (count + 1) % wrap
            == count % wrap + 1,
{
    vstd::arithmetic::div_mod::lemma_mod_bound(count, wrap);
    vstd::arithmetic::div_mod::lemma_fundamental_div_mod(count, wrap);
    if count % wrap == wrap - 1 {
        assert(count + 1 == (count / wrap + 1) * wrap) by (nonlinear_arith)
            requires
                count == wrap * (count / wrap) + count % wrap,
                count % wrap == wrap - 1,
        ;
        vstd::arithmetic::div_mod::lemma_fundamental_div_mod_converse(
            count + 1,
            wrap,
            count / wrap + 1,
            0,
        );
    } else {
        assert(count + 1 == (count / wrap) * wrap + (count % wrap + 1)) by (nonlinear_arith)
            requires
                count == wrap * (count / wrap) + count % wrap,
        ;
        vstd::arithmetic::div_mod::lemma_fundamental_div_mod_converse(
            count + 1,
            wrap,
            count / wrap,
            count % wrap + 1,
        );
    }
}

/// Any counter's word lies on the counter's circle: it is one machine word.
pub proof fn lemma_count_in_range(c: CountedIndex)
    ensures
        0 <= c.count() < counter_span(),
{
}

pub struct CountedIndex {
    raw: usize,
    wrap: u32,
}

/// A read-only snapshot of a [`CountedIndex`], usable for a subsequent
/// compare-and-swap style commit without re-reading the live counter.
pub struct Transaction {
    loaded: usize,
    wrap: u32,
}

impl Transaction {
    /// The counter word this snapshot observed.
    pub closed spec fn loaded_count(&self) -> int {
        self.loaded as int
    }

    /// The ring capacity the snapshot was taken against.
    pub closed spec fn wrap_spec(&self) -> int {
        self.wrap as int
    }

    pub open spec fn wf(&self) -> bool {
        1 <= self.wrap_spec() <= MAX_SANE_DIFF
    }

    /// The `(index, count)` pair observed by this snapshot: the slot index in
    /// the ring and the full counter word.
    pub fn get(&self) -> (r: (isize, usize))
        requires
            self.wf(),
        ensures
            r.0 as int == self.loaded_count() % self.wrap_spec(),
            r.1 as int == self.loaded_count(),
    {
        let index: usize = self.loaded % (self.wrap as usize);
        (index as isize, self.loaded)
    }
}

impl CountedIndex {
    /// The full counter word: the number of positions this counter has
    /// advanced through (modulo the machine-word horizon).
    pub closed spec fn count(&self) -> int {
        self.raw as int
    }

    /// The configured ring capacity.
    pub closed spec fn wrap_spec(&self) -> int {
        self.wrap as int
    }

    /// The slot index currently addressed: the counter word modulo the
    /// capacity, always below `wrap`.
    pub open spec fn index_spec(&self) -> int {
        self.count() % self.wrap_spec()
    }

    /// The epoch (lap count): how many times the ring has fully wrapped.
    pub open spec fn epoch_spec(&self) -> int {
        self.count() / self.wrap_spec()
    }

    pub open spec fn wf(&self) -> bool {
        1 <= self.wrap_spec() <= MAX_SANE_DIFF
    }

    /// Builds a counter standing at the packed word `raw` over capacity
    /// `wrap`.
    pub fn from_usize(raw: usize, wrap: u32) -> (r: CountedIndex)
        requires
            1 <= wrap <= MAX_SANE_DIFF,
        ensures
            r.count() == raw,
            r.wrap_spec() == wrap,
            r.wf(),
    {
        CountedIndex { raw, wrap }
    }

    /// Takes a read-only snapshot of the counter for a later conditional
    /// commit.
    pub fn load_transaction(&self) -> (t: Transaction)
        ensures
            t.loaded_count() == self.count(),
            t.wrap_spec() == self.wrap_spec(),
    {
        Transaction { loaded: self.raw, wrap: self.wrap }
    }

    /// Plain read of the counter word, for diagnostics and backpressure math.
    pub fn load_count(&self) -> (r: usize)
        ensures
            r as int == self.count(),
    {
        self.raw
    }

    /// Plain read of the packed representation; equal packed words denote the
    /// same logical position.
    pub fn load_raw(&self) -> (r: usize)
        ensures
            r as int == self.count(),
    {
        self.raw
    }

    /// The configured ring capacity.
    pub fn wrap_at(&self) -> (r: u32)
        ensures
            r as int == self.wrap_spec(),
    {
        self.wrap
    }

    /// Unconditionally advances the counter by `by` positions. This is the
    /// fast path, valid only while a single consumer handle owns the cursor.
    pub fn commit_direct(&mut self, by: u32)
        ensures
            final(self).count() == wrap_add_spec(old(self).count(), by as int),
            final(self).wrap_spec() == old(self).wrap_spec(),
    {
        self.raw = wrap_add(self.raw, by as usize);
    }

    /// Conditionally advances the counter by `by`: succeeds exactly when the
    /// counter still holds the value that the snapshot `t` observed. On
    /// failure the counter is unchanged and a refreshed snapshot is returned
    /// so the caller can retry without re-reading from scratch; failure
    /// signals benign contention, never an error.
    pub fn commit(&mut self, t: &Transaction, by: u32) -> (r: Option<Transaction>)
        ensures
            final(self).wrap_spec() == old(self).wrap_spec(),
            t.loaded_count() == old(self).count() ==> {
                &&& final(self).count() == wrap_add_spec(old(self).count(), by as int)
                &&& r is None
            },
            t.loaded_count() != old(self).count() ==> {
                &&& final(self).count() == old(self).count()
                &&& r matches Some(fresh) && fresh.loaded_count() == old(self).count()
                    && fresh.wrap_spec() == old(self).wrap_spec()
            },
    {
        if self.raw == t.loaded {
            self.raw = wrap_add(self.raw, by as usize);
            None
        } else {
            Some(Transaction { loaded: self.raw, wrap: self.wrap })
        }
    }
}

/// Wrapping subtraction on the counter word: the distance from `b` up to `a`
/// on the counter's circle.
pub(crate) fn wrap_sub(a: usize, b: usize) -> (r: usize)
    ensures
        r as int == wrap_sub_spec(a as int, b as int),
{
    if a >= b {
        a - b
    } else {
        a + (usize::MAX - b) + 1
    }
}

/// Wrapping addition on the counter word.
fn wrap_add(a: usize, b: usize) -> (r: usize)
    ensures
        r as int == wrap_add_spec(a as int, b as int),
{
    if b <= usize::MAX - a {
        a + b
    } else {
        b - (usize::MAX - a) - 1
    }
}

} // verus!
