//! The ring under the box ramp.

use vstd::prelude::*;
use super::{filled, filled_vec, WINDOW_CAPACITY};

verus! {

/// Moving the write position of a ring of `len` on by one shifts every age
/// by one.
proof fn lemma_ring_step(write: int, next: int, k: int, len: int)
    requires
        0 <= write < len,
        next == if write + 1 == len {
            0
        } else {
            write + 1
        },
        0 <= k < len,
    ensures
        write % len == write,
        k < len - 1 ==> (next + k) % len == (write + (k + 1)) % len,
        k == len - 1 ==> (next + k) % len == write,
{
    vstd::arithmetic::div_mod::lemma_small_mod(write as nat, len as nat);
    if write + 1 == len {
        vstd::arithmetic::div_mod::lemma_small_mod(k as nat, len as nat);
        vstd::arithmetic::div_mod::lemma_mod_add_multiples_vanish(k, len);
    } else {
        if write + 1 + k < len {
            vstd::arithmetic::div_mod::lemma_small_mod((write + 1 + k) as nat, len as nat);
        } else {
            vstd::arithmetic::div_mod::lemma_mod_add_multiples_vanish(write + 1 + k - len, len);
            vstd::arithmetic::div_mod::lemma_small_mod((write + 1 + k - len) as nat, len as nat);
        }
    }
}

/// The values the box ramp averages after `values` are pushed, in order,
/// onto `ring`.
pub open spec fn averaged<T>(ring: Seq<T>, values: Seq<T>) -> Seq<T>
    decreases values.len(),
{
    if values.len() == 0 {
        ring
    } else {
        averaged(ring, values.drop_last()).drop_first().push(values.last())
    }
}

/// Once at least `length` values have been pushed, the ramp averages exactly
/// the last `length` of them.
pub proof fn lemma_ramp_averages_the_last_values<T>(ring: Seq<T>, values: Seq<T>)
    requires
        ring.len() >= 1,
        values.len() >= ring.len(),
    ensures
        averaged(ring, values) =~= values.subrange(
            values.len() - ring.len(),
            values.len() as int,
        ),
    decreases values.len(),
{
    lemma_averaged_suffix(ring, values);
}

/// The newest values averaged are the newest pushed.
proof fn lemma_averaged_suffix<T>(ring: Seq<T>, values: Seq<T>)
    requires
        ring.len() >= 1,
    ensures
        averaged(ring, values).len() == ring.len(),
        forall|k: int|
            0 <= k < ring.len() && ring.len() - k <= values.len() ==> #[trigger] averaged(
                ring,
                values,
            )[k] == values[values.len() - ring.len() + k],
        values.len() >= ring.len() ==> averaged(ring, values) =~= values.subrange(
            values.len() - ring.len(),
            values.len() as int,
        ),
    decreases values.len(),
{
    let n = ring.len() as int;
    if values.len() > 0 {
        lemma_averaged_suffix(ring, values.drop_last());
        let before = averaged(ring, values.drop_last());
        assert forall|k: int| 0 <= k < n && n - k <= values.len() implies #[trigger] averaged(
            ring,
            values,
        )[k] == values[values.len() - n + k] by {
            if k < n - 1 {
                assert(averaged(ring, values)[k] == before[k + 1]);
                assert(values.drop_last()[values.len() - 1 - n + k + 1] == values[values.len() - n
                    + k]);
            }
        }
    }
}

/// How many pushes the box ramp's running sum is trusted for before it is
/// rebuilt from the ring.
pub const REBUILD_INTERVAL: u32 = 4096;

/// The ring under the box ramp: the last `length` values pushed, whose mean
/// is the ramp's output. The running sum itself is kept by the caller, which
/// is told what left the ring and when to rebuild the sum from it.
pub struct BoxAverage<T: Copy> {
    ring: Vec<T>,
    write: usize,
    length: usize,
    since_rebuild: u32,
}

impl<T: Copy> View for BoxAverage<T> {
    /// The values being averaged, oldest first.
    type V = Seq<T>;

    closed spec fn view(&self) -> Seq<T> {
        Seq::new(self.length as nat, |k: int| self.ring@[(self.write + k) % (self.length as int)])
    }
}

impl<T: Copy> BoxAverage<T> {
    /// The ring's representation invariant.
    pub closed spec fn wf(&self) -> bool {
        &&& self.ring@.len() == WINDOW_CAPACITY
        &&& 1 <= self.length <= WINDOW_CAPACITY
        &&& self.write < self.length
        &&& self.since_rebuild < REBUILD_INTERVAL
    }

    /// The ring in storage order: the order the running sum is rebuilt in.
    pub closed spec fn slots(&self) -> Seq<T> {
        self.ring@.take(self.length as int)
    }

    /// Pushes since the running sum was last rebuilt or reset.
    pub closed spec fn since_rebuild(&self) -> int {
        self.since_rebuild as int
    }

    /// The storage slot the next value is written to.
    pub closed spec fn write_position(&self) -> int {
        self.write as int
    }

    /// Where storage slot `k` stands among the averaged values, oldest first:
    /// the slots are the averaged values rotated by the write position.
    pub open spec fn age_of_slot(&self, k: int) -> int {
        if k >= self.write_position() {
            k - self.write_position()
        } else {
            k + self@.len() - self.write_position()
        }
    }

    /// The storage slots hold exactly the values being averaged, each once:
    /// slot `k` holds the averaged value at [`Self::age_of_slot`], and the
    /// slots and the averaged values are the same multiset, so a sum rebuilt
    /// over the slots is the sum of the averaged values.
    pub proof fn lemma_slots_are_the_averaged_values(&self)
        requires
            self.wf(),
        ensures
            self.slots().len() == self@.len(),
            0 <= self.write_position() < self@.len(),
            forall|k: int|
                0 <= k < self@.len() ==> 0 <= self.age_of_slot(k) < self@.len() && #[trigger] self.slots()[k]
                    == self@[self.age_of_slot(k)],
            self.slots().to_multiset() == self@.to_multiset(),
    {
        let len = self.length as int;
        let w = self.write as int;
        let slots = self.slots();
        assert forall|j: int| 0 <= j < len implies #[trigger] self@[j] == (slots.skip(w) + slots.take(
            w,
        ))[j] by {
            if w + j < len {
                vstd::arithmetic::div_mod::lemma_small_mod((w + j) as nat, len as nat);
            } else {
                vstd::arithmetic::div_mod::lemma_mod_add_multiples_vanish(w + j - len, len);
                vstd::arithmetic::div_mod::lemma_small_mod((w + j - len) as nat, len as nat);
            }
        }
        assert(self@ =~= slots.skip(w) + slots.take(w));
        vstd::seq_lib::lemma_seq_union_to_multiset_commutative(slots.skip(w), slots.take(w));
        assert(slots.take(w) + slots.skip(w) =~= slots);
        assert forall|k: int| 0 <= k < len implies 0 <= self.age_of_slot(k) < len && #[trigger] slots[k]
            == self@[self.age_of_slot(k)] by {
            assert(self@[self.age_of_slot(k)] == (slots.skip(w) + slots.take(w))[self.age_of_slot(k)]);
        }
    }

    /// A ring of one value, `value`.
    pub fn new(value: T) -> (b: BoxAverage<T>)
        ensures
            b.wf(),
            b@ == filled(1, value),
            b.since_rebuild() == 0,
    {
        let b = BoxAverage { ring: filled_vec(WINDOW_CAPACITY, value), write: 0, length: 1, since_rebuild: 0 };
        assert(b@ =~= filled(1, value));
        b
    }

    /// Sets the length, clamped to between one and the capacity, and fills
    /// the ring with `value`, so the average starts at rest rather than
    /// climbing out of whatever was there.
    pub fn reset(&mut self, length: usize, value: T)
        requires
            old(self).wf(),
        ensures
            final(self).wf(),
            final(self)@ == filled(
                (if length < 1 {
                    1
                } else if length > WINDOW_CAPACITY {
                    WINDOW_CAPACITY
                } else {
                    length
                }) as nat,
                value,
            ),
            final(self).since_rebuild() == 0,
    {
        let length = if length < 1 {
            1
        } else if length > WINDOW_CAPACITY {
            WINDOW_CAPACITY
        } else {
            length
        };
        self.length = length;
        let mut i: usize = 0;
        while i < length
            invariant
                self.ring@.len() == WINDOW_CAPACITY,
                self.length == length,
                1 <= length <= WINDOW_CAPACITY,
                i <= length,
                forall|k: int| 0 <= k < i ==> self.ring@[k] == value,
            decreases length - i,
        {
            self.ring.set(i, value);
            i = i + 1;
        }
        self.write = 0;
        self.since_rebuild = 0;
        assert(self@ =~= filled(length as nat, value));
    }

    /// How many values are being averaged.
    pub fn length(&self) -> (n: usize)
        requires
            self.wf(),
        ensures
            n == self@.len(),
    {
        self.length
    }

    /// The value in storage slot `k`.
    pub fn slot(&self, k: usize) -> (value: T)
        requires
            self.wf(),
            k < self@.len(),
        ensures
            value == self.slots()[k as int],
            value == self@[self.age_of_slot(k as int)],
    {
        proof {
            self.lemma_slots_are_the_averaged_values();
        }
        self.ring[k]
    }

    /// Pushes `value`; answers the value that left to make room, and whether
    /// the running sum is due to be rebuilt from the ring.
    pub fn push(&mut self, value: T) -> (r: (T, bool))
        requires
            old(self).wf(),
        ensures
            final(self).wf(),
            r.0 == old(self)@[0],
            final(self)@ == old(self)@.drop_first().push(value),
            r.1 == (old(self).since_rebuild() + 1 >= REBUILD_INTERVAL),
            final(self).since_rebuild() == if r.1 {
                0
            } else {
                old(self).since_rebuild() + 1
            },
    {
        let write = self.write;
        let leaving = self.ring[write];
        self.ring.set(write, value);
        self.write = write + 1;
        if self.write >= self.length {
            self.write = 0;
        }
        let ghost length = self.length as int;
        proof {
            lemma_ring_step(write as int, self.write as int, 0, length);
            assert(old(self)@[0] == old(self).ring@[write as int]);
            assert forall|k: int| 0 <= k < length implies #[trigger] self@[k] == old(
                self,
            )@.drop_first().push(value)[k] by {
                lemma_ring_step(write as int, self.write as int, k, length);
                if k < length - 1 {
                    vstd::arithmetic::div_mod::lemma_mod_bound(write + (k + 1), length);
                    assert((write + (k + 1)) % length != write as int) by {
                        if write + k + 1 < length {
                            vstd::arithmetic::div_mod::lemma_small_mod((write + k + 1) as nat, length as nat);
                        } else {
                            vstd::arithmetic::div_mod::lemma_mod_add_multiples_vanish(write + k + 1 - length, length);
                            vstd::arithmetic::div_mod::lemma_small_mod((write + k + 1 - length) as nat, length as nat);
                        }
                    }
                }
            }
            assert(self@ =~= old(self)@.drop_first().push(value));
        }
        self.since_rebuild = self.since_rebuild + 1;
        if self.since_rebuild >= REBUILD_INTERVAL {
            self.since_rebuild = 0;
            (leaving, true)
        } else {
            (leaving, false)
        }
    }
}

} // verus!
