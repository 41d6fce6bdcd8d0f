//! The last eight samples, for the true-peak interpolator.

use vstd::prelude::*;
use super::{filled, filled_vec};

verus! {

/// Masking a history index is reducing it modulo eight.
proof fn lemma_history_mask(x: usize)
    ensures
        x & 7 == x % 8,
{
    assert(x & 7 == x % 8) by (bit_vector);
}

/// The taps, oldest first, after `samples` are pushed, in order, onto `taps`.
pub open spec fn tapped<T>(taps: Seq<T>, samples: Seq<T>) -> Seq<T>
    decreases samples.len(),
{
    if samples.len() == 0 {
        taps
    } else {
        tapped(taps, samples.drop_last()).drop_first().push(samples.last())
    }
}

/// After eight or more pushes the taps are the last eight samples, oldest
/// first.
pub proof fn lemma_history_is_the_last_eight<T>(taps: Seq<T>, samples: Seq<T>)
    requires
        taps.len() == 8,
        samples.len() >= 8,
    ensures
        tapped(taps, samples) == samples.subrange(samples.len() - 8, samples.len() as int),
{
    lemma_history_after_pushes(taps, samples);
}

/// After any number of pushes, the newest taps are the samples pushed, and
/// the taps older than every push still hold what they held before: tap `k`
/// is `samples[len - 8 + k]` when that sample exists, else `taps[k + len]`.
/// From a fresh or cleared history, that is the rest value.
pub proof fn lemma_history_after_pushes<T>(taps: Seq<T>, samples: Seq<T>)
    requires
        taps.len() == 8,
    ensures
        tapped(taps, samples).len() == 8,
        forall|k: int|
            0 <= k < 8 && 8 - k <= samples.len() ==> #[trigger] tapped(taps, samples)[k]
                == samples[samples.len() - 8 + k],
        forall|k: int|
            0 <= k < 8 && k + samples.len() < 8 ==> #[trigger] tapped(taps, samples)[k] == taps[k
                + samples.len()],
        samples.len() >= 8 ==> tapped(taps, samples) =~= samples.subrange(
            samples.len() - 8,
            samples.len() as int,
        ),
    decreases samples.len(),
{
    if samples.len() > 0 {
        lemma_history_after_pushes(taps, samples.drop_last());
        let before = tapped(taps, samples.drop_last());
        assert forall|k: int| 0 <= k < 8 && 8 - k <= samples.len() implies #[trigger] tapped(
            taps,
            samples,
        )[k] == samples[samples.len() - 8 + k] by {
            if k < 7 {
                assert(tapped(taps, samples)[k] == before[k + 1]);
                assert(samples.drop_last()[samples.len() - 1 - 8 + k + 1] == samples[samples.len()
                    - 8 + k]);
            }
        }
        assert forall|k: int| 0 <= k < 8 && k + samples.len() < 8 implies #[trigger] tapped(
            taps,
            samples,
        )[k] == taps[k + samples.len()] by {
            assert(tapped(taps, samples)[k] == before[k + 1]);
        }
    }
}

/// A history pushed with `samples` from rest reads the rest value at every
/// tap older than the first push.
pub proof fn lemma_history_from_rest<T>(rest: T, samples: Seq<T>, k: int)
    requires
        0 <= k < 8,
        k + samples.len() < 8,
    ensures
        tapped(filled(8, rest), samples)[k] == rest,
{
    lemma_history_after_pushes(filled(8, rest), samples);
}

/// The last eight samples, oldest first.
pub struct History<T: Copy> {
    taps: Vec<T>,
    write: usize,
    rest: T,
}

impl<T: Copy> View for History<T> {
    /// The last eight samples, oldest first.
    type V = Seq<T>;

    closed spec fn view(&self) -> Seq<T> {
        Seq::new(8, |k: int| self.taps@[(self.write + k) % 8])
    }
}

impl<T: Copy> History<T> {
    /// The ring's representation invariant.
    pub closed spec fn wf(&self) -> bool {
        &&& self.taps@.len() == 8
        &&& self.write < 8
    }

    /// The value the taps rest at: what they hold after a clear.
    pub closed spec fn rest_value(&self) -> T {
        self.rest
    }

    /// The history holds eight taps.
    pub proof fn lemma_view_length(&self)
        ensures
            self@.len() == 8,
    {
    }

    /// Eight taps resting at `rest`.
    pub fn new(rest: T) -> (h: History<T>)
        ensures
            h.wf(),
            h@ == filled(8, rest),
            h.rest_value() == rest,
    {
        let h = History { taps: filled_vec(8, rest), write: 0, rest };
        assert(h@ =~= filled(8, rest));
        h
    }

    /// Pushes a sample; the oldest of the eight falls out.
    pub fn push(&mut self, sample: T)
        requires
            old(self).wf(),
        ensures
            final(self).wf(),
            final(self)@ == old(self)@.drop_first().push(sample),
            final(self)@ == tapped(old(self)@, seq![sample]),
            final(self)@.len() == 8,
            final(self).rest_value() == old(self).rest_value(),
    {
        let write = self.write;
        self.taps.set(write, sample);
        self.write = (write + 1) & 7;
        proof {
            lemma_history_mask((write + 1) as usize);
            assert forall|k: int| 0 <= k < 8 implies #[trigger] self@[k] == old(self)@.drop_first().push(
                sample,
            )[k] by {
                if k < 7 {
                    assert((write + 1 + k) % 8 == (write + (k + 1)) % 8);
                } else {
                    assert((write + 1 + k) % 8 == write);
                }
            }
            assert(self@ =~= old(self)@.drop_first().push(sample));
            let one = seq![sample];
            assert(one.last() == sample);
            assert(one.drop_last() =~= Seq::<T>::empty());
            assert(tapped(old(self)@, one.drop_last()) == old(self)@);
        }
    }

    /// Tap `k`, with `0` the oldest of the eight and `7` the newest; larger
    /// `k` count round the eight again.
    pub fn at(&self, k: usize) -> (sample: T)
        requires
            self.wf(),
            k <= usize::MAX - 8,
        ensures
            sample == self@[k as int % 8],
    {
        proof {
            lemma_history_mask((self.write + k) as usize);
            assert((self.write + k) % 8 == (self.write + k % 8) % 8);
        }
        self.taps[(self.write + k) & 7]
    }

    /// Puts every tap back at rest.
    pub fn clear(&mut self)
        requires
            old(self).wf(),
        ensures
            final(self).wf(),
            final(self)@ == filled(8, old(self).rest_value()),
            final(self).rest_value() == old(self).rest_value(),
    {
        let rest = self.rest;
        let mut i: usize = 0;
        while i < 8
            invariant
                self.taps@.len() == 8,
                self.rest == rest,
                self.rest == old(self).rest,
                i <= 8,
                forall|k: int| 0 <= k < i ==> self.taps@[k] == rest,
            decreases 8 - i,
        {
            self.taps.set(i, rest);
            i = i + 1;
        }
        self.write = 0;
        assert(self@ =~= filled(8, rest));
    }
}

} // verus!
