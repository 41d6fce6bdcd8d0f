//! The delay ring that holds the audio back.

use vstd::prelude::*;
use super::{filled, filled_vec, DELAY_SAMPLES};

verus! {

/// Masking a delay index is reducing it modulo the ring's length.
proof fn lemma_delay_mask(x: usize)
    ensures
        x & 2047 == x % 2048,
{
    assert(x & 2047 == x % 2048) by (bit_vector);
}

/// The delay ring's contents, by age, after `samples` are pushed, in order,
/// onto `contents`.
pub open spec fn delayed<T>(contents: Seq<T>, samples: Seq<T>) -> Seq<T>
    decreases samples.len(),
{
    if samples.len() == 0 {
        contents
    } else {
        seq![samples.last()] + delayed(contents, samples.drop_last()).take(DELAY_SAMPLES - 1)
    }
}

/// The delay reads what was pushed that many samples ago, for every age the
/// ring holds: after pushing `samples`, age `a` holds `samples[len - 1 - a]`.
pub proof fn lemma_delay_reads_what_was_pushed<T>(contents: Seq<T>, samples: Seq<T>, age: int)
    requires
        contents.len() == DELAY_SAMPLES,
        0 <= age < DELAY_SAMPLES,
        age < samples.len(),
    ensures
        delayed(contents, samples).len() == DELAY_SAMPLES,
        delayed(contents, samples)[age] == samples[samples.len() - 1 - age],
    decreases samples.len(),
{
    lemma_delayed_length(contents, samples);
    if age > 0 {
        lemma_delay_reads_what_was_pushed(contents, samples.drop_last(), age - 1);
    }
}

/// Ages older than every push still hold what the ring held before them:
/// after pushing `samples`, age `a >= len` holds `contents[a - len]`; from a
/// fresh or cleared ring, that is the rest value.
pub proof fn lemma_delay_keeps_what_came_before<T>(contents: Seq<T>, samples: Seq<T>, age: int)
    requires
        contents.len() == DELAY_SAMPLES,
        samples.len() <= age < DELAY_SAMPLES,
    ensures
        delayed(contents, samples)[age] == contents[age - samples.len()],
    decreases samples.len(),
{
    lemma_delayed_length(contents, samples);
    if samples.len() > 0 {
        let before = delayed(contents, samples.drop_last());
        lemma_delayed_length(contents, samples.drop_last());
        lemma_delay_keeps_what_came_before(contents, samples.drop_last(), age - 1);
        assert(delayed(contents, samples)[age] == before[age - 1]);
    }
}

/// The delay ring keeps its length.
pub proof fn lemma_delayed_length<T>(contents: Seq<T>, samples: Seq<T>)
    requires
        contents.len() == DELAY_SAMPLES,
    ensures
        delayed(contents, samples).len() == DELAY_SAMPLES,
    decreases samples.len(),
{
    if samples.len() > 0 {
        lemma_delayed_length(contents, samples.drop_last());
    }
}

/// Holds the audio back: a ring of the last [`DELAY_SAMPLES`] samples, read
/// by age.
pub struct Delay<T: Copy> {
    buffer: Vec<T>,
    write: usize,
    rest: T,
}

impl<T: Copy> View for Delay<T> {
    /// The samples by age: `0` is the one just pushed. Before enough pushes,
    /// the older ages hold the value the ring rests at.
    type V = Seq<T>;

    closed spec fn view(&self) -> Seq<T> {
        Seq::new(
            DELAY_SAMPLES as nat,
            |age: int| self.buffer@[(self.write + (DELAY_SAMPLES - 1) - age) % (DELAY_SAMPLES as int)],
        )
    }
}

impl<T: Copy> Delay<T> {
    /// The ring's representation invariant.
    pub closed spec fn wf(&self) -> bool {
        &&& self.buffer@.len() == DELAY_SAMPLES
        &&& self.write < DELAY_SAMPLES
    }

    /// The value the ring rests at: what it holds after a clear.
    pub closed spec fn rest_value(&self) -> T {
        self.rest
    }

    /// The ring holds one sample for every age below [`DELAY_SAMPLES`].
    pub proof fn lemma_view_length(&self)
        ensures
            self@.len() == DELAY_SAMPLES,
    {
    }

    /// A ring resting at `rest`.
    pub fn new(rest: T) -> (d: Delay<T>)
        ensures
            d.wf(),
            d@ == filled(DELAY_SAMPLES as nat, rest),
            d.rest_value() == rest,
    {
        let d = Delay { buffer: filled_vec(DELAY_SAMPLES, rest), write: 0, rest };
        assert(d@ =~= filled(DELAY_SAMPLES as nat, rest));
        d
    }

    /// Pushes a sample; the oldest one falls out.
    pub fn push(&mut self, sample: T)
        requires
            old(self).wf(),
        ensures
            final(self).wf(),
            final(self)@ == seq![sample] + old(self)@.take(DELAY_SAMPLES - 1),
            final(self)@ == delayed(old(self)@, seq![sample]),
            final(self)@.len() == DELAY_SAMPLES,
            final(self)@[0] == sample,
            forall|age: int|
                1 <= age < DELAY_SAMPLES ==> #[trigger] final(self)@[age] == old(self)@[age - 1],
            final(self).rest_value() == old(self).rest_value(),
    {
        let write = self.write;
        self.buffer.set(write, sample);
        self.write = (write + 1) & (DELAY_SAMPLES - 1);
        proof {
            lemma_delay_mask((write + 1) as usize);
            assert forall|age: int| 0 <= age < DELAY_SAMPLES implies #[trigger] self@[age] == (seq![
                sample,
            ] + old(self)@.take(DELAY_SAMPLES - 1))[age] by {
                if age > 0 {
                    assert((write + 1 + (DELAY_SAMPLES - 1) - age) % (DELAY_SAMPLES as int) == (
                    write + (DELAY_SAMPLES - 1) - (age - 1)) % (DELAY_SAMPLES as int));
                }
            }
            assert(self@ =~= seq![sample] + old(self)@.take(DELAY_SAMPLES - 1));
            let one = seq![sample];
            assert(one.last() == sample);
            assert(one.drop_last() =~= Seq::<T>::empty());
            assert(delayed(old(self)@, one.drop_last()) == old(self)@);
        }
    }

    /// The sample pushed `age` pushes ago; `0` is the one just pushed.
    pub fn read(&self, age: usize) -> (sample: T)
        requires
            self.wf(),
            age < DELAY_SAMPLES,
        ensures
            sample == self@[age as int],
    {
        proof {
            lemma_delay_mask((self.write + DELAY_SAMPLES - 1 - age) as usize);
        }
        self.buffer[(self.write + DELAY_SAMPLES - 1 - age) & (DELAY_SAMPLES - 1)]
    }

    /// Puts every sample back at rest.
    pub fn clear(&mut self)
        requires
            old(self).wf(),
        ensures
            final(self).wf(),
            final(self)@ == filled(DELAY_SAMPLES as nat, old(self).rest_value()),
            final(self).rest_value() == old(self).rest_value(),
    {
        let rest = self.rest;
        let mut i: usize = 0;
        while i < DELAY_SAMPLES
            invariant
                self.buffer@.len() == DELAY_SAMPLES,
                self.rest == rest,
                self.rest == old(self).rest,
                i <= DELAY_SAMPLES,
                forall|k: int| 0 <= k < i ==> self.buffer@[k] == rest,
            decreases DELAY_SAMPLES - i,
        {
            self.buffer.set(i, rest);
            i = i + 1;
        }
        self.write = 0;
        assert(self@ =~= filled(DELAY_SAMPLES as nat, rest));
    }
}

} // verus!
