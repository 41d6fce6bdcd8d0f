//! The parts a lookahead limiter is made of, each sized once, at creation.
//!
//! * [`Delay`] holds the audio back while the gain is worked out ahead of it;
//! * [`History`] keeps the last eight samples for the true-peak interpolator;
//! * [`MinWindow`] answers "what is the smallest gain any sample in the next
//!   N will need" in amortised constant time per sample, with a monotonic
//!   queue;
//! * [`BoxAverage`] keeps the ring the box ramp averages over.
//!
//! Every buffer is sized for the longest lookahead at the highest sample rate
//! the plugin accepts, so nothing grows after creation.

use vstd::prelude::*;

mod delay;
mod history;
mod ramp;
mod window;

pub use delay::{
    delayed, lemma_delay_keeps_what_came_before, lemma_delay_reads_what_was_pushed,
    lemma_delayed_length, Delay,
};
pub use history::{
    lemma_history_after_pushes, lemma_history_from_rest, lemma_history_is_the_last_eight, tapped,
    History,
};
pub use ramp::{averaged, lemma_ramp_averages_the_last_values, BoxAverage, REBUILD_INTERVAL};
pub use window::{
    clock_range, lemma_steady_width, lemma_window_min_at, lemma_window_min_is_smallest,
    lemma_window_run, lemma_zero_width_is_the_value, push_outcome, sliding_min, steady_from,
    window_min, MinWindow,
};

verus! {

/// The longest lookahead, in samples: ten milliseconds at 96 kHz.
pub const LOOKAHEAD_MAX: usize = 960;

/// How many samples the true-peak interpolator looks past the sample it
/// reports on: the centre of an eight-tap kernel.
pub const DETECT_DELAY: usize = 4;

/// The audio delay ring: the detector's delay plus twice the longest
/// lookahead, rounded up to a power of two so the index is a mask.
pub const DELAY_SAMPLES: usize = 2048;

/// Room for the longest window plus one, rounded up to a power of two.
pub const WINDOW_CAPACITY: usize = 1024;

/// A sequence of `len` copies of `value`.
pub open spec fn filled<T>(len: nat, value: T) -> Seq<T> {
    Seq::new(len, |i: int| value)
}

/// A ring of `len` copies of `value`.
pub(crate) fn filled_vec<T: Copy>(len: usize, value: T) -> (v: Vec<T>)
    ensures
        v@ == filled(len as nat, value),
{
    let mut v: Vec<T> = Vec::new();
    let mut i: usize = 0;
    while i < len
        invariant
            i <= len,
            v@ == filled(i as nat, value),
        decreases len - i,
    {
        v.push(value);
        i = i + 1;
        assert(v@ =~= filled(i as nat, value));
    }
    v
}

/// The delay ring reaches back far enough for the detector and two of the
/// longest lookaheads.
pub proof fn lemma_delay_reaches_two_lookaheads()
    ensures
        DETECT_DELAY + 2 * LOOKAHEAD_MAX < DELAY_SAMPLES,
{
}

/// The window has room for the longest lookahead and the sample being pushed.
pub proof fn lemma_window_holds_the_longest_lookahead()
    ensures
        LOOKAHEAD_MAX + 1 < WINDOW_CAPACITY,
{
}

} // verus!
