//! The engine's arithmetic that does not touch a sample.
//!
//! The engine's output for a sample `m` is the input from two lookaheads
//! and the detector's delay before, so that the gain for every peak has been
//! worked out before the peak leaves the delay.

use vstd::prelude::*;
use crate::lookahead::{DELAY_SAMPLES, DETECT_DELAY, LOOKAHEAD_MAX};

verus! {

/// The samples of delay between input and output at a lookahead of
/// `lookahead` samples; always an age the delay ring can still read.
pub fn latency(lookahead: usize) -> (samples: usize)
    requires
        lookahead <= LOOKAHEAD_MAX,
    ensures
        samples == DETECT_DELAY + 2 * lookahead,
        samples < DELAY_SAMPLES,
{
    DETECT_DELAY + 2 * lookahead
}

} // verus!
