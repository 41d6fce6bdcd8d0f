//! RF-Limiter: the verified core of a lookahead true-peak limiter.
//!
//! * [`index`], [`parameters`], [`settings`], [`preset`] and [`state`] are the
//!   contract between the host and the engine: which parameters exist, what
//!   each accepts, the factory presets and the saved-state layout;
//! * [`lookahead`] holds the parts of the limiter that do not compute on
//!   samples: the delay ring, the sample history, the sliding-window minimum
//!   and the ring under the box ramp;
//! * [`engine`] holds the engine's sample-free arithmetic;
//! * [`lab`] holds the bench's command-line logic.
//!
//! Single-precision values are carried as their IEEE-754 words ([`word`]).

pub mod engine;
pub mod index;
pub mod lab;
pub mod lookahead;
pub mod parameters;
pub mod preset;
pub mod settings;
pub mod state;
pub mod word;
