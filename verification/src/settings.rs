//! A complete set of parameter values, each inside its parameter's range.

use vstd::prelude::*;
use crate::parameters::{
    accepts, parameter, spec_default, PARAMETER_COUNT, HALF, ONE, MINUS_ONE, HUNDRED, TWO,
    MINUS_SIXTY, ZERO,
};
use crate::word::{at_most, spec_at_most};

verus! {

/// Whether `s` is a full layout of values that its parameters all accept.
pub open spec fn valid(s: Seq<u32>) -> bool {
    &&& s.len() == PARAMETER_COUNT
    &&& forall|i: int| 0 <= i < PARAMETER_COUNT ==> accepts(i, #[trigger] s[i])
}

/// The defaults, in index order.
pub open spec fn spec_defaults() -> Seq<u32> {
    Seq::new(PARAMETER_COUNT as nat, |i: int| spec_default(i))
}

/// The defaults with the first `values.len()` entries replaced by `values`.
pub open spec fn overlay(values: Seq<u32>) -> Seq<u32> {
    Seq::new(
        PARAMETER_COUNT as nat,
        |i: int|
            if i < values.len() {
                values[i]
            } else {
                spec_default(i)
            },
    )
}

/// Whether every entry of `values` is accepted by the parameter at its
/// position, and there are no more entries than parameters.
pub open spec fn acceptable(values: Seq<u32>) -> bool {
    &&& values.len() <= PARAMETER_COUNT
    &&& forall|i: int| 0 <= i < values.len() ==> accepts(i, #[trigger] values[i])
}

/// What a switch reads as: on from one half up.
pub open spec fn spec_engaged(w: u32) -> bool {
    spec_at_most(HALF, w)
}

#[derive(Clone, Copy)]
pub struct Settings {
    values: [u32; PARAMETER_COUNT],
}

impl View for Settings {
    type V = Seq<u32>;

    closed spec fn view(&self) -> Seq<u32> {
        self.values@
    }
}

/// The defaults satisfy their own ranges.
pub proof fn lemma_defaults_valid()
    ensures
        valid(spec_defaults()),
{
}

/// A full layout of acceptable values overlays to itself, and every overlay
/// of acceptable values is valid.
pub proof fn lemma_overlay_valid(values: Seq<u32>)
    requires
        acceptable(values),
    ensures
        valid(overlay(values)),
        values.len() == PARAMETER_COUNT ==> overlay(values) == values,
{
    assert(values.len() == PARAMETER_COUNT ==> overlay(values) =~= values);
}

impl Settings {
    #[verifier::type_invariant]
    spec fn inv(self) -> bool {
        valid(self.values@)
    }

    /// The value of parameter `index`, or `None` for an index no parameter has.
    pub fn get(&self, index: u32) -> (r: Option<u32>)
        ensures
            index < PARAMETER_COUNT ==> r == Some(self@[index as int]),
            index >= PARAMETER_COUNT ==> r is None,
    {
        if index < 12 {
            Some(self.values[index as usize])
        } else {
            None
        }
    }

    /// The value of parameter `index`.
    pub fn value(&self, index: u32) -> (r: u32)
        requires
            index < PARAMETER_COUNT,
        ensures
            r == self@[index as int],
    {
        self.values[index as usize]
    }

    /// Whether the switch at `index` is on.
    pub fn engaged(&self, index: u32) -> (r: bool)
        requires
            index < PARAMETER_COUNT,
        ensures
            r == spec_engaged(self@[index as int]),
    {
        at_most(HALF, self.values[index as usize])
    }

    /// Sets parameter `index` to `value` if the parameter exists and the value
    /// lies inside its range; otherwise changes nothing and answers `false`.
    pub fn set(&mut self, index: u32, value: u32) -> (accepted: bool)
        ensures
            accepted == accepts(index as int, value),
            accepted ==> final(self)@ == old(self)@.update(index as int, value),
            !accepted ==> final(self)@ == old(self)@,
    {
        proof {
            use_type_invariant(&*self);
        }
        match parameter(index) {
            None => false,
            Some(p) => {
                if at_most(p.minimum, value) && at_most(value, p.maximum) {
                    let mut values = self.values;
                    values[index as usize] = value;
                    assert(valid(values@));
                    self.values = values;
                    true
                } else {
                    false
                }
            },
        }
    }

    /// Every value, in index order.
    pub fn as_array(&self) -> (r: [u32; PARAMETER_COUNT])
        ensures
            r@ == self@,
            valid(r@),
    {
        proof {
            use_type_invariant(self);
        }
        self.values
    }

    /// The defaults with the leading values replaced by `values`; `None` if
    /// there are more values than parameters or one lies outside its range.
    pub fn from_slice(values: &[u32]) -> (r: Option<Settings>)
        ensures
            r is Some <==> acceptable(values@),
            r matches Some(s) ==> s@ == overlay(values@),
    {
        if values.len() > 12 {
            return None;
        }
        let mut settings = Settings::default();
        let mut i: usize = 0;
        while i < values.len()
            invariant
                values.len() <= PARAMETER_COUNT,
                i <= values.len(),
                forall|k: int| 0 <= k < i ==> accepts(k, #[trigger] values@[k]),
                settings@ == overlay(values@.take(i as int)),
            decreases values.len() - i,
        {
            if !settings.set(i as u32, values[i]) {
                return None;
            }
            assert(overlay(values@.take(i + 1)) =~= overlay(values@.take(i as int)).update(
                i as int,
                values@[i as int],
            ));
            i = i + 1;
        }
        assert(values@.take(i as int) =~= values@);
        Some(settings)
    }
}

impl Default for Settings {
    fn default() -> (s: Settings)
        ensures
            s@ == spec_defaults(),
    {
        let s = Settings {
            values: [ZERO, MINUS_ONE, HUNDRED, ONE, TWO, ONE, ONE, ZERO, ZERO, ZERO, MINUS_SIXTY, MINUS_SIXTY],
        };
        assert(s.values@ =~= spec_defaults());
        s
    }
}

} // verus!
