//! The parameters the limiter exposes: identifier, name, range and default.
//!
//! Values are single-precision numbers carried as their IEEE-754 words (see
//! [`crate::word`]); the constants below name the words that occur.

use vstd::prelude::*;
use crate::word::{is_nan, order_key, spec_at_most};

verus! {

/// How many parameters the current layout has.
pub const PARAMETER_COUNT: usize = 12;

/// `0.0`
pub const ZERO: u32 = 0x0000_0000;

/// `0.5`
pub const HALF: u32 = 0x3F00_0000;

/// `1.0`
pub const ONE: u32 = 0x3F80_0000;

/// `-1.0`
pub const MINUS_ONE: u32 = 0xBF80_0000;

/// `2.0`
pub const TWO: u32 = 0x4000_0000;

/// `10.0`
pub const TEN: u32 = 0x4120_0000;

/// `12.0`
pub const TWELVE: u32 = 0x4140_0000;

/// `24.0`
pub const TWENTY_FOUR: u32 = 0x41C0_0000;

/// `-20.0`
pub const MINUS_TWENTY: u32 = 0xC1A0_0000;

/// `-24.0`
pub const MINUS_TWENTY_FOUR: u32 = 0xC1C0_0000;

/// `-30.0`
pub const MINUS_THIRTY: u32 = 0xC1F0_0000;

/// `-60.0`
pub const MINUS_SIXTY: u32 = 0xC270_0000;

/// `100.0`
pub const HUNDRED: u32 = 0x42C8_0000;

/// `1000.0`
pub const THOUSAND: u32 = 0x447A_0000;

/// One parameter of the contract.
pub struct Parameter {
    pub index: u32,
    pub id: &'static str,
    pub name: &'static str,
    /// The smallest value accepted.
    pub minimum: u32,
    /// The largest value accepted.
    pub maximum: u32,
    /// The value a fresh engine starts from.
    pub default: u32,
}

/// The identifier of parameter `i`.
pub open spec fn spec_id(i: int) -> Seq<char> {
    if i == 0 {
        "limiter.input"@
    } else if i == 1 {
        "limiter.ceiling"@
    } else if i == 2 {
        "limiter.release"@
    } else if i == 3 {
        "limiter.auto_release"@
    } else if i == 4 {
        "limiter.lookahead"@
    } else if i == 5 {
        "limiter.link"@
    } else if i == 6 {
        "limiter.true_peak"@
    } else if i == 7 {
        "limiter.output"@
    } else if i == 8 {
        "limiter.reduction"@
    } else if i == 9 {
        "limiter.delta_listen"@
    } else if i == 10 {
        "limiter.input_level"@
    } else {
        "limiter.output_level"@
    }
}

/// The display name of parameter `i`.
pub open spec fn spec_name(i: int) -> Seq<char> {
    if i == 0 {
        "Input"@
    } else if i == 1 {
        "Ceiling"@
    } else if i == 2 {
        "Release"@
    } else if i == 3 {
        "Auto Release"@
    } else if i == 4 {
        "Lookahead"@
    } else if i == 5 {
        "Stereo Link"@
    } else if i == 6 {
        "True Peak"@
    } else if i == 7 {
        "Output"@
    } else if i == 8 {
        "Gain Reduction"@
    } else if i == 9 {
        "Delta Listen"@
    } else if i == 10 {
        "Input Level"@
    } else {
        "Output Level"@
    }
}

/// The smallest value parameter `i` accepts: dB for the gains and levels,
/// milliseconds for the times, `0` for a switch.
pub open spec fn spec_minimum(i: int) -> u32 {
    if i == 0 || i == 7 {
        MINUS_TWENTY_FOUR
    } else if i == 1 {
        MINUS_TWENTY
    } else if i == 2 {
        TEN
    } else if i == 8 {
        MINUS_THIRTY
    } else if i == 10 || i == 11 {
        MINUS_SIXTY
    } else {
        ZERO
    }
}

/// The largest value parameter `i` accepts.
pub open spec fn spec_maximum(i: int) -> u32 {
    if i == 0 || i == 7 {
        TWENTY_FOUR
    } else if i == 1 || i == 8 {
        ZERO
    } else if i == 2 {
        THOUSAND
    } else if i == 4 {
        TEN
    } else if i == 10 || i == 11 {
        TWELVE
    } else {
        ONE
    }
}

/// The default of parameter `i`: no drive, one decibel of headroom, a
/// hundred-millisecond release left to the programme, two milliseconds of
/// lookahead, linked sides, true-peak detection, meters at rest.
pub open spec fn spec_default(i: int) -> u32 {
    if i == 1 {
        MINUS_ONE
    } else if i == 2 {
        HUNDRED
    } else if i == 3 || i == 5 || i == 6 {
        ONE
    } else if i == 4 {
        TWO
    } else if i == 10 || i == 11 {
        MINUS_SIXTY
    } else {
        ZERO
    }
}

/// Whether parameter `i` exists and `w` lies inside its range.
pub open spec fn accepts(i: int, w: u32) -> bool {
    &&& 0 <= i < PARAMETER_COUNT
    &&& spec_at_most(spec_minimum(i), w)
    &&& spec_at_most(w, spec_maximum(i))
}

/// Whether `w` is a number whose order key lies between the keys of the two
/// ends of a range; an order key is the word's magnitude, negated for a
/// negative number, so it orders words as their numbers are ordered.
pub open spec fn number_between(w: u32, low: int, high: int) -> bool {
    !is_nan(w) && low <= order_key(w) <= high
}

/// The documented ranges, each end given by the order key of its number:
/// input and output -24 to +24 dB (`0x41C0_0000` is 24.0), ceiling -20 to
/// 0 dBTP (`0x41A0_0000` is 20.0), release 10 to 1000 ms (`0x4120_0000` is
/// 10.0, `0x447A_0000` 1000.0), lookahead 0 to 10 ms, the switches 0 to 1
/// (`0x3F80_0000` is 1.0), the reduction meter -30 to 0 dB (`0x41F0_0000` is
/// 30.0), the level meters -60 to +12 dB (`0x4270_0000` is 60.0,
/// `0x4140_0000` 12.0). A parameter accepts a word exactly when it is a
/// number inside its range.
pub proof fn lemma_documented_ranges(w: u32)
    ensures
        accepts(0, w) <==> number_between(w, -0x41C0_0000, 0x41C0_0000),
        accepts(1, w) <==> number_between(w, -0x41A0_0000, 0),
        accepts(2, w) <==> number_between(w, 0x4120_0000, 0x447A_0000),
        accepts(3, w) <==> number_between(w, 0, 0x3F80_0000),
        accepts(4, w) <==> number_between(w, 0, 0x4120_0000),
        accepts(5, w) <==> number_between(w, 0, 0x3F80_0000),
        accepts(6, w) <==> number_between(w, 0, 0x3F80_0000),
        accepts(7, w) <==> number_between(w, -0x41C0_0000, 0x41C0_0000),
        accepts(8, w) <==> number_between(w, -0x41F0_0000, 0),
        accepts(9, w) <==> number_between(w, 0, 0x3F80_0000),
        accepts(10, w) <==> number_between(w, -0x4270_0000, 0x4140_0000),
        accepts(11, w) <==> number_between(w, -0x4270_0000, 0x4140_0000),
        forall|i: int| !(0 <= i < PARAMETER_COUNT) ==> !accepts(i, w),
{
}

/// The documented defaults, as words: 0 dB in and out, a -1 dBTP ceiling
/// (`0xBF80_0000`), a 100 ms release (`0x42C8_0000`), auto release, link and
/// true peak on (`0x3F80_0000`, 1.0), 2 ms lookahead (`0x4000_0000`), delta
/// listen off, the reduction meter at 0 dB and the level meters at -60 dB
/// (`0xC270_0000`).
pub proof fn lemma_documented_defaults()
    ensures
        spec_default(0) == 0x0000_0000,
        spec_default(1) == 0xBF80_0000,
        spec_default(2) == 0x42C8_0000,
        spec_default(3) == 0x3F80_0000,
        spec_default(4) == 0x4000_0000,
        spec_default(5) == 0x3F80_0000,
        spec_default(6) == 0x3F80_0000,
        spec_default(7) == 0x0000_0000,
        spec_default(8) == 0x0000_0000,
        spec_default(9) == 0x0000_0000,
        spec_default(10) == 0xC270_0000,
        spec_default(11) == 0xC270_0000,
{
}

/// Every default lies inside its own range.
pub proof fn lemma_defaults_accepted(i: int)
    requires
        0 <= i < PARAMETER_COUNT,
    ensures
        accepts(i, spec_default(i)),
{
}

/// Parameter `index`, or `None` past the last one.
pub fn parameter(index: u32) -> (p: Option<Parameter>)
    ensures
        p is Some <==> index < PARAMETER_COUNT,
        p matches Some(p) ==> {
            &&& p.index == index
            &&& p.id@ == spec_id(index as int)
            &&& p.name@ == spec_name(index as int)
            &&& p.minimum == spec_minimum(index as int)
            &&& p.maximum == spec_maximum(index as int)
            &&& p.default == spec_default(index as int)
        },
{
    let (id, name, minimum, maximum, default) = if index == 0 {
        ("limiter.input", "Input", MINUS_TWENTY_FOUR, TWENTY_FOUR, ZERO)
    } else if index == 1 {
        ("limiter.ceiling", "Ceiling", MINUS_TWENTY, ZERO, MINUS_ONE)
    } else if index == 2 {
        ("limiter.release", "Release", TEN, THOUSAND, HUNDRED)
    } else if index == 3 {
        ("limiter.auto_release", "Auto Release", ZERO, ONE, ONE)
    } else if index == 4 {
        ("limiter.lookahead", "Lookahead", ZERO, TEN, TWO)
    } else if index == 5 {
        ("limiter.link", "Stereo Link", ZERO, ONE, ONE)
    } else if index == 6 {
        ("limiter.true_peak", "True Peak", ZERO, ONE, ONE)
    } else if index == 7 {
        ("limiter.output", "Output", MINUS_TWENTY_FOUR, TWENTY_FOUR, ZERO)
    } else if index == 8 {
        ("limiter.reduction", "Gain Reduction", MINUS_THIRTY, ZERO, ZERO)
    } else if index == 9 {
        ("limiter.delta_listen", "Delta Listen", ZERO, ONE, ZERO)
    } else if index == 10 {
        ("limiter.input_level", "Input Level", MINUS_SIXTY, TWELVE, MINUS_SIXTY)
    } else if index == 11 {
        ("limiter.output_level", "Output Level", MINUS_SIXTY, TWELVE, MINUS_SIXTY)
    } else {
        return None;
    };
    Some(Parameter { index, id, name, minimum, maximum, default })
}

/// The index of the parameter called `id`.
pub open spec fn index_for(id: Seq<char>) -> Option<u32> {
    if id == spec_id(0) {
        Some(0)
    } else if id == spec_id(1) {
        Some(1)
    } else if id == spec_id(2) {
        Some(2)
    } else if id == spec_id(3) {
        Some(3)
    } else if id == spec_id(4) {
        Some(4)
    } else if id == spec_id(5) {
        Some(5)
    } else if id == spec_id(6) {
        Some(6)
    } else if id == spec_id(7) {
        Some(7)
    } else if id == spec_id(8) {
        Some(8)
    } else if id == spec_id(9) {
        Some(9)
    } else if id == spec_id(10) {
        Some(10)
    } else if id == spec_id(11) {
        Some(11)
    } else {
        None
    }
}

/// Whether two texts are the same.
pub fn same_text(a: &str, b: &str) -> (r: bool)
    ensures
        r == (a@ == b@),
{
    a.to_owned() == b.to_owned()
}

/// The index of the parameter called `id`, or `None` where none is.
pub fn parameter_index(id: &str) -> (r: Option<u32>)
    ensures
        r == index_for(id@),
{
    let mut index: u32 = 0;
    while index < 12
        invariant
            index <= 12,
            forall|i: int| 0 <= i < index ==> spec_id(i) != id@,
        decreases 12 - index,
    {
        match parameter(index) {
            Some(p) => {
                if same_text(p.id, id) {
                    return Some(index);
                }
            },
            None => {},
        }
        index = index + 1;
    }
    None
}

/// The length of parameter `i`'s identifier.
spec fn id_length(i: int) -> int {
    if i == 0 {
        13
    } else if i == 1 || i == 2 {
        15
    } else if i == 3 || i == 9 || i == 11 {
        20
    } else if i == 4 || i == 6 || i == 8 {
        17
    } else if i == 5 {
        12
    } else if i == 7 {
        14
    } else {
        19
    }
}

/// The first character after `limiter.` in parameter `i`'s identifier.
spec fn id_initial(i: int) -> char {
    if i == 0 || i == 10 {
        'i'
    } else if i == 1 {
        'c'
    } else if i == 2 || i == 8 {
        'r'
    } else if i == 3 {
        'a'
    } else if i == 4 || i == 5 {
        'l'
    } else if i == 6 {
        't'
    } else if i == 7 || i == 11 {
        'o'
    } else {
        'd'
    }
}

proof fn lemma_id_shape(i: int)
    requires
        0 <= i < PARAMETER_COUNT,
    ensures
        spec_id(i).len() == id_length(i),
        spec_id(i)[8] == id_initial(i),
{
    reveal_strlit("limiter.input");
    reveal_strlit("limiter.ceiling");
    reveal_strlit("limiter.release");
    reveal_strlit("limiter.auto_release");
    reveal_strlit("limiter.lookahead");
    reveal_strlit("limiter.link");
    reveal_strlit("limiter.true_peak");
    reveal_strlit("limiter.output");
    reveal_strlit("limiter.reduction");
    reveal_strlit("limiter.delta_listen");
    reveal_strlit("limiter.input_level");
    reveal_strlit("limiter.output_level");
}

/// No two parameters share an identifier, so each identifier finds its own
/// parameter.
pub proof fn lemma_parameter_identifiers_are_unique(i: int, j: int)
    requires
        0 <= i < PARAMETER_COUNT,
        0 <= j < PARAMETER_COUNT,
        i != j,
    ensures
        spec_id(i) != spec_id(j),
        index_for(spec_id(i)) == Some(i as u32),
{
    assert forall|k: int, l: int| 0 <= k < l < PARAMETER_COUNT implies spec_id(k) != spec_id(l) by {
        lemma_id_shape(k);
        lemma_id_shape(l);
    }
}

/// Each identifier names the parameter at its documented index.
pub proof fn lemma_identifiers_name_their_indexes()
    ensures
        index_for("limiter.input"@) == Some(0u32),
        index_for("limiter.ceiling"@) == Some(1u32),
        index_for("limiter.release"@) == Some(2u32),
        index_for("limiter.auto_release"@) == Some(3u32),
        index_for("limiter.lookahead"@) == Some(4u32),
        index_for("limiter.link"@) == Some(5u32),
        index_for("limiter.true_peak"@) == Some(6u32),
        index_for("limiter.output"@) == Some(7u32),
        index_for("limiter.reduction"@) == Some(8u32),
        index_for("limiter.delta_listen"@) == Some(9u32),
        index_for("limiter.input_level"@) == Some(10u32),
        index_for("limiter.output_level"@) == Some(11u32),
{
    lemma_parameter_identifiers_are_unique(0, 1);
    lemma_parameter_identifiers_are_unique(1, 0);
    lemma_parameter_identifiers_are_unique(2, 0);
    lemma_parameter_identifiers_are_unique(3, 0);
    lemma_parameter_identifiers_are_unique(4, 0);
    lemma_parameter_identifiers_are_unique(5, 0);
    lemma_parameter_identifiers_are_unique(6, 0);
    lemma_parameter_identifiers_are_unique(7, 0);
    lemma_parameter_identifiers_are_unique(8, 0);
    lemma_parameter_identifiers_are_unique(9, 0);
    lemma_parameter_identifiers_are_unique(10, 0);
    lemma_parameter_identifiers_are_unique(11, 0);
}

/// Every parameter, in index order.
pub fn parameters() -> (all: Vec<Parameter>)
    ensures
        all@.len() == PARAMETER_COUNT,
        forall|i: int|
            0 <= i < PARAMETER_COUNT ==> {
                &&& (#[trigger] all@[i]).index == i
                &&& all@[i].id@ == spec_id(i)
                &&& all@[i].name@ == spec_name(i)
                &&& all@[i].minimum == spec_minimum(i)
                &&& all@[i].maximum == spec_maximum(i)
                &&& all@[i].default == spec_default(i)
            },
{
    let mut all: Vec<Parameter> = Vec::new();
    let mut index: u32 = 0;
    while index < 12
        invariant
            index <= 12,
            all@.len() == index,
            forall|i: int|
                0 <= i < index ==> {
                    &&& (#[trigger] all@[i]).index == i
                    &&& all@[i].id@ == spec_id(i)
                    &&& all@[i].name@ == spec_name(i)
                    &&& all@[i].minimum == spec_minimum(i)
                    &&& all@[i].maximum == spec_maximum(i)
                    &&& all@[i].default == spec_default(i)
                },
        decreases 12 - index,
    {
        match parameter(index) {
            Some(p) => all.push(p),
            None => {},
        }
        index = index + 1;
    }
    all
}

} // verus!
