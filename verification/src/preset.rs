//! Factory settings.
//!
//! A preset is nothing but a list of parameter values laid over the defaults.

use vstd::prelude::*;
use crate::index::{AUTO_RELEASE, CEILING, INPUT, LINK, LOOKAHEAD, RELEASE};
use crate::parameters::{accepts, same_text, MINUS_ONE, ZERO};
use crate::settings::{spec_defaults, Settings};

verus! {

/// How many factory presets there are.
pub const PRESET_COUNT: usize = 4;

/// `3.0`
pub const THREE: u32 = 0x4040_0000;

/// `-0.3`, rounded to single precision.
pub const MINUS_THREE_TENTHS: u32 = 0xBE99_999A;

/// `-3.0`
pub const MINUS_THREE: u32 = 0xC040_0000;

/// `5.0`
pub const FIVE: u32 = 0x40A0_0000;

/// `40.0`
pub const FORTY: u32 = 0x4220_0000;

/// `200.0`
pub const TWO_HUNDRED: u32 = 0x4348_0000;

pub struct Preset {
    pub id: &'static str,
    pub name: &'static str,
    pub description: &'static str,
    /// Parameter index and value, applied in order over the defaults.
    pub values: Vec<(u32, u32)>,
}

/// The identifier of preset `i`.
pub open spec fn spec_preset_id(i: int) -> Seq<char> {
    if i == 0 {
        "transparent"@
    } else if i == 1 {
        "stage"@
    } else if i == 2 {
        "safety"@
    } else {
        "broadcast"@
    }
}

/// The display name of preset `i`.
pub open spec fn spec_preset_name(i: int) -> Seq<char> {
    if i == 0 {
        "Transparent"@
    } else if i == 1 {
        "Stage"@
    } else if i == 2 {
        "Safety"@
    } else {
        "Broadcast"@
    }
}

/// The description of preset `i`.
pub open spec fn spec_preset_description(i: int) -> Seq<char> {
    if i == 0 {
        "One decibel of headroom, two milliseconds of lookahead, the release left to the programme."@
    } else if i == 1 {
        "Three decibels in, a third of a decibel of headroom: loud, and never over."@
    } else if i == 2 {
        "Three decibels of headroom and a long lookahead: a net under the instrument, rarely felt."@
    } else {
        "A ceiling at minus one dBTP, unlinked sides, a fast fixed release."@
    }
}

/// The values preset `i` lays over the defaults, in order.
pub open spec fn spec_preset_values(i: int) -> Seq<(u32, u32)> {
    if i == 0 {
        seq![]
    } else if i == 1 {
        seq![(INPUT, THREE), (CEILING, MINUS_THREE_TENTHS), (LOOKAHEAD, THREE)]
    } else if i == 2 {
        seq![(CEILING, MINUS_THREE), (LOOKAHEAD, FIVE), (RELEASE, TWO_HUNDRED), (AUTO_RELEASE, ZERO)]
    } else {
        seq![(CEILING, MINUS_ONE), (LINK, ZERO), (RELEASE, FORTY), (AUTO_RELEASE, ZERO)]
    }
}

/// The position of the first preset called `id`.
pub open spec fn preset_position(id: Seq<char>) -> Option<int> {
    if id == spec_preset_id(0) {
        Some(0)
    } else if id == spec_preset_id(1) {
        Some(1)
    } else if id == spec_preset_id(2) {
        Some(2)
    } else if id == spec_preset_id(3) {
        Some(3)
    } else {
        None
    }
}

/// `s` with each `(index, value)` of `values` set in turn; `None` as soon as
/// one is refused.
pub open spec fn apply(s: Seq<u32>, values: Seq<(u32, u32)>) -> Option<Seq<u32>>
    decreases values.len(),
{
    if values.len() == 0 {
        Some(s)
    } else {
        match apply(s, values.drop_last()) {
            Some(t) => {
                let (index, value) = values.last();
                if accepts(index as int, value) {
                    Some(t.update(index as int, value))
                } else {
                    None
                }
            },
            None => None,
        }
    }
}

/// Once a value is refused, the whole list is refused.
pub proof fn lemma_refusal_stops(s: Seq<u32>, values: Seq<(u32, u32)>, k: int)
    requires
        0 <= k <= values.len(),
        apply(s, values.take(k)) is None,
    ensures
        apply(s, values) is None,
    decreases values.len(),
{
    if k < values.len() {
        assert(values.drop_last().take(k) =~= values.take(k));
        lemma_refusal_stops(s, values.drop_last(), k);
    } else {
        assert(values.take(k) =~= values);
    }
}

/// The settings the preset called `id` describes.
pub open spec fn spec_settings_for(id: Seq<char>) -> Option<Seq<u32>> {
    match preset_position(id) {
        Some(i) => apply(spec_defaults(), spec_preset_values(i)),
        None => None,
    }
}

/// Preset `position`, or `None` past the last one.
pub fn preset(position: usize) -> (p: Option<Preset>)
    ensures
        p is Some <==> position < PRESET_COUNT,
        p matches Some(p) ==> {
            &&& p.id@ == spec_preset_id(position as int)
            &&& p.name@ == spec_preset_name(position as int)
            &&& p.description@ == spec_preset_description(position as int)
            &&& p.values@ == spec_preset_values(position as int)
        },
{
    if position == 0 {
        Some(Preset {
            id: "transparent",
            name: "Transparent",
            description: "One decibel of headroom, two milliseconds of lookahead, the release left to the programme.",
            values: Vec::new(),
        })
    } else if position == 1 {
        Some(Preset {
            id: "stage",
            name: "Stage",
            description: "Three decibels in, a third of a decibel of headroom: loud, and never over.",
            values: vec![(INPUT, THREE), (CEILING, MINUS_THREE_TENTHS), (LOOKAHEAD, THREE)],
        })
    } else if position == 2 {
        Some(Preset {
            id: "safety",
            name: "Safety",
            description: "Three decibels of headroom and a long lookahead: a net under the instrument, rarely felt.",
            values: vec![(CEILING, MINUS_THREE), (LOOKAHEAD, FIVE), (RELEASE, TWO_HUNDRED), (AUTO_RELEASE, ZERO)],
        })
    } else if position == 3 {
        Some(Preset {
            id: "broadcast",
            name: "Broadcast",
            description: "A ceiling at minus one dBTP, unlinked sides, a fast fixed release.",
            values: vec![(CEILING, MINUS_ONE), (LINK, ZERO), (RELEASE, FORTY), (AUTO_RELEASE, ZERO)],
        })
    } else {
        None
    }
}

/// Every preset, in catalogue order.
pub fn presets() -> (all: Vec<Preset>)
    ensures
        all@.len() == PRESET_COUNT,
        forall|i: int|
            0 <= i < PRESET_COUNT ==> {
                &&& (#[trigger] all@[i]).id@ == spec_preset_id(i)
                &&& all@[i].name@ == spec_preset_name(i)
                &&& all@[i].description@ == spec_preset_description(i)
                &&& all@[i].values@ == spec_preset_values(i)
            },
{
    let mut all: Vec<Preset> = Vec::new();
    let mut position: usize = 0;
    while position < 4
        invariant
            position <= 4,
            all@.len() == position,
            forall|i: int|
                0 <= i < position ==> {
                    &&& (#[trigger] all@[i]).id@ == spec_preset_id(i)
                    &&& all@[i].name@ == spec_preset_name(i)
                    &&& all@[i].description@ == spec_preset_description(i)
                    &&& all@[i].values@ == spec_preset_values(i)
                },
        decreases 4 - position,
    {
        match preset(position) {
            Some(p) => all.push(p),
            None => {},
        }
        position = position + 1;
    }
    all
}

/// Where the preset called `id` stands in `all`, the catalogue.
fn position_of(all: &Vec<Preset>, id: &str) -> (r: Option<usize>)
    requires
        all@.len() == PRESET_COUNT,
        forall|i: int| 0 <= i < PRESET_COUNT ==> (#[trigger] all@[i]).id@ == spec_preset_id(i),
    ensures
        r matches Some(p) ==> p < PRESET_COUNT && preset_position(id@) == Some(p as int),
        r is None ==> preset_position(id@) is None,
{
    let mut position: usize = 0;
    while position < all.len()
        invariant
            all@.len() == PRESET_COUNT,
            position <= PRESET_COUNT,
            forall|i: int| 0 <= i < PRESET_COUNT ==> (#[trigger] all@[i]).id@ == spec_preset_id(i),
            forall|i: int| 0 <= i < position ==> spec_preset_id(i) != id@,
        decreases PRESET_COUNT - position,
    {
        if same_text(all[position].id, id) {
            return Some(position);
        }
        position = position + 1;
    }
    None
}

/// The settings a preset describes: the defaults, with the preset's values
/// over them. `None` for an id no preset carries.
pub fn settings_for(id: &str) -> (r: Option<Settings>)
    ensures
        r is Some <==> spec_settings_for(id@) is Some,
        r matches Some(s) ==> spec_settings_for(id@) == Some(s@),
{
    let all = presets();
    let found = position_of(&all, id);
    let position = match found {
        Some(position) => position,
        None => return None,
    };
    let values = &all[position].values;
    assert(values@ == spec_preset_values(position as int));
    let mut settings = Settings::default();
    let mut k: usize = 0;
    while k < values.len()
        invariant
            k <= values.len(),
            apply(spec_defaults(), values@.take(k as int)) == Some(settings@),
            preset_position(id@) == Some(position as int),
            values@ == spec_preset_values(position as int),
        decreases values.len() - k,
    {
        let (index, value) = values[k];
        assert(values@.take(k + 1).drop_last() =~= values@.take(k as int));
        if !settings.set(index, value) {
            proof {
                assert(values@.take(k + 1).last() == (index, value));
                assert(apply(spec_defaults(), values@.take(k + 1)) is None);
                lemma_refusal_stops(spec_defaults(), values@, k + 1);
            }
            return None;
        }
        k = k + 1;
    }
    assert(values@.take(k as int) =~= values@);
    Some(settings)
}

/// Every preset loads: its values all lie inside their parameters' ranges.
pub proof fn lemma_every_preset_loads(i: int)
    requires
        0 <= i < PRESET_COUNT,
    ensures
        apply(spec_defaults(), spec_preset_values(i)) is Some,
{
    reveal_with_fuel(apply, 5);
}

/// No two presets share an identifier.
pub proof fn lemma_preset_identifiers_are_unique(i: int, j: int)
    requires
        0 <= i < PRESET_COUNT,
        0 <= j < PRESET_COUNT,
        i != j,
    ensures
        spec_preset_id(i) != spec_preset_id(j),
{
    reveal_strlit("transparent");
    reveal_strlit("stage");
    reveal_strlit("safety");
    reveal_strlit("broadcast");
    assert(spec_preset_id(0).len() == 11);
    assert(spec_preset_id(1).len() == 5);
    assert(spec_preset_id(2).len() == 6);
    assert(spec_preset_id(3).len() == 9);
}

/// Every preset's identifier finds that preset, and its settings.
pub proof fn lemma_every_preset_is_found(i: int)
    requires
        0 <= i < PRESET_COUNT,
    ensures
        preset_position(spec_preset_id(i)) == Some(i),
        spec_settings_for(spec_preset_id(i)) is Some,
{
    if i > 0 {
        lemma_preset_identifiers_are_unique(0, i);
    }
    if i > 1 {
        lemma_preset_identifiers_are_unique(1, i);
    }
    if i > 2 {
        lemma_preset_identifiers_are_unique(2, i);
    }
    lemma_every_preset_loads(i);
}

/// The catalogue, value by value, as each preset's description promises,
/// in index order (input, ceiling, release, auto release, lookahead, link,
/// true peak, output, reduction, delta listen, input level, output level):
///
/// * transparent: the defaults: 0 dB in, a -1 dBTP ceiling, 100 ms release
///   left to the programme, 2 ms lookahead, linked, true peak on;
/// * stage: +3 dB in, a -0.3 dBTP ceiling, 3 ms lookahead;
/// * safety: a -3 dBTP ceiling, 5 ms lookahead, a fixed 200 ms release;
/// * broadcast: a -1 dBTP ceiling, unlinked sides, a fixed 40 ms release.
///
/// Every other value is the default. The words are the single-precision
/// encodings: `0x3F80_0000` is 1.0, `0xBF80_0000` -1.0, `0x42C8_0000` 100.0,
/// `0x4000_0000` 2.0, `0xC270_0000` -60.0, `0x4040_0000` 3.0, `0xBE99_999A`
/// -0.3, `0xC040_0000` -3.0, `0x40A0_0000` 5.0, `0x4348_0000` 200.0 and
/// `0x4220_0000` 40.0.
pub proof fn lemma_catalogue_values()
    ensures
        spec_settings_for("transparent"@) == Some(
            seq![
                0x0000_0000u32, 0xBF80_0000, 0x42C8_0000, 0x3F80_0000, 0x4000_0000, 0x3F80_0000,
                0x3F80_0000, 0x0000_0000, 0x0000_0000, 0x0000_0000, 0xC270_0000, 0xC270_0000,
            ],
        ),
        spec_settings_for("stage"@) == Some(
            seq![
                0x4040_0000u32, 0xBE99_999A, 0x42C8_0000, 0x3F80_0000, 0x4040_0000, 0x3F80_0000,
                0x3F80_0000, 0x0000_0000, 0x0000_0000, 0x0000_0000, 0xC270_0000, 0xC270_0000,
            ],
        ),
        spec_settings_for("safety"@) == Some(
            seq![
                0x0000_0000u32, 0xC040_0000, 0x4348_0000, 0x0000_0000, 0x40A0_0000, 0x3F80_0000,
                0x3F80_0000, 0x0000_0000, 0x0000_0000, 0x0000_0000, 0xC270_0000, 0xC270_0000,
            ],
        ),
        spec_settings_for("broadcast"@) == Some(
            seq![
                0x0000_0000u32, 0xBF80_0000, 0x4220_0000, 0x0000_0000, 0x4000_0000, 0x0000_0000,
                0x3F80_0000, 0x0000_0000, 0x0000_0000, 0x0000_0000, 0xC270_0000, 0xC270_0000,
            ],
        ),
        spec_settings_for("nowhere"@) is None,
{
    reveal_with_fuel(apply, 5);
    lemma_every_preset_is_found(0);
    lemma_every_preset_is_found(1);
    lemma_every_preset_is_found(2);
    lemma_every_preset_is_found(3);
    reveal_strlit("nowhere");
    reveal_strlit("transparent");
    reveal_strlit("stage");
    reveal_strlit("safety");
    reveal_strlit("broadcast");
    assert("nowhere"@.len() == 7);
    assert(apply(spec_defaults(), spec_preset_values(0)).unwrap() =~= seq![
        0x0000_0000u32, 0xBF80_0000, 0x42C8_0000, 0x3F80_0000, 0x4000_0000, 0x3F80_0000,
        0x3F80_0000, 0x0000_0000, 0x0000_0000, 0x0000_0000, 0xC270_0000, 0xC270_0000,
    ]);
    assert(apply(spec_defaults(), spec_preset_values(1)).unwrap() =~= seq![
        0x4040_0000u32, 0xBE99_999A, 0x42C8_0000, 0x3F80_0000, 0x4040_0000, 0x3F80_0000,
        0x3F80_0000, 0x0000_0000, 0x0000_0000, 0x0000_0000, 0xC270_0000, 0xC270_0000,
    ]);
    assert(apply(spec_defaults(), spec_preset_values(2)).unwrap() =~= seq![
        0x0000_0000u32, 0xC040_0000, 0x4348_0000, 0x0000_0000, 0x40A0_0000, 0x3F80_0000,
        0x3F80_0000, 0x0000_0000, 0x0000_0000, 0x0000_0000, 0xC270_0000, 0xC270_0000,
    ]);
    assert(apply(spec_defaults(), spec_preset_values(3)).unwrap() =~= seq![
        0x0000_0000u32, 0xBF80_0000, 0x4220_0000, 0x0000_0000, 0x4000_0000, 0x0000_0000,
        0x3F80_0000, 0x0000_0000, 0x0000_0000, 0x0000_0000, 0xC270_0000, 0xC270_0000,
    ]);
}

} // verus!
