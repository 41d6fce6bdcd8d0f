//! The saved state: every parameter value, as the little-endian bytes of its
//! single-precision word, in index order.
//!
//! The length of a block identifies its layout: the current one, or one that
//! an earlier build wrote before parameters were added at the end.

use vstd::prelude::*;
use crate::parameters::PARAMETER_COUNT;
use crate::settings::{acceptable, overlay, valid, Settings};

verus! {

/// Length of the serialised state, in bytes.
pub const STATE_BYTES: usize = PARAMETER_COUNT * 4;

/// The parameter counts of the layouts earlier builds wrote.
pub const PREVIOUS_PARAMETER_COUNTS: [usize; 2] = [9, 10];

/// The four little-endian bytes of a word.
pub open spec fn word_bytes(w: u32) -> Seq<u8> {
    seq![
        (w % 0x100) as u8,
        (w / 0x100 % 0x100) as u8,
        (w / 0x1_0000 % 0x100) as u8,
        (w / 0x100_0000) as u8,
    ]
}

/// The bytes of a sequence of words, word after word.
pub open spec fn encode(s: Seq<u32>) -> Seq<u8> {
    Seq::new(4 * s.len(), |i: int| word_bytes(s[i / 4])[i % 4])
}

/// The word whose little-endian bytes start at byte `4 * k`.
pub open spec fn word_at(b: Seq<u8>, k: int) -> u32 {
    (b[4 * k] + 0x100 * b[4 * k + 1] + 0x1_0000 * b[4 * k + 2] + 0x100_0000 * b[4 * k + 3]) as u32
}

/// The whole words a block of bytes holds.
pub open spec fn decode(b: Seq<u8>) -> Seq<u32> {
    Seq::new(b.len() / 4, |k: int| word_at(b, k))
}

/// Whether `count` values make up a layout this build or an earlier one wrote.
pub open spec fn known_count(count: int) -> bool {
    count == PARAMETER_COUNT || count == PREVIOUS_PARAMETER_COUNTS[0]
        || count == PREVIOUS_PARAMETER_COUNTS[1]
}

/// The settings a saved block restores, or `None` where it is refused whole:
/// a length that is not a whole number of words, a count of words no layout
/// has, or a value outside its parameter's range.
pub open spec fn spec_load_state(b: Seq<u8>) -> Option<Seq<u32>> {
    if b.len() % 4 == 0 && known_count((b.len() / 4) as int) && acceptable(decode(b)) {
        Some(overlay(decode(b)))
    } else {
        None
    }
}

/// A word's four bytes read back as the word.
pub proof fn lemma_word_round_trip(w: u32)
    ensures
        word_at(word_bytes(w), 0) == w,
{
    assert(((w % 0x100) as u8) as u32 + 0x100 * (((w / 0x100 % 0x100) as u8) as u32) + 0x1_0000 * (
    ((w / 0x1_0000 % 0x100) as u8) as u32) + 0x100_0000 * (((w / 0x100_0000) as u8) as u32) == w)
        by (bit_vector);
}

/// The bytes of a word, lowest first, by shifting.
proof fn lemma_word_bytes_are_shifts(w: u32)
    ensures
        word_bytes(w)[0] == (w & 0xFF) as u8,
        word_bytes(w)[1] == ((w >> 8) & 0xFF) as u8,
        word_bytes(w)[2] == ((w >> 16) & 0xFF) as u8,
        word_bytes(w)[3] == ((w >> 24) & 0xFF) as u8,
{
    assert(((w % 0x100) as u8 == (w & 0xFF) as u8) && ((w / 0x100 % 0x100) as u8 == ((w >> 8)
        & 0xFF) as u8) && ((w / 0x1_0000 % 0x100) as u8 == ((w >> 16) & 0xFF) as u8) && ((w
        / 0x100_0000) as u8 == ((w >> 24) & 0xFF) as u8)) by (bit_vector);
}

/// The saved layout: the word of parameter `i` stands at bytes `4 * i` to
/// `4 * i + 3`, lowest byte first, in parameter order.
pub proof fn lemma_saved_layout(s: Seq<u32>, i: int)
    requires
        0 <= i < s.len(),
    ensures
        encode(s).len() == 4 * s.len(),
        encode(s)[4 * i] == (s[i] & 0xFF) as u8,
        encode(s)[4 * i + 1] == ((s[i] >> 8) & 0xFF) as u8,
        encode(s)[4 * i + 2] == ((s[i] >> 16) & 0xFF) as u8,
        encode(s)[4 * i + 3] == ((s[i] >> 24) & 0xFF) as u8,
{
    lemma_word_bytes_are_shifts(s[i]);
    assert((4 * i) / 4 == i && (4 * i) % 4 == 0);
    assert((4 * i + 1) / 4 == i && (4 * i + 1) % 4 == 1);
    assert((4 * i + 2) / 4 == i && (4 * i + 2) % 4 == 2);
    assert((4 * i + 3) / 4 == i && (4 * i + 3) % 4 == 3);
}

/// The loaded layout: word `k` of a block is read from bytes `4 * k` to
/// `4 * k + 3`, lowest byte first.
pub proof fn lemma_loaded_layout(b: Seq<u8>, k: int)
    requires
        0 <= k < b.len() / 4,
    ensures
        decode(b).len() == b.len() / 4,
        decode(b)[k] == (b[4 * k] as u32) | ((b[4 * k + 1] as u32) << 8) | ((b[4 * k + 2] as u32)
            << 16) | ((b[4 * k + 3] as u32) << 24),
{
    let x0 = b[4 * k];
    let x1 = b[4 * k + 1];
    let x2 = b[4 * k + 2];
    let x3 = b[4 * k + 3];
    assert((x0 + 0x100 * x1 + 0x1_0000 * x2 + 0x100_0000 * x3) as u32 == (x0 as u32) | ((x1 as u32)
        << 8) | ((x2 as u32) << 16) | ((x3 as u32) << 24)) by (bit_vector);
}

/// What a loaded block restores: parameter `i` is the word at bytes `4 * i`
/// to `4 * i + 3` where the block holds one, and its default otherwise.
pub proof fn lemma_loaded_values(b: Seq<u8>, i: int)
    requires
        spec_load_state(b) is Some,
        0 <= i < PARAMETER_COUNT,
    ensures
        i < b.len() / 4 ==> spec_load_state(b)->0[i] == (b[4 * i] as u32) | ((b[4 * i + 1] as u32)
            << 8) | ((b[4 * i + 2] as u32) << 16) | ((b[4 * i + 3] as u32) << 24),
        i >= b.len() / 4 ==> spec_load_state(b)->0[i] == crate::parameters::spec_default(i),
{
    if i < b.len() / 4 {
        lemma_loaded_layout(b, i);
    }
}

/// Encoding then decoding gives back the words.
pub proof fn lemma_decode_encode(s: Seq<u32>)
    ensures
        decode(encode(s)) == s,
{
    let b = encode(s);
    assert forall|k: int| 0 <= k < s.len() implies #[trigger] word_at(b, k) == s[k] by {
        lemma_word_round_trip(s[k]);
        assert(b[4 * k] == word_bytes(s[k])[0]);
        assert(b[4 * k + 1] == word_bytes(s[k])[1]);
        assert(b[4 * k + 2] == word_bytes(s[k])[2]);
        assert(b[4 * k + 3] == word_bytes(s[k])[3]);
    }
    assert(decode(b) =~= s);
}

/// What one build saves, the same build loads back unchanged.
pub proof fn lemma_state_round_trip(s: Seq<u32>)
    requires
        valid(s),
    ensures
        spec_load_state(encode(s)) == Some(s),
{
    lemma_decode_encode(s);
    crate::settings::lemma_overlay_valid(s);
}

/// A block an earlier build wrote restores its values and leaves every
/// parameter added since at its default.
pub proof fn lemma_earlier_layout_loads(values: Seq<u32>)
    requires
        values.len() == PREVIOUS_PARAMETER_COUNTS[0] || values.len() == PREVIOUS_PARAMETER_COUNTS[1],
        acceptable(values),
    ensures
        spec_load_state(encode(values)) == Some(overlay(values)),
{
    lemma_decode_encode(values);
}

/// Writes the state into the front of `destination` and answers how many
/// bytes it wrote; `None`, with nothing written, where it does not fit.
pub fn save_state(settings: &Settings, destination: &mut [u8]) -> (r: Option<usize>)
    ensures
        final(destination)@.len() == old(destination)@.len(),
        old(destination)@.len() < STATE_BYTES ==> r is None && final(destination)@ == old(
            destination,
        )@,
        old(destination)@.len() >= STATE_BYTES ==> r == Some(STATE_BYTES) && final(destination)@
            == encode(settings@) + old(destination)@.subrange(
            STATE_BYTES as int,
            old(destination)@.len() as int,
        ),
{
    if destination.len() < STATE_BYTES {
        return None;
    }
    let words = settings.as_array();
    let mut k: usize = 0;
    while k < PARAMETER_COUNT
        invariant
            k <= PARAMETER_COUNT,
            words@ == settings@,
            words@.len() == PARAMETER_COUNT,
            destination@.len() == old(destination)@.len(),
            old(destination)@.len() >= STATE_BYTES,
            forall|i: int| 0 <= i < 4 * k ==> destination@[i] == #[trigger] encode(settings@)[i],
            forall|i: int|
                4 * k <= i < destination@.len() ==> destination@[i] == old(destination)@[i],
        decreases PARAMETER_COUNT - k,
    {
        let w = words[k];
        destination[4 * k] = (w % 0x100) as u8;
        destination[4 * k + 1] = (w / 0x100 % 0x100) as u8;
        destination[4 * k + 2] = (w / 0x1_0000 % 0x100) as u8;
        destination[4 * k + 3] = (w / 0x100_0000) as u8;
        assert forall|i: int| 4 * k <= i < 4 * k + 4 implies destination@[i]
            == #[trigger] encode(settings@)[i] by {
            assert(i / 4 == k);
        }
        k = k + 1;
    }
    assert(destination@ =~= encode(settings@) + old(destination)@.subrange(
        STATE_BYTES as int,
        old(destination)@.len() as int,
    ));
    Some(STATE_BYTES)
}

/// Restores a saved block, including one written by an earlier build.
/// Its length identifies its layout; anything else is refused whole.
pub fn load_state(state: &[u8]) -> (r: Option<Settings>)
    ensures
        r is Some <==> spec_load_state(state@) is Some,
        r matches Some(s) ==> spec_load_state(state@) == Some(s@),
{
    if state.len() % 4 != 0 {
        return None;
    }
    let count = state.len() / 4;
    if count != PARAMETER_COUNT && count != PREVIOUS_PARAMETER_COUNTS[0]
        && count != PREVIOUS_PARAMETER_COUNTS[1] {
        return None;
    }
    let mut words: Vec<u32> = Vec::new();
    let mut k: usize = 0;
    while k < count
        invariant
            count == state@.len() / 4,
            count <= PARAMETER_COUNT,
            k <= count,
            words@ == decode(state@).take(k as int),
        decreases count - k,
    {
        let w = state[4 * k] as u32 + 0x100 * (state[4 * k + 1] as u32) + 0x1_0000 * (
        state[4 * k + 2] as u32) + 0x100_0000 * (state[4 * k + 3] as u32);
        words.push(w);
        assert(words@ =~= decode(state@).take(k + 1));
        k = k + 1;
    }
    assert(words@ =~= decode(state@));
    Settings::from_slice(words.as_slice())
}

} // verus!
