use rf_limiter::index::{CEILING, DELTA_LISTEN, INPUT_LEVEL, LINK, OUTPUT_LEVEL};
use rf_limiter::settings::Settings;
use rf_limiter::state::{load_state, save_state, STATE_BYTES};

#[test]
fn state_round_trips_and_a_bad_length_is_refused() {
    let mut settings = Settings::default();
    assert!(settings.set(CEILING, (-4.5_f32).to_bits()));
    assert!(settings.set(LINK, 0.0_f32.to_bits()));
    let mut block = [0_u8; STATE_BYTES];
    assert_eq!(save_state(&settings, &mut block), Some(STATE_BYTES));
    let other = load_state(&block).unwrap();
    assert_eq!(other.get(CEILING).map(f32::from_bits), Some(-4.5));
    assert_eq!(other.get(LINK).map(f32::from_bits), Some(0.0));
    assert!(load_state(&block[..7]).is_none());
    assert!(load_state(&block[..8]).is_none());
}

#[test]
fn version_one_state_loads_with_delta_off_and_live_meters_at_rest() {
    let defaults = Settings::default().as_array();
    let mut old = [0_u8; 9 * 4];
    for (slot, value) in old.chunks_mut(4).zip(defaults) {
        slot.copy_from_slice(&value.to_le_bytes());
    }
    let settings = load_state(&old).unwrap();
    assert_eq!(settings.get(DELTA_LISTEN).map(f32::from_bits), Some(0.0));
    assert_eq!(settings.get(INPUT_LEVEL).map(f32::from_bits), Some(-60.0));
    assert_eq!(settings.get(OUTPUT_LEVEL).map(f32::from_bits), Some(-60.0));
}

#[test]
fn the_state_is_the_little_endian_words_in_index_order() {
    let settings = Settings::default();
    let mut block = [0xAA_u8; STATE_BYTES + 3];
    assert_eq!(save_state(&settings, &mut block), Some(STATE_BYTES));
    assert_eq!(&block[4..8], &(-1.0_f32).to_le_bytes());
    assert_eq!(&block[8..12], &100.0_f32.to_le_bytes());
    assert_eq!(&block[STATE_BYTES..], &[0xAA, 0xAA, 0xAA]);
}

#[test]
fn a_destination_too_short_is_left_alone() {
    let settings = Settings::default();
    let mut block = [7_u8; STATE_BYTES - 1];
    assert_eq!(save_state(&settings, &mut block), None);
    assert!(block.iter().all(|byte| *byte == 7));
}

#[test]
fn a_layout_no_build_wrote_is_refused() {
    let defaults = Settings::default().as_array();
    let mut bytes = Vec::new();
    for value in defaults {
        bytes.extend_from_slice(&value.to_le_bytes());
    }
    assert!(load_state(&bytes[..11 * 4]).is_none());
    assert!(load_state(&bytes[..10 * 4]).is_some());
    assert!(load_state(&bytes[..9 * 4]).is_some());
    assert!(load_state(&[]).is_none());
    bytes.extend_from_slice(&0.0_f32.to_le_bytes());
    assert!(load_state(&bytes).is_none());
}

#[test]
fn a_value_outside_its_range_refuses_the_whole_block() {
    let mut bytes = Vec::new();
    for value in Settings::default().as_array() {
        bytes.extend_from_slice(&value.to_le_bytes());
    }
    bytes[4..8].copy_from_slice(&3.0_f32.to_le_bytes());
    assert!(load_state(&bytes).is_none());
}
