use rf_limiter::index::{AUTO_RELEASE, CEILING, DELTA_LISTEN, INPUT, LINK, LOOKAHEAD, OUTPUT, RELEASE, TRUE_PEAK};
use rf_limiter::parameters::{parameter, parameter_index, parameters, PARAMETER_COUNT};
use rf_limiter::settings::Settings;
use rf_limiter::word::{at_most, key, nan};

fn word(value: f32) -> u32 {
    value.to_bits()
}

#[test]
fn words_order_as_their_numbers() {
    assert!(at_most(word(-24.0), word(-3.0)));
    assert!(!at_most(word(-3.0), word(-24.0)));
    assert!(at_most(word(-0.0), word(0.0)));
    assert!(at_most(word(0.0), word(-0.0)));
    assert!(at_most(word(1.5), word(f32::INFINITY)));
    assert!(!at_most(word(f32::NAN), word(1.0)));
    assert!(!at_most(word(1.0), word(f32::NAN)));
    assert!(nan(word(f32::NAN)));
    assert!(!nan(word(f32::INFINITY)));
    assert_eq!(key(word(-1.0)), -(word(1.0) as i64));
}

#[test]
fn the_defaults_are_the_documented_ones() {
    let defaults = Settings::default();
    assert_eq!(f32::from_bits(defaults.value(INPUT)), 0.0);
    assert_eq!(f32::from_bits(defaults.value(CEILING)), -1.0);
    assert_eq!(f32::from_bits(defaults.value(RELEASE)), 100.0);
    assert_eq!(f32::from_bits(defaults.value(LOOKAHEAD)), 2.0);
    assert_eq!(f32::from_bits(defaults.value(OUTPUT)), 0.0);
    assert!(defaults.engaged(AUTO_RELEASE));
    assert!(defaults.engaged(LINK));
    assert!(defaults.engaged(TRUE_PEAK));
    assert!(!defaults.engaged(DELTA_LISTEN));
}

#[test]
fn a_value_inside_the_range_is_set_and_read_back() {
    let mut settings = Settings::default();
    assert!(settings.set(CEILING, word(-4.5)));
    assert_eq!(settings.get(CEILING), Some(word(-4.5)));
    assert!(settings.set(CEILING, word(-20.0)));
    assert!(settings.set(CEILING, word(0.0)));
    assert!(settings.set(CEILING, word(-0.0)));
    assert!(settings.set(LINK, word(0.0)));
    assert!(!settings.engaged(LINK));
    assert!(settings.set(LINK, word(0.5)));
    assert!(settings.engaged(LINK));
}

#[test]
fn a_value_outside_the_range_is_refused_and_changes_nothing() {
    let mut settings = Settings::default();
    let before = settings.as_array();
    assert!(!settings.set(CEILING, word(0.5)));
    assert!(!settings.set(CEILING, word(-20.5)));
    assert!(!settings.set(INPUT, word(f32::NAN)));
    assert!(!settings.set(INPUT, word(f32::INFINITY)));
    assert!(!settings.set(RELEASE, word(5.0)));
    assert!(!settings.set(LOOKAHEAD, word(10.5)));
    assert!(!settings.set(12, word(0.0)));
    assert_eq!(settings.as_array(), before);
    assert_eq!(settings.get(12), None);
}

#[test]
fn from_slice_lays_values_over_the_defaults() {
    let settings = Settings::from_slice(&[word(6.0), word(-2.0)]).unwrap();
    assert_eq!(settings.value(INPUT), word(6.0));
    assert_eq!(settings.value(CEILING), word(-2.0));
    assert_eq!(settings.value(RELEASE), word(100.0));
    assert!(Settings::from_slice(&[word(6.0), word(2.0)]).is_none());
    assert!(Settings::from_slice(&[0; 13]).is_none());
    assert_eq!(Settings::from_slice(&[]).unwrap().as_array(), Settings::default().as_array());
}

#[test]
fn the_parameter_table_is_in_index_order() {
    let all = parameters();
    assert_eq!(all.len(), PARAMETER_COUNT);
    for (position, parameter) in all.iter().enumerate() {
        assert_eq!(parameter.index as usize, position);
        assert_eq!(parameter_index(parameter.id), Some(parameter.index));
        assert!(at_most(parameter.minimum, parameter.default));
        assert!(at_most(parameter.default, parameter.maximum));
    }
    assert_eq!(parameter(CEILING).unwrap().id, "limiter.ceiling");
    assert_eq!(parameter_index("limiter.lookahead"), Some(LOOKAHEAD));
    assert_eq!(parameter_index("limiter.nothing"), None);
    assert!(parameter(12).is_none());
}
