use rf_limiter::index::{AUTO_RELEASE, CEILING, INPUT, LINK, LOOKAHEAD, RELEASE};
use rf_limiter::preset::{presets, settings_for};

#[test]
fn every_preset_loads_and_stays_inside_the_contract() {
    for preset in presets().iter() {
        assert!(
            settings_for(preset.id).is_some(),
            "{} does not load",
            preset.id
        );
    }
    assert!(settings_for("nowhere").is_none());
}

#[test]
fn preset_identifiers_are_unique() {
    let presets = presets();
    for (position, preset) in presets.iter().enumerate() {
        for other in &presets[position + 1..] {
            assert_ne!(preset.id, other.id);
        }
    }
}

#[test]
fn every_preset_loads() {
    for preset in presets().iter() {
        assert!(settings_for(preset.id).is_some(), "{}", preset.id);
    }
    assert!(settings_for("nowhere").is_none());
}

#[test]
fn a_preset_lays_its_values_over_the_defaults() {
    let stage = settings_for("stage").unwrap();
    assert_eq!(f32::from_bits(stage.value(INPUT)), 3.0);
    assert_eq!(f32::from_bits(stage.value(CEILING)), -0.3);
    assert_eq!(f32::from_bits(stage.value(LOOKAHEAD)), 3.0);
    assert_eq!(f32::from_bits(stage.value(RELEASE)), 100.0);
    assert!(stage.engaged(AUTO_RELEASE));

    let broadcast = settings_for("broadcast").unwrap();
    assert_eq!(f32::from_bits(broadcast.value(CEILING)), -1.0);
    assert!(!broadcast.engaged(LINK));
    assert_eq!(f32::from_bits(broadcast.value(RELEASE)), 40.0);
    assert!(!broadcast.engaged(AUTO_RELEASE));

    let transparent = settings_for("transparent").unwrap();
    assert_eq!(transparent.as_array(), rf_limiter::settings::Settings::default().as_array());
}

#[test]
fn preset_lookup_is_exact() {
    assert!(settings_for("Stage").is_none());
    assert!(settings_for("stage ").is_none());
    assert!(settings_for("").is_none());
}

#[test]
fn the_catalogue_names_each_preset() {
    let all = presets();
    assert_eq!(all.len(), rf_limiter::preset::PRESET_COUNT);
    let names: Vec<&str> = all.iter().map(|preset| preset.name).collect();
    assert_eq!(names, vec!["Transparent", "Stage", "Safety", "Broadcast"]);
    assert!(rf_limiter::preset::preset(4).is_none());
}
