use myshenyatko::codec::{export_profile, import_profile};
use myshenyatko::profile::{Profile, profile_path};
use myshenyatko::settings::SettingValue;

fn sample_profile() -> Profile {
    Profile::new(
        "evening setup".to_string(),
        vec![
            ("mouse.speed".to_string(), SettingValue::Float(175)),
            ("natural.scroll".to_string(), SettingValue::Bool(true)),
            ("key.repeat".to_string(), SettingValue::Int(2)),
            ("click.mode".to_string(), SettingValue::Str("OneFinger".to_string())),
        ],
    )
}

#[test]
fn export_import_round_trip() {
    let p = sample_profile();
    let text = export_profile(&p);
    let q = import_profile(&text).expect("re-importing an exported profile");
    assert_eq!(q.name, p.name);
    assert_eq!(q.created_at, p.created_at);
    assert_eq!(q.settings, p.settings);
}

#[test]
fn round_trip_keeps_awkward_text() {
    let p = Profile {
        name: "spaces and : colons".to_string(),
        created_at: -5,
        settings: vec![(
            "id with = signs".to_string(),
            SettingValue::Str("value;with:everything=".to_string()),
        )],
    };
    let text = export_profile(&p);
    let q = import_profile(&text).expect("re-importing an exported profile");
    assert_eq!(q.name, p.name);
    assert_eq!(q.created_at, p.created_at);
    assert_eq!(q.settings, p.settings);
}

#[test]
fn round_trip_empty_profile() {
    let p = Profile {
        name: String::new(),
        created_at: 0,
        settings: Vec::new(),
    };
    let text = export_profile(&p);
    let q = import_profile(&text).expect("re-importing an exported profile");
    assert_eq!(q.name, "");
    assert_eq!(q.settings.len(), 0);
}

#[test]
fn round_trip_keeps_unicode_text() {
    let p = Profile {
        name: "café détente".to_string(),
        created_at: 1700000000,
        settings: vec![(
            "emoji.id".to_string(),
            SettingValue::Str("snowman ☃ here".to_string()),
        )],
    };
    let text = export_profile(&p);
    let q = import_profile(&text).expect("re-importing an exported profile");
    assert_eq!(q.name, p.name);
    assert_eq!(q.settings, p.settings);
}

#[test]
fn import_rejects_garbage() {
    assert!(import_profile("").is_none());
    assert!(import_profile("not a profile").is_none());
    assert!(import_profile("MSP:9999:oops").is_none());
}

#[test]
fn profile_path_sanitizes_names() {
    assert_eq!(profile_path("my profile!"), "my_profile_.json");
    assert_eq!(profile_path("safe-name_01"), "safe-name_01.json");
    assert_eq!(profile_path(""), ".json");
    assert_eq!(profile_path("café"), "café.json");
}

#[test]
fn display_strings_match_formats() {
    assert_eq!(SettingValue::Float(130).display_string(), "1.3");
    assert_eq!(SettingValue::Float(-25).display_string(), "-0.3");
    assert_eq!(SettingValue::Bool(true).display_string(), "On");
    assert_eq!(SettingValue::Bool(false).display_string(), "Off");
    assert_eq!(SettingValue::Int(-12).display_string(), "-12");
    assert_eq!(
        SettingValue::Str("hello".to_string()).display_string(),
        "hello"
    );
}
