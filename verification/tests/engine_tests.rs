use myshenyatko::adjust::{adjust, toggle};
use myshenyatko::engine::{App, DiffEntry, Effect, Message, ViewMode, catalog_ok};
use myshenyatko::settings::{
    Constraint, FloatRange, IntRange, SettingDef, SettingGroup, SettingValue, Tab, ValueType,
};

fn float_def(id: &str, min: i64, max: i64, step: i64, group: SettingGroup) -> SettingDef {
    SettingDef {
        id: id.to_string(),
        domain: "com.example.host".to_string(),
        key: id.to_string(),
        value_type: ValueType::Float,
        constraint: Constraint::FloatRange(FloatRange { min, max, step }),
        description: format!("{id} description"),
        group,
        mirror_domains: Vec::new(),
        requires_logout: false,
        help: String::new(),
    }
}

fn options_def(id: &str, opts: &[&str], group: SettingGroup) -> SettingDef {
    SettingDef {
        id: id.to_string(),
        domain: "com.example.host".to_string(),
        key: id.to_string(),
        value_type: ValueType::Str,
        constraint: Constraint::StringOptions(opts.iter().map(|o| o.to_string()).collect()),
        description: format!("{id} description"),
        group,
        mirror_domains: Vec::new(),
        requires_logout: false,
        help: String::new(),
    }
}

fn bool_def(id: &str, group: SettingGroup, requires_logout: bool) -> SettingDef {
    SettingDef {
        id: id.to_string(),
        domain: "com.example.host".to_string(),
        key: id.to_string(),
        value_type: ValueType::Bool,
        constraint: Constraint::Unconstrained,
        description: format!("{id} description"),
        group,
        mirror_domains: Vec::new(),
        requires_logout,
        help: String::new(),
    }
}

fn single_float_app() -> App {
    // One Float setting with range [0.0, 3.0], step 0.1, live value 1.0,
    // written in hundredths.
    let defs = vec![float_def("m1", 0, 300, 10, SettingGroup::Mouse)];
    assert!(catalog_ok(&defs));
    App::new(
        defs,
        vec![true],
        vec![Some(SettingValue::Float(100))],
        Vec::new(),
    )
}

#[test]
fn adjust_right_three_times_reaches_one_point_three() {
    let mut app = single_float_app();
    app.update(Message::AdjustRight);
    app.update(Message::AdjustRight);
    app.update(Message::AdjustRight);
    assert_eq!(app.pending_changes[0], Some(SettingValue::Float(130)));
    let diffs: Vec<DiffEntry> = app.pending_diffs();
    assert_eq!(diffs.len(), 1);
    assert_eq!(diffs[0].index, 0);
    assert_eq!(app.settings_defs[diffs[0].index].id, "m1");
    assert_eq!(diffs[0].old_value, Some(SettingValue::Float(100)));
    assert_eq!(diffs[0].new_value, SettingValue::Float(130));
}

#[test]
fn repeated_adjust_never_exceeds_max() {
    let def = float_def("m1", 0, 300, 10, SettingGroup::Mouse);
    let mut current = SettingValue::Float(250);
    for _ in 0..20 {
        current = adjust(&def, &current, 1).unwrap();
    }
    assert_eq!(current, SettingValue::Float(300));
    for _ in 0..50 {
        current = adjust(&def, &current, -1).unwrap();
    }
    assert_eq!(current, SettingValue::Float(0));
}

#[test]
fn option_adjust_cycles_back() {
    let def = options_def("s1", &["a", "b", "c"], SettingGroup::Keyboard);
    let mut current = SettingValue::Str("b".to_string());
    for _ in 0..3 {
        current = adjust(&def, &current, 1).unwrap();
    }
    assert_eq!(current, SettingValue::Str("b".to_string()));
    for _ in 0..3 {
        current = adjust(&def, &current, -1).unwrap();
    }
    assert_eq!(current, SettingValue::Str("b".to_string()));
}

#[test]
fn adjust_unknown_option_yields_nothing() {
    let def = options_def("s1", &["a", "b", "c"], SettingGroup::Keyboard);
    assert!(adjust(&def, &SettingValue::Str("zz".to_string()), 1).is_none());
    assert!(toggle(&def, &SettingValue::Str("zz".to_string())).is_none());
}

#[test]
fn toggle_bool_twice_returns_original() {
    let def = bool_def("b1", SettingGroup::Mouse, false);
    let v = SettingValue::Bool(true);
    let once = toggle(&def, &v).unwrap();
    assert_eq!(once, SettingValue::Bool(false));
    let twice = toggle(&def, &once).unwrap();
    assert_eq!(twice, v);
}

#[test]
fn toggle_cycles_string_options() {
    // Options ["a","b","c"], live "a": three toggles walk b, c, a.
    let defs = vec![options_def("s1", &["a", "b", "c"], SettingGroup::Mouse)];
    assert!(catalog_ok(&defs));
    let mut app = App::new(
        defs,
        vec![true],
        vec![Some(SettingValue::Str("a".to_string()))],
        Vec::new(),
    );
    app.update(Message::Toggle);
    assert_eq!(app.pending_changes[0], Some(SettingValue::Str("b".to_string())));
    app.update(Message::Toggle);
    assert_eq!(app.pending_changes[0], Some(SettingValue::Str("c".to_string())));
    app.update(Message::Toggle);
    assert_eq!(app.pending_changes[0], Some(SettingValue::Str("a".to_string())));
}

#[test]
fn open_review_with_nothing_pending_stays_on_settings() {
    let mut app = single_float_app();
    app.update(Message::OpenReview);
    assert_eq!(app.view, ViewMode::Settings);
}

#[test]
fn open_review_with_pending_changes_moves_to_review() {
    let mut app = single_float_app();
    app.update(Message::AdjustRight);
    app.update(Message::OpenReview);
    assert_eq!(app.view, ViewMode::Review);
}

#[test]
fn cancel_review_discards_pending() {
    let mut app = single_float_app();
    app.update(Message::AdjustRight);
    app.update(Message::OpenReview);
    app.update(Message::CancelReview);
    assert_eq!(app.view, ViewMode::Settings);
    assert!(app.pending_diffs().is_empty());
    assert_eq!(app.pending_change_count(), 0);
    assert_eq!(app.status_message.as_deref(), Some("Changes discarded"));
}

#[test]
fn apply_all_success_moves_pending_to_live() {
    let mut app = single_float_app();
    app.update(Message::AdjustRight);
    app.update(Message::OpenReview);
    let eff = app.update(Message::ApplyChanges);
    assert!(matches!(eff, Effect::ApplyPending));
    assert_eq!(app.view, ViewMode::Settings);
    app.apply_all(&vec![None]);
    assert_eq!(app.pending_change_count(), 0);
    assert_eq!(app.live_values[0], Some(SettingValue::Float(110)));
    assert_eq!(app.status_message.as_deref(), Some("1 settings applied"));
}

#[test]
fn apply_all_failure_still_discards_pending() {
    let mut app = single_float_app();
    app.update(Message::AdjustRight);
    app.update(Message::OpenReview);
    app.update(Message::ApplyChanges);
    app.apply_all(&vec![Some("write refused".to_string())]);
    assert_eq!(app.pending_change_count(), 0);
    assert_eq!(app.live_values[0], Some(SettingValue::Float(100)));
    let status = app.status_message.clone().unwrap();
    assert!(status.contains("1 failed"));
    assert!(status.contains("write refused"));
}

#[test]
fn deleting_last_profile_clamps_cursor_to_zero() {
    let defs = vec![float_def("m1", 0, 300, 10, SettingGroup::Mouse)];
    let mut app = App::new(
        defs,
        vec![true],
        vec![None],
        vec!["only".to_string()],
    );
    app.update(Message::OpenProfiles);
    app.set_profile_names(vec!["only".to_string()]);
    let eff = app.update(Message::DeleteProfile);
    match eff {
        Effect::RemoveProfile(name) => assert_eq!(name, "only"),
        _ => panic!("expected a profile removal"),
    }
    app.set_profile_names(Vec::new());
    assert_eq!(app.profile_selected, 0);
    assert!(app.profile_names.is_empty());
}

#[test]
fn navigation_clamps_at_both_ends() {
    let defs = vec![
        float_def("m1", 0, 300, 10, SettingGroup::Mouse),
        bool_def("m2", SettingGroup::Mouse, false),
    ];
    assert!(catalog_ok(&defs));
    let mut app = App::new(defs, vec![true, true], vec![None, None], Vec::new());
    app.update(Message::NavigateUp);
    assert_eq!(app.selected_row, 0);
    app.update(Message::NavigateDown);
    assert_eq!(app.selected_row, 1);
    app.update(Message::NavigateDown);
    assert_eq!(app.selected_row, 1);
}

#[test]
fn int_range_adjust_clamps() {
    let def = SettingDef {
        id: "i1".to_string(),
        domain: "com.example.host".to_string(),
        key: "i1".to_string(),
        value_type: ValueType::Int,
        constraint: Constraint::IntRange(IntRange { min: 1, max: 3 }),
        description: "i1".to_string(),
        group: SettingGroup::Keyboard,
        mirror_domains: Vec::new(),
        requires_logout: false,
        help: String::new(),
    };
    let up = adjust(&def, &SettingValue::Int(3), 1).unwrap();
    assert_eq!(up, SettingValue::Int(3));
    let down = adjust(&def, &SettingValue::Int(2), -1).unwrap();
    assert_eq!(down, SettingValue::Int(1));
}

#[test]
fn unmatched_intent_is_a_noop() {
    let mut app = single_float_app();
    app.update(Message::CancelReview);
    app.update(Message::ApplyChanges);
    app.update(Message::TypeChar('x'));
    assert_eq!(app.view, ViewMode::Settings);
    assert_eq!(app.pending_change_count(), 0);
    assert!(app.input_buffer.is_empty());
    assert!(app.status_message.is_none());
}

#[test]
fn tab_cycle_is_circular() {
    let mut t = Tab::Mouse;
    for _ in 0..5 {
        t = t.next();
    }
    assert_eq!(t, Tab::Mouse);
    assert_eq!(Tab::Mouse.prev(), Tab::Keyboard);
    assert_eq!(Tab::Keyboard.next(), Tab::Mouse);
}

#[test]
fn visible_settings_respects_tab_and_availability() {
    let defs = vec![
        float_def("m1", 0, 300, 10, SettingGroup::Mouse),
        bool_def("k1", SettingGroup::Keyboard, false),
        bool_def("m2", SettingGroup::Mouse, false),
    ];
    assert!(catalog_ok(&defs));
    let mut app = App::new(
        defs,
        vec![true, true, false],
        vec![None, None, None],
        Vec::new(),
    );
    assert_eq!(app.visible_settings(), vec![0]);
    app.update(Message::NextTab);
    assert_eq!(app.tab, Tab::Trackpad);
    assert!(app.visible_settings().is_empty());
}

#[test]
fn any_requires_logout_tracks_definitions() {
    let defs = vec![
        bool_def("quiet", SettingGroup::Mouse, false),
        bool_def("deep", SettingGroup::Mouse, true),
    ];
    let mut app = App::new(
        defs,
        vec![true, true],
        vec![Some(SettingValue::Bool(false)), Some(SettingValue::Bool(false))],
        Vec::new(),
    );
    assert!(!app.any_requires_logout());
    app.update(Message::NavigateDown);
    app.update(Message::Toggle);
    assert!(app.any_requires_logout());
}

#[test]
fn effective_value_prefers_pending_then_live() {
    let mut app = single_float_app();
    assert_eq!(app.effective_value(0), Some(&SettingValue::Float(100)));
    app.update(Message::AdjustLeft);
    assert_eq!(app.effective_value(0), Some(&SettingValue::Float(90)));
}

#[test]
fn name_entry_edits_buffer() {
    let mut app = single_float_app();
    app.update(Message::AdjustRight);
    app.update(Message::OpenReview);
    app.update(Message::SaveProfile);
    assert_eq!(app.view, ViewMode::ProfileNameInput);
    app.update(Message::TypeChar('h'));
    app.update(Message::TypeChar('i'));
    app.update(Message::Backspace);
    app.update(Message::TypeChar('o'));
    let eff = app.update(Message::ConfirmInput);
    match eff {
        Effect::StoreProfile(p) => {
            assert_eq!(p.name, "ho");
            assert_eq!(p.settings.len(), 1);
            assert_eq!(p.settings[0].0, "m1");
            assert_eq!(p.settings[0].1, SettingValue::Float(110));
        }
        _ => panic!("expected a profile to store"),
    }
    assert_eq!(app.view, ViewMode::Settings);
}

#[test]
fn pending_diffs_sorted_by_id() {
    let defs = vec![
        bool_def("zz", SettingGroup::Mouse, false),
        bool_def("aa", SettingGroup::Mouse, false),
    ];
    let mut app = App::new(
        defs,
        vec![true, true],
        vec![Some(SettingValue::Bool(false)), Some(SettingValue::Bool(false))],
        Vec::new(),
    );
    app.update(Message::Toggle);
    app.update(Message::NavigateDown);
    app.update(Message::Toggle);
    let diffs = app.pending_diffs();
    assert_eq!(diffs.len(), 2);
    assert_eq!(app.settings_defs[diffs[0].index].id, "aa");
    assert_eq!(app.settings_defs[diffs[1].index].id, "zz");
}

#[test]
fn noop_edit_produces_no_diff() {
    // Staging the live value back is not a diff.
    let defs = vec![bool_def("b1", SettingGroup::Mouse, false)];
    let mut app = App::new(
        defs,
        vec![true],
        vec![Some(SettingValue::Bool(true))],
        Vec::new(),
    );
    app.update(Message::Toggle);
    app.update(Message::Toggle);
    assert_eq!(app.pending_change_count(), 1);
    assert!(app.pending_diffs().is_empty());
}
