use deepseek_tui_modes::presets::{
    agency_values, builtin_modifiers, builtin_preset, builtin_presets, get_preset,
    quality_values, scope_values, AxisValues,
};

#[test]
fn test_collision_builtin_modifier() {
    assert!(builtin_modifiers().contains(&"readonly"));
    assert!(builtin_modifiers().contains(&"debug"));
    assert!(!builtin_modifiers().contains(&"custom-thing"));
}

#[test]
fn test_collision_builtin_preset() {
    assert!(builtin_presets().contains(&"safe"));
    assert!(builtin_presets().contains(&"create"));
    assert!(!builtin_presets().contains(&"custom-thing"));
}

#[test]
fn test_collision_builtin_axis_values() {
    assert!(agency_values().contains(&"autonomous"));
    assert!(agency_values().contains(&"collaborative"));
    assert!(!agency_values().contains(&"inspector"));

    assert!(quality_values().contains(&"architect"));
    assert!(quality_values().contains(&"minimal"));
    assert!(!quality_values().contains(&"custom-quality"));

    assert!(scope_values().contains(&"narrow"));
    assert!(scope_values().contains(&"unrestricted"));
    assert!(!scope_values().contains(&"custom-scope"));
}

fn axes(a: &str, q: &str, s: &str) -> AxisValues {
    AxisValues {
        agency: Some(a.to_string()),
        quality: Some(q.to_string()),
        scope: Some(s.to_string()),
    }
}

#[test]
fn preset_table_matches_readme() {
    let table = [
        ("safe", "collaborative", "minimal", "narrow", None),
        ("create", "autonomous", "architect", "unrestricted", None),
        ("extend", "autonomous", "pragmatic", "adjacent", None),
        ("refactor", "autonomous", "pragmatic", "unrestricted", None),
        ("explore", "collaborative", "architect", "narrow", Some("readonly")),
        ("debug", "collaborative", "pragmatic", "narrow", Some("debug")),
        ("methodical", "surgical", "architect", "narrow", Some("methodical")),
        ("director", "collaborative", "architect", "unrestricted", Some("director")),
        ("partner", "partner", "pragmatic", "adjacent", Some("speak-plain")),
        ("muse", "autonomous", "architect", "unrestricted", Some("muse")),
    ];
    for (name, a, q, s, m) in table {
        let p = builtin_preset(name).unwrap();
        let expected = axes(a, q, s);
        assert_eq!(p.axes.agency, expected.agency, "{name}");
        assert_eq!(p.axes.quality, expected.quality, "{name}");
        assert_eq!(p.axes.scope, expected.scope, "{name}");
        let mods: Vec<String> = m.into_iter().map(String::from).collect();
        assert_eq!(p.modifiers, mods, "{name}");
        let g = get_preset(name).unwrap();
        assert_eq!(g.agency, expected.agency);
    }
    let none = get_preset("none").unwrap();
    assert!(none.is_empty());
    assert!(get_preset("bogus").is_none());
    assert!(builtin_preset("Safe").is_none());
}

#[test]
fn every_listed_preset_exists() {
    for name in builtin_presets() {
        assert!(get_preset(name).is_some(), "{name}");
    }
    assert_eq!(builtin_presets().len(), 11);
}

#[test]
fn merge_overrides_only_set_axes() {
    let mut base = axes("autonomous", "architect", "narrow");
    let other = AxisValues {
        agency: None,
        quality: Some("minimal".to_string()),
        scope: None,
    };
    base.merge(&other);
    assert_eq!(base.agency.as_deref(), Some("autonomous"));
    assert_eq!(base.quality.as_deref(), Some("minimal"));
    assert_eq!(base.scope.as_deref(), Some("narrow"));
    // merging again changes nothing
    base.merge(&other);
    assert_eq!(base.quality.as_deref(), Some("minimal"));
    // merging nothing changes nothing
    base.merge(&AxisValues::default());
    assert_eq!(base.agency.as_deref(), Some("autonomous"));
    assert!(!base.is_empty());
    assert!(AxisValues::default().is_empty());
}
