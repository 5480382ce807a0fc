use deepseek_tui_modes::config::{CustomPreset, RawConfig};
use deepseek_tui_modes::config_edit::EditOutcome;

fn preset() -> CustomPreset {
    CustomPreset {
        base: None,
        agency: Some("inspector".to_string()),
        quality: Some("architect".to_string()),
        scope: Some("narrow".to_string()),
        modifiers: vec!["explain".to_string()],
        readonly: false,
        context_pacing: false,
    }
}

#[test]
fn test_add_default_no_duplicate() {
    let mut config = RawConfig::default();
    config.default_modifiers.push("readonly".to_string());

    // Adding the same default again does not duplicate it
    assert_eq!(config.add_default("readonly").unwrap(), EditOutcome::Unchanged);
    assert_eq!(config.default_modifiers.len(), 1);
}

#[test]
fn test_remove_default_not_found_errors() {
    let mut config = RawConfig::default();
    config.default_modifiers.push("readonly".to_string());
    let err = config.remove_default("nonexistent").unwrap_err();
    assert_eq!(err, "'nonexistent' is not in default modifiers");
    assert_eq!(config.default_modifiers, vec!["readonly"]);
}

#[test]
fn add_and_remove_default() {
    let mut config = RawConfig::default();
    assert_eq!(config.add_default("tdd").unwrap(), EditOutcome::Changed);
    assert_eq!(config.add_default("bold").unwrap(), EditOutcome::Changed);
    assert_eq!(config.default_modifiers, vec!["tdd", "bold"]);
    assert_eq!(config.remove_default("tdd").unwrap(), EditOutcome::Changed);
    assert_eq!(config.default_modifiers, vec!["bold"]);
}

#[test]
fn add_modifier_rules() {
    let mut config = RawConfig::default();
    assert_eq!(
        config.add_modifier("readonly", "/tmp/x.md").unwrap_err(),
        "'readonly' collides with a built-in modifier name"
    );
    assert_eq!(
        config.add_modifier("my-mod", "/tmp/haiku.md").unwrap(),
        EditOutcome::Changed
    );
    assert_eq!(config.modifiers.get("my-mod").unwrap(), "/tmp/haiku.md");
    assert_eq!(
        config.add_modifier("my-mod", "/tmp/other.md").unwrap_err(),
        "Modifier 'my-mod' already exists"
    );
    assert_eq!(config.remove_modifier("my-mod").unwrap(), EditOutcome::Changed);
    assert!(config.modifiers.is_empty());
    assert_eq!(
        config.remove_modifier("my-mod").unwrap_err(),
        "Modifier 'my-mod' not found"
    );
}

#[test]
fn add_axis_rules() {
    let mut config = RawConfig::default();
    assert_eq!(
        config.add_axis("tone", "calm", "/tmp/calm.md").unwrap_err(),
        "Invalid axis 'tone'. Must be 'agency', 'quality', or 'scope'"
    );
    assert_eq!(
        config.add_axis("agency", "surgical", "/tmp/s.md").unwrap_err(),
        "'surgical' collides with a built-in agency value"
    );
    assert_eq!(
        config.add_axis("agency", "inspector", "/tmp/inspector.md").unwrap(),
        EditOutcome::Changed
    );
    assert_eq!(
        config.axes.agency.get("inspector").unwrap(),
        "/tmp/inspector.md"
    );
    assert!(config.axes.quality.is_empty());
    assert_eq!(
        config.remove_axis("quality", "inspector").unwrap_err(),
        "quality value 'inspector' not found"
    );
    assert_eq!(
        config.remove_axis("mood", "inspector").unwrap_err(),
        "Invalid axis 'mood'. Must be 'agency', 'quality', or 'scope'"
    );
    assert_eq!(
        config.remove_axis("agency", "inspector").unwrap(),
        EditOutcome::Changed
    );
    assert!(config.axes.agency.is_empty());
}

#[test]
fn add_preset_rules() {
    let mut config = RawConfig::default();
    assert_eq!(
        config.add_preset("create", preset()).unwrap_err(),
        "'create' collides with a built-in preset name"
    );
    assert_eq!(config.add_preset("careful", preset()).unwrap(), EditOutcome::Changed);
    let p = config.presets.get("careful").unwrap();
    assert_eq!(p.agency.as_deref(), Some("inspector"));
    assert_eq!(p.quality.as_deref(), Some("architect"));
    assert_eq!(p.scope.as_deref(), Some("narrow"));
    assert_eq!(p.modifiers, vec!["explain"]);
    // replacing is allowed
    let mut other = preset();
    other.readonly = true;
    assert_eq!(config.add_preset("careful", other).unwrap(), EditOutcome::Changed);
    assert!(config.presets.get("careful").unwrap().readonly);
    assert_eq!(config.remove_preset("careful").unwrap(), EditOutcome::Changed);
    assert_eq!(
        config.remove_preset("careful").unwrap_err(),
        "Preset 'careful' not found"
    );
}
