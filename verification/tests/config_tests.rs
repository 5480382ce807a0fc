use std::path::PathBuf;

use deepseek_tui_modes::config::{resolve_relative_path, Config, CustomPreset, RawConfig};
use deepseek_tui_modes::config_edit::EditOutcome;

#[test]
fn load_empty_default() {
    let config = Config::default();
    assert!(config.default_base.is_none());
    assert!(config.default_modifiers.is_empty());
    assert!(config.bases.is_empty());
    assert!(config.modifiers.is_empty());
    assert!(config.axes.agency.is_empty());
    assert!(config.axes.quality.is_empty());
    assert!(config.axes.scope.is_empty());
    assert!(config.presets.is_empty());
}

#[test]
fn from_raw_resolves_relative_paths() {
    let mut raw = RawConfig::default();
    raw.modifiers
        .insert("mymod".to_string(), "relative/path/haiku.md".to_string());
    raw.bases
        .insert("mybase".to_string(), "relative/base".to_string());
    let dir = PathBuf::from("/home/user/project");
    let config = Config::from_raw(raw, Some(dir.to_str().unwrap().to_string()));
    assert_eq!(
        PathBuf::from(config.modifiers.get("mymod").unwrap()),
        dir.join("relative/path/haiku.md")
    );
    assert_eq!(
        PathBuf::from(config.bases.get("mybase").unwrap()),
        dir.join("relative/base")
    );
}

#[test]
fn from_raw_keeps_absolute_paths() {
    let mut raw = RawConfig::default();
    raw.modifiers
        .insert("mymod".to_string(), "/absolute/path/haiku.md".to_string());
    let config = Config::from_raw(raw, Some("/somewhere".to_string()));
    assert_eq!(
        config.modifiers.get("mymod").unwrap(),
        "/absolute/path/haiku.md"
    );
}

#[test]
fn from_raw_keeps_everything_else() {
    let mut raw = RawConfig::default();
    raw.default_base = Some("standard".to_string());
    raw.default_modifiers = vec!["readonly".to_string()];
    raw.axes
        .agency
        .insert("custom-agent".to_string(), "agent.md".to_string());
    let preset = CustomPreset {
        base: Some("mybase".to_string()),
        agency: Some("custom-agent".to_string()),
        quality: Some("pragmatic".to_string()),
        scope: Some("narrow".to_string()),
        modifiers: vec!["my-mod".to_string()],
        readonly: false,
        context_pacing: true,
    };
    assert_eq!(
        raw.add_preset("custom-preset", preset).unwrap(),
        EditOutcome::Changed
    );
    let config = Config::from_raw(raw, Some("cfg".to_string()));
    assert_eq!(config.default_base.as_deref(), Some("standard"));
    assert_eq!(config.default_modifiers, vec!["readonly"]);
    assert_eq!(config.axes.agency.get("custom-agent").unwrap(), "cfg/agent.md");
    assert!(config.presets.contains_key("custom-preset"));
    assert_eq!(config.config_dir.as_deref(), Some("cfg"));
}

#[test]
fn relative_path_without_dir_is_unchanged() {
    assert_eq!(resolve_relative_path("a/b.md", None), "a/b.md");
    assert_eq!(resolve_relative_path("a/b.md", Some("")), "a/b.md");
    assert_eq!(resolve_relative_path("a/b.md", Some("/d/")), "/d/a/b.md");
    assert_eq!(resolve_relative_path("/x.md", Some("/d")), "/x.md");
    let once = resolve_relative_path("rel/x.md", Some("/d"));
    assert_eq!(resolve_relative_path(&once, Some("/d")), once);
}

#[test]
fn collisions_with_builtin_names_are_reported_but_kept() {
    let mut config = Config::default();
    config.modifiers.insert("readonly".to_string(), "/tmp/ro.md".to_string());
    config.modifiers.insert("mine".to_string(), "/tmp/mine.md".to_string());
    config.presets.insert(
        "safe".to_string(),
        CustomPreset {
            base: None,
            agency: Some("collaborative".to_string()),
            quality: Some("minimal".to_string()),
            scope: Some("narrow".to_string()),
            modifiers: vec![],
            readonly: false,
            context_pacing: false,
        },
    );
    assert_eq!(config.colliding_modifiers(), vec!["readonly"]);
    assert_eq!(config.colliding_presets(), vec!["safe"]);
    assert!(config.presets.contains_key("safe"));
    assert!(config.modifiers.contains_key("readonly"));
}
