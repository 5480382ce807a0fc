use std::path::PathBuf;

use deepseek_tui_modes::config::{Config, CustomPreset};
use deepseek_tui_modes::resolve::{
    build_available_presets, is_path_like, resolve, resolve_axis_value, resolve_base,
    resolve_modifier, resolve_modifier_list, resolve_preset, ResolveArgs, ResolveError,
};
use tempfile::tempdir;

fn empty_config() -> Config {
    Config::default()
}

fn test_prompts_dir() -> PathBuf {
    PathBuf::from("/test/prompts")
}

fn dir_str(p: &PathBuf) -> &str {
    p.to_str().unwrap()
}

fn as_paths(v: &[String]) -> Vec<PathBuf> {
    v.iter().map(PathBuf::from).collect()
}

// --- Built-in name resolution ---

#[test]
fn resolve_builtin_axis_agency() {
    let path = resolve_axis_value(
        "agency",
        "collaborative",
        &empty_config(),
        dir_str(&test_prompts_dir()),
    )
    .unwrap();
    assert_eq!(
        PathBuf::from(path),
        test_prompts_dir().join("axis/agency/collaborative.md")
    );
}

#[test]
fn resolve_builtin_axis_quality() {
    let path =
        resolve_axis_value("quality", "minimal", &empty_config(), dir_str(&test_prompts_dir()))
            .unwrap();
    assert_eq!(
        PathBuf::from(path),
        test_prompts_dir().join("axis/quality/minimal.md")
    );
}

#[test]
fn resolve_builtin_axis_scope() {
    let path =
        resolve_axis_value("scope", "narrow", &empty_config(), dir_str(&test_prompts_dir()))
            .unwrap();
    assert_eq!(
        PathBuf::from(path),
        test_prompts_dir().join("axis/scope/narrow.md")
    );
}

#[test]
fn resolve_builtin_modifier() {
    let path =
        resolve_modifier("readonly", &empty_config(), dir_str(&test_prompts_dir())).unwrap();
    assert_eq!(
        PathBuf::from(path),
        test_prompts_dir().join("modifiers/readonly.md")
    );
}

#[test]
fn resolve_builtin_base() {
    let path = resolve_base("standard", &empty_config(), dir_str(&test_prompts_dir())).unwrap();
    assert_eq!(PathBuf::from(path), test_prompts_dir().join("base"));
}

// --- Config-defined name resolution ---

#[test]
fn resolve_config_modifier() {
    let mut config = Config::default();
    config
        .modifiers
        .insert("my-mod".to_string(), "/custom/mod.md".to_string());
    let path = resolve_modifier("my-mod", &config, dir_str(&test_prompts_dir())).unwrap();
    assert_eq!(PathBuf::from(path), PathBuf::from("/custom/mod.md"));
}

#[test]
fn resolve_config_axis() {
    let mut config = Config::default();
    config
        .axes
        .agency
        .insert("my-agent".to_string(), "/custom/agent.md".to_string());
    let path =
        resolve_axis_value("agency", "my-agent", &config, dir_str(&test_prompts_dir())).unwrap();
    assert_eq!(PathBuf::from(path), PathBuf::from("/custom/agent.md"));
}

#[test]
fn resolve_config_base() {
    let mut config = Config::default();
    config
        .bases
        .insert("mybase".to_string(), "/custom/base".to_string());
    let path = resolve_base("mybase", &config, dir_str(&test_prompts_dir())).unwrap();
    assert_eq!(PathBuf::from(path), PathBuf::from("/custom/base"));
}

// --- File path resolution ---

#[test]
fn resolve_modifier_path_with_slash() {
    let path = resolve_modifier(
        "/tmp/test/haiku.md",
        &empty_config(),
        dir_str(&test_prompts_dir()),
    )
    .unwrap();
    assert_eq!(PathBuf::from(path), PathBuf::from("/tmp/test/haiku.md"));
}

#[test]
fn resolve_axis_value_path_with_dot_md() {
    let path = resolve_axis_value(
        "agency",
        "my-custom.md",
        &empty_config(),
        dir_str(&test_prompts_dir()),
    )
    .unwrap();
    assert_eq!(PathBuf::from(path), PathBuf::from("my-custom.md"));
}

// --- Unknown name errors ---

#[test]
fn resolve_unknown_modifier() {
    let err =
        resolve_modifier("bogus", &empty_config(), dir_str(&test_prompts_dir())).unwrap_err();
    assert!(matches!(err, ResolveError::UnknownModifier { .. }));
}

#[test]
fn resolve_unknown_axis() {
    let err = resolve_axis_value("agency", "bogus", &empty_config(), dir_str(&test_prompts_dir()))
        .unwrap_err();
    assert!(matches!(err, ResolveError::UnknownAxisValue { .. }));
}

#[test]
fn resolve_unknown_base() {
    let err = resolve_base("bogus", &empty_config(), dir_str(&test_prompts_dir())).unwrap_err();
    assert!(matches!(err, ResolveError::UnknownBase { .. }));
}

#[test]
fn resolve_chill_base_error() {
    let err = resolve_base("chill", &empty_config(), dir_str(&test_prompts_dir())).unwrap_err();
    assert!(matches!(err, ResolveError::ChillBaseNotPorted { .. }));
}

// --- Modifier list merging ---

#[test]
fn modifier_list_defaults_only() {
    let mut config = Config::default();
    config.default_modifiers.push("readonly".to_string());
    let result = resolve_modifier_list(&config, vec![], &[], false, false);
    assert_eq!(result, vec!["readonly"]);
}

#[test]
fn modifier_list_preset_plus_cli() {
    let config = Config::default();
    let result = resolve_modifier_list(
        &config,
        vec!["debug".to_string()],
        &["bold".to_string()],
        false,
        false,
    );
    assert_eq!(result, vec!["debug", "bold"]);
}

#[test]
fn modifier_list_dedup() {
    let config = Config::default();
    let result = resolve_modifier_list(
        &config,
        vec!["debug".to_string()],
        &["debug".to_string(), "bold".to_string()],
        false,
        false,
    );
    assert_eq!(result, vec!["debug", "bold"]);
}

#[test]
fn modifier_list_readonly_flag() {
    let config = Config::default();
    let result = resolve_modifier_list(&config, vec![], &[], true, false);
    assert_eq!(result, vec!["readonly"]);
}

#[test]
fn modifier_list_context_pacing_flag() {
    let config = Config::default();
    let result = resolve_modifier_list(&config, vec![], &[], false, true);
    assert_eq!(result, vec!["context-pacing"]);
}

#[test]
fn modifier_list_order_default_preset_cli_flags() {
    let mut config = Config::default();
    config.default_modifiers.push("readonly".to_string());
    let result = resolve_modifier_list(
        &config,
        vec!["methodical".to_string()],
        &["bold".to_string()],
        true,
        true,
    );
    // readonly should not appear twice
    assert_eq!(
        result,
        vec!["readonly", "methodical", "bold", "context-pacing"]
    );
}

// --- CLI overrides beat preset ---

#[test]
fn cli_override_agency() {
    let dir = tempdir().unwrap();
    let prompts_dir = dir.path().join("prompts");

    let config = Config::default();

    // Preset "safe" sets agency=collaborative, but CLI overrides to surgical
    let args = ResolveArgs {
        preset: Some("safe"),
        agency: Some("surgical"),
        quality: None,
        scope: None,
        modifiers: &[],
        readonly: false,
        context_pacing: false,
        base: None,
        append_system_prompt: None,
    };
    let resolved = resolve(&args, &config, dir_str(&prompts_dir)).unwrap();
    let axis_paths = as_paths(&resolved.axis_paths);
    assert!(axis_paths.contains(&prompts_dir.join("axis/agency/surgical.md")));
    assert!(!axis_paths.contains(&prompts_dir.join("axis/agency/collaborative.md")));
}

// --- Preset resolution ---

#[test]
fn resolve_unknown_preset_error() {
    let config = Config::default();
    let err = resolve_preset("bogus", &config).unwrap_err();
    assert!(matches!(err, ResolveError::UnknownPreset { .. }));
}

#[test]
fn resolve_custom_preset() {
    let mut config = Config::default();
    config.presets.insert(
        "custom".to_string(),
        CustomPreset {
            base: None,
            agency: Some("autonomous".to_string()),
            quality: None,
            scope: None,
            modifiers: vec!["readonly".to_string()],
            readonly: false,
            context_pacing: false,
        },
    );
    let (axes, modifiers, _base) = resolve_preset("custom", &config).unwrap();
    assert_eq!(axes.agency.as_deref(), Some("autonomous"));
    assert_eq!(axes.quality, None);
    assert_eq!(modifiers, vec!["readonly"]);
}

// --- Integration: full resolve produces paths ---

#[test]
fn resolve_safe_preset_no_config() {
    let dir = tempdir().unwrap();
    let prompts_dir = dir.path().join("prompts");

    let config = Config::default();
    let args = ResolveArgs {
        preset: Some("safe"),
        agency: None,
        quality: None,
        scope: None,
        modifiers: &[],
        readonly: false,
        context_pacing: false,
        base: None,
        append_system_prompt: None,
    };
    let resolved = resolve(&args, &config, dir_str(&prompts_dir)).unwrap();
    assert_eq!(PathBuf::from(&resolved.base_dir), prompts_dir.join("base"));
    assert_eq!(resolved.axis_paths.len(), 3);
    assert_eq!(resolved.modifier_paths.len(), 0);
}

#[test]
fn resolve_is_path_like() {
    assert!(is_path_like("/some/path.md"));
    assert!(is_path_like("relative/path.md"));
    assert!(is_path_like("\\windows\\path.md"));
    assert!(is_path_like("justfile.md"));
    assert!(!is_path_like("readonly"));
    assert!(!is_path_like("my-mod"));
}

// --- Further cases ---

fn args_with<'a>(preset: Option<&'a str>, modifiers: &'a [String]) -> ResolveArgs<'a> {
    ResolveArgs {
        preset,
        agency: None,
        quality: None,
        scope: None,
        modifiers,
        readonly: false,
        context_pacing: false,
        base: None,
        append_system_prompt: None,
    }
}

#[test]
fn none_mode_has_no_axis_paths() {
    let config = Config::default();
    let args = args_with(None, &[]);
    let resolved = resolve(&args, &config, "/p").unwrap();
    assert!(resolved.axis_paths.is_empty());
    assert!(resolved.modifier_paths.is_empty());
    assert_eq!(resolved.base_dir, "/p/base");
    assert_eq!(resolved.append_system_prompt, None);
}

#[test]
fn single_axis_fills_others_with_defaults() {
    let config = Config::default();
    let mut args = args_with(None, &[]);
    args.agency = Some("surgical");
    let resolved = resolve(&args, &config, "/p").unwrap();
    assert_eq!(
        resolved.axis_paths,
        vec![
            "/p/axis/agency/surgical.md",
            "/p/axis/quality/pragmatic.md",
            "/p/axis/scope/adjacent.md"
        ]
    );
}

#[test]
fn explore_preset_adds_readonly_and_cli_flags() {
    let config = Config::default();
    let mods = vec!["bold".to_string()];
    let mut args = args_with(Some("explore"), &mods);
    args.readonly = true;
    args.context_pacing = true;
    args.append_system_prompt = Some("extra");
    let resolved = resolve(&args, &config, "/p/").unwrap();
    assert_eq!(
        resolved.axis_paths,
        vec![
            "/p/axis/agency/collaborative.md",
            "/p/axis/quality/architect.md",
            "/p/axis/scope/narrow.md"
        ]
    );
    assert_eq!(
        resolved.modifier_paths,
        vec![
            "/p/modifiers/readonly.md",
            "/p/modifiers/bold.md",
            "/p/modifiers/context-pacing.md"
        ]
    );
    assert_eq!(resolved.append_system_prompt.as_deref(), Some("extra"));
}

#[test]
fn base_precedence_cli_preset_config_standard() {
    let mut config = Config::default();
    config.bases.insert("mine".to_string(), "/b/mine".to_string());
    config.bases.insert("theirs".to_string(), "/b/theirs".to_string());
    config.default_base = Some("mine".to_string());
    config.presets.insert(
        "custom".to_string(),
        CustomPreset {
            base: Some("theirs".to_string()),
            agency: None,
            quality: None,
            scope: None,
            modifiers: vec![],
            readonly: true,
            context_pacing: true,
        },
    );
    let args = args_with(None, &[]);
    assert_eq!(resolve(&args, &config, "/p").unwrap().base_dir, "/b/mine");
    let args = args_with(Some("custom"), &[]);
    let resolved = resolve(&args, &config, "/p").unwrap();
    assert_eq!(resolved.base_dir, "/b/theirs");
    assert_eq!(
        resolved.modifier_paths,
        vec!["/p/modifiers/readonly.md", "/p/modifiers/context-pacing.md"]
    );
    let mut args = args_with(Some("custom"), &[]);
    args.base = Some("/explicit/dir");
    assert_eq!(resolve(&args, &config, "/p").unwrap().base_dir, "/explicit/dir");
}

#[test]
fn builtin_preset_shadows_custom_preset() {
    let mut config = Config::default();
    config.presets.insert(
        "safe".to_string(),
        CustomPreset {
            base: None,
            agency: Some("autonomous".to_string()),
            quality: None,
            scope: None,
            modifiers: vec![],
            readonly: false,
            context_pacing: false,
        },
    );
    let (axes, modifiers, base) = resolve_preset("safe", &config).unwrap();
    assert_eq!(axes.agency.as_deref(), Some("collaborative"));
    assert_eq!(axes.quality.as_deref(), Some("minimal"));
    assert_eq!(axes.scope.as_deref(), Some("narrow"));
    assert!(modifiers.is_empty());
    assert_eq!(base, None);
}

#[test]
fn unknown_preset_lists_builtins_then_sorted_custom() {
    let mut config = Config::default();
    for name in ["zeta", "alpha", "mid"] {
        config.presets.insert(
            name.to_string(),
            CustomPreset {
                base: None,
                agency: None,
                quality: None,
                scope: None,
                modifiers: vec![],
                readonly: false,
                context_pacing: false,
            },
        );
    }
    let expected = "none, safe, create, extend, refactor, explore, debug, methodical, director, partner, muse, alpha, mid, zeta";
    assert_eq!(build_available_presets(&config), expected);
    match resolve_preset("bogus", &config).unwrap_err() {
        ResolveError::UnknownPreset { name, available } => {
            assert_eq!(name, "bogus");
            assert_eq!(available, expected);
        }
        other => panic!("unexpected error {other:?}"),
    }
}

#[test]
fn unknown_axis_name_is_other_error() {
    match resolve_axis_value("tone", "calm", &empty_config(), "/p").unwrap_err() {
        ResolveError::Other(m) => assert_eq!(m, "unknown axis: tone"),
        other => panic!("unexpected error {other:?}"),
    }
}

#[test]
fn first_failing_modifier_is_reported() {
    let config = Config::default();
    let mods = vec!["bold".to_string(), "nope".to_string(), "gone".to_string()];
    let args = args_with(Some("none"), &mods);
    match resolve(&args, &config, "/p").unwrap_err() {
        ResolveError::UnknownModifier { name } => assert_eq!(name, "nope"),
        other => panic!("unexpected error {other:?}"),
    }
}

#[test]
fn unknown_axis_value_error_names_axis() {
    let config = Config::default();
    let mut args = args_with(None, &[]);
    args.scope = Some("galactic");
    match resolve(&args, &config, "/p").unwrap_err() {
        ResolveError::UnknownAxisValue { axis, name } => {
            assert_eq!(axis, "scope");
            assert_eq!(name, "galactic");
        }
        other => panic!("unexpected error {other:?}"),
    }
}

#[test]
fn base_with_slash_is_a_directory() {
    let path = resolve_base("some/dir", &empty_config(), "/p").unwrap();
    assert_eq!(path, "some/dir");
    let path = resolve_base("C:\\prompts", &empty_config(), "/p").unwrap();
    assert_eq!(path, "C:\\prompts");
}
