use deepseek_tui_modes::assemble::{
    append_system_prompt, fragment_error, join_sections, parse_manifest, AssembleError,
    AssembleOptions, FragmentKind,
};

fn options(axis: &[&str], modifiers: &[&str]) -> AssembleOptions {
    AssembleOptions {
        base_dir: "/prompts/base".to_string(),
        axis_paths: axis.iter().map(|s| s.to_string()).collect(),
        modifier_paths: modifiers.iter().map(|s| s.to_string()).collect(),
    }
}

#[test]
fn manifest_parses_json_string_array() {
    let m = parse_manifest(r#"["intro.md", "system.md", "axes", "tone.md", "modifiers"]"#)
        .unwrap();
    assert_eq!(m, vec!["intro.md", "system.md", "axes", "tone.md", "modifiers"]);
    assert!(matches!(
        parse_manifest("{not json"),
        Err(AssembleError::ManifestFormat(_))
    ));
    assert!(matches!(
        parse_manifest(r#"{"a": 1}"#),
        Err(AssembleError::ManifestFormat(_))
    ));
}

#[test]
fn plan_expands_axes_and_modifiers_in_manifest_order() {
    let opts = options(&["/a/agency.md", "/a/quality.md"], &["/m/debug.md"]);
    assert_eq!(opts.manifest_path(), "/prompts/base/base.json");
    let manifest: Vec<String> = ["intro.md", "axes", "modifiers", "tone.md"]
        .iter()
        .map(|s| s.to_string())
        .collect();
    let plan = opts.fragment_plan(&manifest);
    let got: Vec<(FragmentKind, &str)> = plan.iter().map(|f| (f.kind, f.path.as_str())).collect();
    assert_eq!(
        got,
        vec![
            (FragmentKind::Base, "/prompts/base/intro.md"),
            (FragmentKind::Axis, "/a/agency.md"),
            (FragmentKind::Axis, "/a/quality.md"),
            (FragmentKind::Modifier, "/m/debug.md"),
            (FragmentKind::Base, "/prompts/base/tone.md"),
        ]
    );
}

#[test]
fn assemble_none_mode_sections() {
    let contents: Vec<String> = ["Intro content.", "System content.\n", "  Tone content.\n\n"]
        .iter()
        .map(|s| s.to_string())
        .collect();
    assert_eq!(
        join_sections(&contents),
        "Intro content.\n\nSystem content.\n\nTone content."
    );
}

#[test]
fn assemble_safe_mode_sections() {
    let opts = options(
        &["/x/agency/collaborative.md", "/x/quality/minimal.md", "/x/scope/narrow.md"],
        &[],
    );
    let manifest = parse_manifest(r#"["intro.md", "axes", "tone.md"]"#).unwrap();
    let plan = opts.fragment_plan(&manifest);
    let contents: Vec<String> = plan
        .iter()
        .map(|f| match f.path.as_str() {
            "/prompts/base/intro.md" => "Intro.".to_string(),
            "/prompts/base/tone.md" => "Tone.".to_string(),
            "/x/agency/collaborative.md" => "Agency: collaborative".to_string(),
            "/x/quality/minimal.md" => "Quality: minimal".to_string(),
            "/x/scope/narrow.md" => "Scope: narrow".to_string(),
            other => panic!("unexpected {other}"),
        })
        .collect();
    assert_eq!(
        join_sections(&contents),
        "Intro.\n\nAgency: collaborative\n\nQuality: minimal\n\nScope: narrow\n\nTone."
    );
}

#[test]
fn empty_manifest_gives_empty_prompt() {
    let opts = options(&["/a.md"], &["/m.md"]);
    let plan = opts.fragment_plan(&Vec::new());
    assert!(plan.is_empty());
    assert_eq!(join_sections(&Vec::new()), "");
}

#[test]
fn missing_fragment_errors_by_kind() {
    let opts = options(&["/nonexistent/agency.md"], &["/nonexistent/mod.md"]);
    let manifest = parse_manifest(r#"["nonexistent.md", "axes", "modifiers"]"#).unwrap();
    let mut plan = opts.fragment_plan(&manifest).into_iter();
    let io = || std::io::Error::new(std::io::ErrorKind::NotFound, "missing");
    assert!(matches!(
        fragment_error(plan.next().unwrap(), io()),
        AssembleError::MissingFragment { ref path, .. } if path == "/prompts/base/nonexistent.md"
    ));
    assert!(matches!(
        fragment_error(plan.next().unwrap(), io()),
        AssembleError::MissingAxisFragment { ref path, .. } if path == "/nonexistent/agency.md"
    ));
    assert!(matches!(
        fragment_error(plan.next().unwrap(), io()),
        AssembleError::MissingModifierFragment { ref path, .. } if path == "/nonexistent/mod.md"
    ));
}

#[test]
fn appended_prompt_follows_a_blank_line() {
    assert_eq!(append_system_prompt("A".to_string(), Some("B")), "A\n\nB");
    assert_eq!(append_system_prompt("A".to_string(), None), "A");
}
