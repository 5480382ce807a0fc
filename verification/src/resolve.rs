//! Resolution of command-line choices and configuration into the paths of
//! the prompt fragments to assemble.
use vstd::prelude::*;
use vstd::string::*;

use crate::config::{Config, CustomPresetSpec};
use crate::presets::{
    agency_values, builtin_modifiers, builtin_preset, builtin_presets, clone_opt,
    clone_strings, default_agency, default_quality, default_scope, empty_axes, list_contains,
    quality_values, scope_values, spec_agency_values, spec_builtin_modifiers,
    spec_builtin_preset, spec_builtin_presets, spec_default_agency, spec_default_quality,
    spec_default_scope, spec_quality_values, spec_scope_values, str_views, AxisSpec,
    AxisValues,
};
use crate::text::{
    concat2, has_suffix, join_path, join_strings, join_with, path_join, sort_names,
    sorted_of, str_contains_char, str_eq, str_has_suffix,
};

verus! {

/// Errors from the resolution process.
#[derive(Debug)]
pub enum ResolveError {
    UnknownPreset { name: String, available: String },
    UnknownBase { name: String },
    ChillBaseNotPorted { name: String },
    UnknownModifier { name: String },
    UnknownAxisValue { axis: String, name: String },
    Other(String),
}

/// A resolution error as plain values.
pub enum ResolveFailure {
    UnknownPreset { name: Seq<char>, available: Seq<char> },
    UnknownBase { name: Seq<char> },
    ChillBaseNotPorted { name: Seq<char> },
    UnknownModifier { name: Seq<char> },
    UnknownAxisValue { axis: Seq<char>, name: Seq<char> },
    Other(Seq<char>),
}

impl View for ResolveError {
    type V = ResolveFailure;

    open spec fn view(&self) -> ResolveFailure {
        match self {
            ResolveError::UnknownPreset { name, available } => ResolveFailure::UnknownPreset {
                name: name@,
                available: available@,
            },
            ResolveError::UnknownBase { name } => ResolveFailure::UnknownBase { name: name@ },
            ResolveError::ChillBaseNotPorted { name } => ResolveFailure::ChillBaseNotPorted {
                name: name@,
            },
            ResolveError::UnknownModifier { name } => ResolveFailure::UnknownModifier {
                name: name@,
            },
            ResolveError::UnknownAxisValue { axis, name } => ResolveFailure::UnknownAxisValue {
                axis: axis@,
                name: name@,
            },
            ResolveError::Other(m) => ResolveFailure::Other(m@),
        }
    }
}

/// A path result as plain values.
pub open spec fn path_result(r: Result<String, ResolveError>) -> Result<Seq<char>, ResolveFailure> {
    match r {
        Ok(p) => Ok(p@),
        Err(e) => Err(e@),
    }
}

/// Fully resolved configuration as plain values.
pub struct ResolvedSpec {
    pub base_dir: Seq<char>,
    pub axis_paths: Seq<Seq<char>>,
    pub modifier_paths: Seq<Seq<char>>,
    pub append_system_prompt: Option<Seq<char>>,
}

/// Fully resolved configuration ready for assembly.
#[derive(Debug)]
pub struct Resolved {
    pub base_dir: String,
    pub axis_paths: Vec<String>,
    pub modifier_paths: Vec<String>,
    pub append_system_prompt: Option<String>,
}

impl View for Resolved {
    type V = ResolvedSpec;

    open spec fn view(&self) -> ResolvedSpec {
        ResolvedSpec {
            base_dir: self.base_dir@,
            axis_paths: self.axis_paths.deep_view(),
            modifier_paths: self.modifier_paths.deep_view(),
            append_system_prompt: self.append_system_prompt.deep_view(),
        }
    }
}

/// Input parameters for the resolver.
pub struct ResolveArgs<'a> {
    pub preset: Option<&'a str>,
    pub agency: Option<&'a str>,
    pub quality: Option<&'a str>,
    pub scope: Option<&'a str>,
    pub modifiers: &'a [String],
    pub readonly: bool,
    pub context_pacing: bool,
    pub base: Option<&'a str>,
    pub append_system_prompt: Option<&'a str>,
}

// ---------------------------------------------------------------------------
// Specification
// ---------------------------------------------------------------------------

/// The value looks like a file or directory path rather than a name.
pub open spec fn path_like(v: Seq<char>) -> bool {
    v.contains('/') || v.contains('\\') || has_suffix(v, ".md"@)
}

/// The built-in values of an axis, for the three axes there are.
pub open spec fn axis_builtins(axis: Seq<char>) -> Option<Seq<Seq<char>>> {
    if axis == "agency"@ {
        Some(spec_agency_values())
    } else if axis == "quality"@ {
        Some(spec_quality_values())
    } else if axis == "scope"@ {
        Some(spec_scope_values())
    } else {
        None
    }
}

/// The configured values of an axis.
pub open spec fn axis_custom(config: &Config, axis: Seq<char>) -> Map<Seq<char>, String> {
    if axis == "agency"@ {
        config.axes.agency@
    } else if axis == "quality"@ {
        config.axes.quality@
    } else {
        config.axes.scope@
    }
}

/// Where an axis value's fragment is: the value itself when it looks like a
/// path, the built-in fragment, or the configured one.
pub open spec fn axis_value_outcome(
    axis: Seq<char>,
    value: Seq<char>,
    config: &Config,
    prompts_dir: Seq<char>,
) -> Result<Seq<char>, ResolveFailure> {
    if path_like(value) {
        Ok(value)
    } else {
        match axis_builtins(axis) {
            None => Err(ResolveFailure::Other("unknown axis: "@ + axis)),
            Some(builtin) => if builtin.contains(value) {
                Ok(path_join(path_join(path_join(prompts_dir, "axis"@), axis), value + ".md"@))
            } else if axis_custom(config, axis).dom().contains(value) {
                Ok(axis_custom(config, axis)[value]@)
            } else {
                Err(ResolveFailure::UnknownAxisValue { axis, name: value })
            },
        }
    }
}

/// Where a base directory is.
pub open spec fn base_outcome(name: Seq<char>, config: &Config, prompts_dir: Seq<char>) -> Result<
    Seq<char>,
    ResolveFailure,
> {
    if name.contains('/') || name.contains('\\') {
        Ok(name)
    } else if name == "standard"@ {
        Ok(path_join(prompts_dir, "base"@))
    } else if name == "chill"@ {
        Err(ResolveFailure::ChillBaseNotPorted { name })
    } else if config.bases@.dom().contains(name) {
        Ok(config.bases@[name]@)
    } else {
        Err(ResolveFailure::UnknownBase { name })
    }
}

/// Where a modifier's fragment is.
pub open spec fn modifier_outcome(name: Seq<char>, config: &Config, prompts_dir: Seq<char>) -> Result<
    Seq<char>,
    ResolveFailure,
> {
    if path_like(name) {
        Ok(name)
    } else if spec_builtin_modifiers().contains(name) {
        Ok(path_join(path_join(prompts_dir, "modifiers"@), name + ".md"@))
    } else if config.modifiers@.dom().contains(name) {
        Ok(config.modifiers@[name]@)
    } else {
        Err(ResolveFailure::UnknownModifier { name })
    }
}

/// The modifiers a custom preset adds: its list, then `readonly` and
/// `context-pacing` where its flags ask for them.
pub open spec fn custom_preset_modifiers(p: CustomPresetSpec) -> Seq<Seq<char>> {
    p.modifiers + (if p.readonly {
        seq!["readonly"@]
    } else {
        seq![]
    }) + (if p.context_pacing {
        seq!["context-pacing"@]
    } else {
        seq![]
    })
}

/// The names of every preset, built-in ones first, then the configured
/// ones in increasing order, separated by commas.
pub open spec fn available_presets(config: &Config) -> Seq<char> {
    join_with(spec_builtin_presets() + sorted_of(config.presets@.dom()), ", "@)
}

/// A preset's axes, modifiers and base. Built-in presets shadow configured
/// ones of the same name.
pub open spec fn preset_outcome(name: Seq<char>, config: &Config) -> Result<
    (AxisSpec, Seq<Seq<char>>, Option<Seq<char>>),
    ResolveFailure,
> {
    if name == "none"@ {
        Ok((empty_axes(), seq![], None))
    } else {
        match spec_builtin_preset(name) {
            Some(p) => Ok((p.axes, p.modifiers, None)),
            None => if config.presets@.dom().contains(name) {
                let c = config.presets@[name]@;
                Ok(
                    (
                        AxisSpec { agency: c.agency, quality: c.quality, scope: c.scope },
                        custom_preset_modifiers(c),
                        c.base,
                    ),
                )
            } else {
                Err(
                    ResolveFailure::UnknownPreset { name, available: available_presets(config) },
                )
            },
        }
    }
}

/// Every source of modifiers, in order: the configured defaults, the
/// preset's, the command line's, then the two flags.
pub open spec fn modifier_sources(
    defaults: Seq<Seq<char>>,
    preset_modifiers: Seq<Seq<char>>,
    cli_modifiers: Seq<Seq<char>>,
    readonly: bool,
    context_pacing: bool,
) -> Seq<Seq<char>> {
    defaults + preset_modifiers + cli_modifiers + (if readonly {
        seq!["readonly"@]
    } else {
        seq![]
    }) + (if context_pacing {
        seq!["context-pacing"@]
    } else {
        seq![]
    })
}

/// The modifiers to apply: every source's names in order, each name once,
/// at its first place.
pub open spec fn modifier_list(
    defaults: Seq<Seq<char>>,
    preset_modifiers: Seq<Seq<char>>,
    cli_modifiers: Seq<Seq<char>>,
    readonly: bool,
    context_pacing: bool,
) -> Seq<Seq<char>> {
    modifier_sources(
        defaults,
        preset_modifiers,
        cli_modifiers,
        readonly,
        context_pacing,
    ).remove_duplicates(seq![])
}

/// The fragment of an axis that is set; nothing for one that is not.
pub open spec fn opt_axis_paths(
    axis: Seq<char>,
    value: Option<Seq<char>>,
    config: &Config,
    prompts_dir: Seq<char>,
) -> Result<Seq<Seq<char>>, ResolveFailure> {
    match value {
        None => Ok(seq![]),
        Some(v) => match axis_value_outcome(axis, v, config, prompts_dir) {
            Ok(p) => Ok(seq![p]),
            Err(e) => Err(e),
        },
    }
}

/// The fragments of the three axes, in the order agency, quality, scope;
/// the first failure otherwise.
pub open spec fn axis_paths_outcome(
    agency: Option<Seq<char>>,
    quality: Option<Seq<char>>,
    scope: Option<Seq<char>>,
    config: &Config,
    prompts_dir: Seq<char>,
) -> Result<Seq<Seq<char>>, ResolveFailure> {
    match opt_axis_paths("agency"@, agency, config, prompts_dir) {
        Err(e) => Err(e),
        Ok(a) => match opt_axis_paths("quality"@, quality, config, prompts_dir) {
            Err(e) => Err(e),
            Ok(q) => match opt_axis_paths("scope"@, scope, config, prompts_dir) {
                Err(e) => Err(e),
                Ok(s) => Ok(a + q + s),
            },
        },
    }
}

/// The fragments of the modifiers, in order; the first failure otherwise.
pub open spec fn modifier_paths_outcome(
    names: Seq<Seq<char>>,
    config: &Config,
    prompts_dir: Seq<char>,
) -> Result<Seq<Seq<char>>, ResolveFailure>
    decreases names.len(),
{
    if names.len() == 0 {
        Ok(seq![])
    } else {
        match modifier_paths_outcome(names.drop_last(), config, prompts_dir) {
            Err(e) => Err(e),
            Ok(ps) => match modifier_outcome(names.last(), config, prompts_dir) {
                Err(e) => Err(e),
                Ok(p) => Ok(ps.push(p)),
            },
        }
    }
}

/// The first value that is set, `fallback` when none is.
pub open spec fn first_set(
    a: Option<Seq<char>>,
    b: Option<Seq<char>>,
    fallback: Seq<char>,
) -> Seq<char> {
    match a {
        Some(v) => v,
        None => match b {
            Some(v) => v,
            None => fallback,
        },
    }
}

/// The preset named on the command line, `none` when there is none.
pub open spec fn preset_name_of(args: &ResolveArgs) -> Seq<char> {
    match args.preset.deep_view() {
        Some(p) => p,
        None => "none"@,
    }
}

/// No preset and no axis given: no axis fragment at all.
pub open spec fn none_mode(args: &ResolveArgs) -> bool {
    preset_name_of(args) == "none"@ && args.agency is None && args.quality is None
        && args.scope is None
}

/// An axis's value: unset in `none` mode; otherwise the command line's, the
/// preset's, or the default, the first that is set.
pub open spec fn axis_choice(
    none: bool,
    cli: Option<Seq<char>>,
    preset: Option<Seq<char>>,
    default: Seq<char>,
) -> Option<Seq<char>> {
    if none {
        None
    } else {
        Some(first_set(cli, preset, default))
    }
}

/// The base: the command line's, the preset's, the configured default, or
/// `standard`, the first that is set.
pub open spec fn base_choice(
    args: &ResolveArgs,
    preset_base: Option<Seq<char>>,
    config: &Config,
) -> Seq<char> {
    match args.base.deep_view() {
        Some(b) => b,
        None => first_set(preset_base, config.default_base.deep_view(), "standard"@),
    }
}

/// What resolution gives: the first failure in the order preset, axes,
/// base, modifiers; the resolved paths otherwise.
pub open spec fn resolve_outcome(args: &ResolveArgs, config: &Config, prompts_dir: Seq<char>) -> Result<
    ResolvedSpec,
    ResolveFailure,
> {
    match preset_outcome(preset_name_of(args), config) {
        Err(e) => Err(e),
        Ok((axes, preset_modifiers, preset_base)) => {
            let none = none_mode(args);
            let agency = axis_choice(
                none,
                args.agency.deep_view(),
                axes.agency,
                spec_default_agency(),
            );
            let quality = axis_choice(
                none,
                args.quality.deep_view(),
                axes.quality,
                spec_default_quality(),
            );
            let scope = axis_choice(none, args.scope.deep_view(), axes.scope, spec_default_scope());
            match axis_paths_outcome(agency, quality, scope, config, prompts_dir) {
                Err(e) => Err(e),
                Ok(axis_paths) => match base_outcome(
                    base_choice(args, preset_base, config),
                    config,
                    prompts_dir,
                ) {
                    Err(e) => Err(e),
                    Ok(base_dir) => {
                        let names = modifier_list(
                            config.default_modifiers.deep_view(),
                            preset_modifiers,
                            args.modifiers.deep_view(),
                            args.readonly,
                            args.context_pacing,
                        );
                        match modifier_paths_outcome(names, config, prompts_dir) {
                            Err(e) => Err(e),
                            Ok(modifier_paths) => Ok(
                                ResolvedSpec {
                                    base_dir,
                                    axis_paths,
                                    modifier_paths,
                                    append_system_prompt: args.append_system_prompt.deep_view(),
                                },
                            ),
                        }
                    },
                },
            }
        },
    }
}

// ---------------------------------------------------------------------------
// Main resolve entry point
// ---------------------------------------------------------------------------

/// Resolve CLI arguments + config into fully resolved paths.
#[verifier::loop_isolation(false)]
pub fn resolve(args: &ResolveArgs, config: &Config, prompts_dir: &str) -> (r: Result<
    Resolved,
    ResolveError,
>)
    ensures
        match r {
            Ok(res) => resolve_outcome(args, config, prompts_dir@) == Ok::<
                ResolvedSpec,
                ResolveFailure,
            >(res@),
            Err(e) => resolve_outcome(args, config, prompts_dir@) == Err::<
                ResolvedSpec,
                ResolveFailure,
            >(e@),
        },
{
    proof {
        reveal_strlit("none");
    }
    // 1. Preset resolution
    let preset_name: &str = match args.preset {
        Some(p) => p,
        None => "none",
    };
    assert(preset_name@ == preset_name_of(args));
    let (preset_axes, preset_modifiers, preset_base) = match resolve_preset(preset_name, config) {
        Ok(t) => t,
        Err(e) => {
            return Err(e);
        },
    };

    // 2. Axis values: CLI override > preset > default (if not "none")
    let is_none_mode = str_eq(preset_name, "none") && args.agency.is_none()
        && args.quality.is_none() && args.scope.is_none();
    assert(is_none_mode == none_mode(args));

    let agency_val: Option<&str> = if is_none_mode {
        None
    } else {
        Some(first_of(args.agency, preset_axes.agency.as_ref(), default_agency()))
    };
    let quality_val: Option<&str> = if is_none_mode {
        None
    } else {
        Some(first_of(args.quality, preset_axes.quality.as_ref(), default_quality()))
    };
    let scope_val: Option<&str> = if is_none_mode {
        None
    } else {
        Some(first_of(args.scope, preset_axes.scope.as_ref(), default_scope()))
    };

    // 3. Resolve each axis value to a path
    let ghost agency_spec = axis_choice(
        is_none_mode,
        args.agency.deep_view(),
        preset_axes@.agency,
        spec_default_agency(),
    );
    let ghost quality_spec = axis_choice(
        is_none_mode,
        args.quality.deep_view(),
        preset_axes@.quality,
        spec_default_quality(),
    );
    let ghost scope_spec = axis_choice(
        is_none_mode,
        args.scope.deep_view(),
        preset_axes@.scope,
        spec_default_scope(),
    );
    assert(agency_val.deep_view() == agency_spec);
    assert(quality_val.deep_view() == quality_spec);
    assert(scope_val.deep_view() == scope_spec);
    proof {
        reveal_strlit("agency");
        reveal_strlit("quality");
        reveal_strlit("scope");
    }
    let mut axis_paths: Vec<String> = Vec::new();
    if let Some(v) = agency_val {
        match resolve_axis_value("agency", v, config, prompts_dir) {
            Ok(p) => axis_paths.push(p),
            Err(e) => {
                return Err(e);
            },
        }
    }
    let ghost pa = axis_paths.deep_view();
    assert(opt_axis_paths("agency"@, agency_spec, config, prompts_dir@) == Ok::<
        Seq<Seq<char>>,
        ResolveFailure,
    >(pa)) by {
        if agency_val is Some {
            assert(pa =~= seq![axis_paths[0]@]);
        } else {
            assert(pa =~= Seq::<Seq<char>>::empty());
        }
    }
    if let Some(v) = quality_val {
        match resolve_axis_value("quality", v, config, prompts_dir) {
            Ok(p) => axis_paths.push(p),
            Err(e) => {
                return Err(e);
            },
        }
    }
    let ghost pq = axis_paths.deep_view();
    assert(opt_axis_paths("quality"@, quality_spec, config, prompts_dir@) == Ok::<
        Seq<Seq<char>>,
        ResolveFailure,
    >(pq.skip(pa.len() as int))) by {
        if quality_val is Some {
            assert(pq.skip(pa.len() as int) =~= seq![axis_paths[pa.len() as int]@]);
        } else {
            assert(pq.skip(pa.len() as int) =~= Seq::<Seq<char>>::empty());
        }
    }
    assert(pq =~= pa + pq.skip(pa.len() as int));
    if let Some(v) = scope_val {
        match resolve_axis_value("scope", v, config, prompts_dir) {
            Ok(p) => axis_paths.push(p),
            Err(e) => {
                return Err(e);
            },
        }
    }
    let ghost ps = axis_paths.deep_view();
    assert(opt_axis_paths("scope"@, scope_spec, config, prompts_dir@) == Ok::<
        Seq<Seq<char>>,
        ResolveFailure,
    >(ps.skip(pq.len() as int))) by {
        if scope_val is Some {
            assert(ps.skip(pq.len() as int) =~= seq![axis_paths[pq.len() as int]@]);
        } else {
            assert(ps.skip(pq.len() as int) =~= Seq::<Seq<char>>::empty());
        }
    }
    assert(ps =~= pq + ps.skip(pq.len() as int));
    assert(axis_paths_outcome(agency_spec, quality_spec, scope_spec, config, prompts_dir@)
        == Ok::<Seq<Seq<char>>, ResolveFailure>(axis_paths.deep_view()));

    // 4. Base resolution
    proof {
        reveal_strlit("standard");
    }
    let base_value: &str = match args.base {
        Some(b) => b,
        None => match &preset_base {
            Some(b) => b.as_str(),
            None => match &config.default_base {
                Some(d) => d.as_str(),
                None => "standard",
            },
        },
    };
    assert(base_value@ == base_choice(args, preset_base.deep_view(), config));
    let base_dir = match resolve_base(base_value, config, prompts_dir) {
        Ok(b) => b,
        Err(e) => {
            return Err(e);
        },
    };

    // 5. Modifier resolution
    let modifiers = resolve_modifier_list(
        config,
        preset_modifiers,
        args.modifiers,
        args.readonly,
        args.context_pacing,
    );

    let mut modifier_paths: Vec<String> = Vec::new();
    let mut i: usize = 0;
    assert(modifiers.deep_view().take(0) =~= Seq::<Seq<char>>::empty());
    assert(modifier_paths.deep_view() =~= Seq::<Seq<char>>::empty());
    while i < modifiers.len()
        invariant
            i <= modifiers.len(),
            modifier_paths.len() == i,
            modifier_paths_outcome(modifiers.deep_view().take(i as int), config, prompts_dir@)
                == Ok::<Seq<Seq<char>>, ResolveFailure>(modifier_paths.deep_view()),
        decreases modifiers.len() - i,
    {
        let ghost before = modifier_paths.deep_view();
        assert(modifiers.deep_view().take(i + 1).drop_last() =~= modifiers.deep_view().take(
            i as int,
        ));
        assert(modifiers.deep_view().take(i + 1).last() == modifiers[i as int]@);
        match resolve_modifier(modifiers[i].as_str(), config, prompts_dir) {
            Ok(p) => {
                modifier_paths.push(p);
                assert(modifier_paths.deep_view() =~= before.push(
                    modifier_paths[i as int]@,
                ));
            },
            Err(e) => {
                proof {
                    lemma_modifier_paths_prefix_err(
                        modifiers.deep_view(),
                        i + 1,
                        config,
                        prompts_dir@,
                    );
                }
                return Err(e);
            },
        }
        i = i + 1;
    }
    assert(modifiers.deep_view().take(modifiers.len() as int) =~= modifiers.deep_view());

    let append_system_prompt = match args.append_system_prompt {
        Some(s) => Some(String::from_str(s)),
        None => None,
    };
    let r = Resolved { base_dir, axis_paths, modifier_paths, append_system_prompt };
    assert(r@.append_system_prompt == args.append_system_prompt.deep_view());
    Ok(r)
}

/// A failure among the first modifiers is the failure of them all.
proof fn lemma_modifier_paths_prefix_err(
    names: Seq<Seq<char>>,
    k: int,
    config: &Config,
    prompts_dir: Seq<char>,
)
    requires
        0 <= k <= names.len(),
        modifier_paths_outcome(names.take(k), config, prompts_dir) is Err,
    ensures
        modifier_paths_outcome(names, config, prompts_dir) == modifier_paths_outcome(
            names.take(k),
            config,
            prompts_dir,
        ),
    decreases names.len() - k,
{
    if k < names.len() {
        assert(names.take(k + 1).drop_last() =~= names.take(k));
        lemma_modifier_paths_prefix_err(names, k + 1, config, prompts_dir);
    } else {
        assert(names.take(k) =~= names);
    }
}

/// The first of two optional strings that is set, `fallback` otherwise.
fn first_of<'a>(a: Option<&'a str>, b: Option<&'a String>, fallback: &'a str) -> (r: &'a str)
    ensures
        r@ == first_set(a.deep_view(), b.deep_view(), fallback@),
{
    match a {
        Some(v) => v,
        None => match b {
            Some(s) => s.as_str(),
            None => fallback,
        },
    }
}

// ---------------------------------------------------------------------------
// Preset resolution
// ---------------------------------------------------------------------------

/// Resolve a preset name to its axes, modifiers, and base.
pub fn resolve_preset(name: &str, config: &Config) -> (r: Result<
    (AxisValues, Vec<String>, Option<String>),
    ResolveError,
>)
    ensures
        match r {
            Ok((axes, modifiers, base)) => preset_outcome(name@, config) == Ok::<
                (AxisSpec, Seq<Seq<char>>, Option<Seq<char>>),
                ResolveFailure,
            >((axes@, modifiers.deep_view(), base.deep_view())),
            Err(e) => preset_outcome(name@, config) == Err::<
                (AxisSpec, Seq<Seq<char>>, Option<Seq<char>>),
                ResolveFailure,
            >(e@),
        },
{
    // "none" is a special case — just returns empty
    if str_eq(name, "none") {
        let m: Vec<String> = Vec::new();
        assert(m.deep_view() =~= Seq::<Seq<char>>::empty());
        return Ok((AxisValues::default(), m, None));
    }
    // Built-in preset

    if let Some(preset) = builtin_preset(name) {
        return Ok((preset.axes, preset.modifiers, None));
    }
    // Config custom preset

    if let Some(custom) = config.presets.get(name) {
        let axes = AxisValues {
            agency: clone_opt(&custom.agency),
            quality: clone_opt(&custom.quality),
            scope: clone_opt(&custom.scope),
        };
        let mut modifiers = clone_strings(&custom.modifiers);
        let ghost m0 = modifiers.deep_view();
        proof {
            reveal_strlit("readonly");
            reveal_strlit("context-pacing");
        }
        if custom.readonly {
            modifiers.push(String::from_str("readonly"));
        }
        let ghost m1 = modifiers.deep_view();
        if custom.context_pacing {
            modifiers.push(String::from_str("context-pacing"));
        }
        proof {
            let c = custom@;
            if c.readonly {
                assert(m1 =~= m0 + seq!["readonly"@]);
            } else {
                assert(m1 =~= m0 + Seq::<Seq<char>>::empty());
            }
            if c.context_pacing {
                assert(modifiers.deep_view() =~= m1 + seq!["context-pacing"@]);
            } else {
                assert(modifiers.deep_view() =~= m1 + Seq::<Seq<char>>::empty());
            }
            assert(modifiers.deep_view() =~= custom_preset_modifiers(c));
        }
        let base = clone_opt(&custom.base);
        return Ok((axes, modifiers, base));
    }
    // Unknown — list available presets

    let available = build_available_presets(config);
    Err(ResolveError::UnknownPreset { name: String::from_str(name), available })
}

/// The names of every preset: built-in ones first, then the configured
/// ones in increasing order, separated by commas.
pub fn build_available_presets(config: &Config) -> (r: String)
    ensures
        r@ == available_presets(config),
{
    let builtins = builtin_presets();
    let mut all: Vec<String> = Vec::new();
    let mut i: usize = 0;
    while i < builtins.len()
        invariant
            i <= builtins.len(),
            str_views(builtins@) == spec_builtin_presets(),
            all.deep_view() == spec_builtin_presets().take(i as int),
        decreases builtins.len() - i,
    {
        all.push(String::from_str(builtins[i]));
        assert(spec_builtin_presets().take(i + 1) =~= spec_builtin_presets().take(i as int).push(
            builtins@[i as int]@,
        ));
        i = i + 1;
    }
    assert(spec_builtin_presets().take(builtins.len() as int) =~= spec_builtin_presets());
    let names = config.presets.names();
    let custom = sort_names(&names);
    assert(names.deep_view().to_set() =~= config.presets@.dom());
    let ghost before = all.deep_view();
    let mut j: usize = 0;
    while j < custom.len()
        invariant
            j <= custom.len(),
            all.deep_view() == before + custom.deep_view().take(j as int),
        decreases custom.len() - j,
    {
        let ghost prev = all.deep_view();
        all.push(custom[j].clone());
        assert(all.deep_view() =~= prev.push(custom[j as int]@));
        assert(custom.deep_view().take(j + 1) =~= custom.deep_view().take(j as int).push(
            custom[j as int]@,
        ));
        assert(all.deep_view() =~= before + custom.deep_view().take(j + 1));
        j = j + 1;
    }
    assert(custom.deep_view().take(custom.len() as int) =~= custom.deep_view());
    proof {
        reveal_strlit(", ");
    }
    join_strings(&all, ", ")
}

// ---------------------------------------------------------------------------
// Axis value resolution
// ---------------------------------------------------------------------------

/// The path of an axis value's fragment.
pub fn resolve_axis_value(axis: &str, value: &str, config: &Config, prompts_dir: &str) -> (r:
    Result<String, ResolveError>)
    ensures
        path_result(r) == axis_value_outcome(axis@, value@, config, prompts_dir@),
{
    // File path heuristic
    if is_path_like(value) {
        return Ok(String::from_str(value));
    }
    proof {
        reveal_strlit("agency");
        reveal_strlit("quality");
        reveal_strlit("scope");
        reveal_strlit("unknown axis: ");
        reveal_strlit("axis");
        reveal_strlit(".md");
    }
    // Built-in axis value
    let builtin = if str_eq(axis, "agency") {
        agency_values()
    } else if str_eq(axis, "quality") {
        quality_values()
    } else if str_eq(axis, "scope") {
        scope_values()
    } else {
        return Err(ResolveError::Other(concat2("unknown axis: ", axis)));
    };
    assert(axis_builtins(axis@) == Some(str_views(builtin@)));
    if list_contains(&builtin, value) {
        let subdir = join_path(prompts_dir, "axis");
        let subdir = join_path(subdir.as_str(), axis);
        let file = concat2(value, ".md");
        return Ok(join_path(subdir.as_str(), file.as_str()));
    }
    // Config-defined axis name

    let config_map = if str_eq(axis, "agency") {
        &config.axes.agency
    } else if str_eq(axis, "quality") {
        &config.axes.quality
    } else {
        &config.axes.scope
    };
    assert(config_map@ == axis_custom(config, axis@));
    if let Some(path) = config_map.get(value) {
        return Ok(path.clone());
    }
    Err(ResolveError::UnknownAxisValue { axis: String::from_str(axis), name: String::from_str(value) })
}

// ---------------------------------------------------------------------------
// Base resolution
// ---------------------------------------------------------------------------

/// The directory of a base.
pub fn resolve_base(name: &str, config: &Config, prompts_dir: &str) -> (r: Result<
    String,
    ResolveError,
>)
    ensures
        path_result(r) == base_outcome(name@, config, prompts_dir@),
{
    // Directory path heuristic
    if str_contains_char(name, '/') || str_contains_char(name, '\\') {
        return Ok(String::from_str(name));
    }
    proof {
        reveal_strlit("base");
    }
    if str_eq(name, "standard") {
        return Ok(join_path(prompts_dir, "base"));
    }
    if str_eq(name, "chill") {
        return Err(ResolveError::ChillBaseNotPorted { name: String::from_str(name) });
    }
    // Config-defined base

    if let Some(path) = config.bases.get(name) {
        return Ok(path.clone());
    }
    Err(ResolveError::UnknownBase { name: String::from_str(name) })
}

// ---------------------------------------------------------------------------
// Modifier resolution
// ---------------------------------------------------------------------------

/// Whether `list` holds `name`.
fn strings_contain(list: &Vec<String>, name: &str) -> (r: bool)
    ensures
        r == list.deep_view().contains(name@),
{
    let mut i: usize = 0;
    while i < list.len()
        invariant
            i <= list.len(),
            forall|k: int| 0 <= k < i ==> list.deep_view()[k] != name@,
        decreases list.len() - i,
    {
        if str_eq(list[i].as_str(), name) {
            assert(list.deep_view()[i as int] == name@);
            return true;
        }
        i = i + 1;
    }
    false
}

/// Appends `name` unless the list already holds it.
fn push_unique(result: &mut Vec<String>, name: &str, Ghost(seen): Ghost<Seq<Seq<char>>>)
    requires
        old(result).deep_view() == seen.remove_duplicates(seq![]),
    ensures
        final(result).deep_view() == seen.push(name@).remove_duplicates(seq![]),
{
    proof {
        seen.lemma_remove_duplicates_properties(seq![]);
        seen.lemma_remove_duplicates_append(name@, seq![]);
        assert(seen + Seq::<Seq<char>>::empty() =~= seen);
        assert(seen + seq![name@] =~= seen.push(name@));
    }
    if !strings_contain(result, name) {
        let ghost before = result.deep_view();
        result.push(String::from_str(name));
        assert(result.deep_view() =~= before + seq![name@]);
    }
}

/// Appends each of `names` unless already held.
fn push_all_unique(
    result: &mut Vec<String>,
    names: &[String],
    Ghost(seen): Ghost<Seq<Seq<char>>>,
)
    requires
        old(result).deep_view() == seen.remove_duplicates(seq![]),
    ensures
        final(result).deep_view() == (seen + names.deep_view()).remove_duplicates(seq![]),
{
    let mut i: usize = 0;
    let ghost dv = names.deep_view();
    assert(seen + dv.take(0) =~= seen);
    while i < names.len()
        invariant
            dv == names.deep_view(),
            i <= names.len(),
            result.deep_view() == (seen + dv.take(i as int)).remove_duplicates(seq![]),
        decreases names.len() - i,
    {
        push_unique(result, names[i].as_str(), Ghost(seen + dv.take(i as int)));
        assert((seen + dv.take(i as int)).push(dv[i as int]) =~= seen + dv.take(i + 1));
        i = i + 1;
    }
    assert(dv.take(names.len() as int) =~= dv);
}

/// Collect and deduplicate all modifier names from their sources.
pub fn resolve_modifier_list(
    config: &Config,
    preset_modifiers: Vec<String>,
    cli_modifiers: &[String],
    cli_readonly: bool,
    cli_context_pacing: bool,
) -> (r: Vec<String>)
    ensures
        r.deep_view() == modifier_list(
            config.default_modifiers.deep_view(),
            preset_modifiers.deep_view(),
            cli_modifiers.deep_view(),
            cli_readonly,
            cli_context_pacing,
        ),
{
    let mut result: Vec<String> = Vec::new();
    let ghost empty = Seq::<Seq<char>>::empty();
    assert(result.deep_view() =~= empty.remove_duplicates(seq![]));
    // 1. Config default modifiers
    let ghost s0 = config.default_modifiers.deep_view();
    push_all_unique(&mut result, config.default_modifiers.as_slice(), Ghost(empty));
    assert(empty + s0 =~= s0);
    // 2. Preset modifiers
    let ghost s1 = s0 + preset_modifiers.deep_view();
    push_all_unique(&mut result, preset_modifiers.as_slice(), Ghost(s0));
    // 3. CLI --modifier values
    let ghost s2 = s1 + cli_modifiers.deep_view();
    push_all_unique(&mut result, cli_modifiers, Ghost(s1));
    // 4. --readonly and --context-pacing
    proof {
        reveal_strlit("readonly");
        reveal_strlit("context-pacing");
    }
    let ghost s3 = s2 + (if cli_readonly {
        seq!["readonly"@]
    } else {
        Seq::<Seq<char>>::empty()
    });
    if cli_readonly {
        push_unique(&mut result, "readonly", Ghost(s2));
        assert(s2.push("readonly"@) =~= s3);
    } else {
        assert(s2 =~= s3);
    }
    let ghost s4 = s3 + (if cli_context_pacing {
        seq!["context-pacing"@]
    } else {
        Seq::<Seq<char>>::empty()
    });
    if cli_context_pacing {
        push_unique(&mut result, "context-pacing", Ghost(s3));
        assert(s3.push("context-pacing"@) =~= s4);
    } else {
        assert(s3 =~= s4);
    }
    result
}

/// The path of a modifier's fragment.
pub fn resolve_modifier(name: &str, config: &Config, prompts_dir: &str) -> (r: Result<
    String,
    ResolveError,
>)
    ensures
        path_result(r) == modifier_outcome(name@, config, prompts_dir@),
{
    // File path heuristic
    if is_path_like(name) {
        return Ok(String::from_str(name));
    }
    // Built-in modifier

    if list_contains(&builtin_modifiers(), name) {
        proof {
            reveal_strlit("modifiers");
            reveal_strlit(".md");
        }
        let dir = join_path(prompts_dir, "modifiers");
        let file = concat2(name, ".md");
        return Ok(join_path(dir.as_str(), file.as_str()));
    }
    // Config-defined modifier

    if let Some(path) = config.modifiers.get(name) {
        return Ok(path.clone());
    }
    Err(ResolveError::UnknownModifier { name: String::from_str(name) })
}

// ---------------------------------------------------------------------------
// Helpers
// ---------------------------------------------------------------------------

/// Returns true if the value looks like a file/directory path rather than a
/// built-in or config-defined name.
pub fn is_path_like(value: &str) -> (r: bool)
    ensures
        r == path_like(value@),
{
    proof {
        reveal_strlit(".md");
    }
    str_contains_char(value, '/') || str_contains_char(value, '\\') || str_has_suffix(
        value,
        ".md",
    )
}

// ---------------------------------------------------------------------------
// Laws
// ---------------------------------------------------------------------------

/// Removing duplicates after names already seen, none of them twice, leaves
/// no name twice.
proof fn lemma_remove_duplicates_unique(s: Seq<Seq<char>>, seen: Seq<Seq<char>>)
    requires
        seen.no_duplicates(),
    ensures
        s.remove_duplicates(seen).no_duplicates(),
    decreases s.len(),
{
    if s.len() > 0 {
        if seen.contains(s[0]) {
            lemma_remove_duplicates_unique(s.skip(1), seen);
        } else {
            let next = seen + seq![s[0]];
            assert forall|a: int, b: int| 0 <= a < next.len() && 0 <= b < next.len() && a != b implies next[a] != next[b] by {
                if a == seen.len() as int {
                    assert(seen[b] == next[b]);
                } else if b == seen.len() as int {
                    assert(seen[a] == next[a]);
                }
            }
            lemma_remove_duplicates_unique(s.skip(1), next);
        }
    }
}

/// Removing duplicates after names already seen keeps those names first.
proof fn lemma_remove_duplicates_prefix(s: Seq<Seq<char>>, seen: Seq<Seq<char>>)
    ensures
        seen.len() <= s.remove_duplicates(seen).len(),
        s.remove_duplicates(seen).take(seen.len() as int) == seen,
    decreases s.len(),
{
    if s.len() > 0 {
        if seen.contains(s[0]) {
            lemma_remove_duplicates_prefix(s.skip(1), seen);
        } else {
            let next = seen + seq![s[0]];
            lemma_remove_duplicates_prefix(s.skip(1), next);
            let r = s.remove_duplicates(seen);
            assert(r.take(seen.len() as int) =~= r.take(next.len() as int).take(seen.len() as int));
            assert(next.take(seen.len() as int) =~= seen);
        }
    } else {
        assert(seen.take(seen.len() as int) =~= seen);
    }
}

/// Removing duplicates from a list that has none leaves it unchanged.
proof fn lemma_remove_duplicates_of_unique(s: Seq<Seq<char>>, seen: Seq<Seq<char>>)
    requires
        (seen + s).no_duplicates(),
    ensures
        s.remove_duplicates(seen) == seen + s,
    decreases s.len(),
{
    if s.len() == 0 {
        assert(seen + s =~= seen);
    } else {
        assert((seen + s)[seen.len() as int] == s[0]);
        assert(!seen.contains(s[0])) by {
            if seen.contains(s[0]) {
                let k = choose|k: int| 0 <= k < seen.len() && seen[k] == s[0];
                assert((seen + s)[k] == s[0]);
            }
        }
        let next = seen + seq![s[0]];
        assert(next + s.skip(1) =~= seen + s);
        lemma_remove_duplicates_of_unique(s.skip(1), next);
    }
}

/// The modifiers to apply hold no name twice; they hold exactly the names
/// of their sources; the configured defaults, when none repeats, come first
/// and in their order; and each flag given adds its modifier.
pub proof fn lemma_modifier_list_laws(
    defaults: Seq<Seq<char>>,
    preset_modifiers: Seq<Seq<char>>,
    cli_modifiers: Seq<Seq<char>>,
    readonly: bool,
    context_pacing: bool,
)
    ensures
        modifier_list(defaults, preset_modifiers, cli_modifiers, readonly, context_pacing).no_duplicates(),
        forall|m: Seq<char>|
            #[trigger] modifier_list(defaults, preset_modifiers, cli_modifiers, readonly, context_pacing).contains(m)
                <==> modifier_sources(defaults, preset_modifiers, cli_modifiers, readonly, context_pacing).contains(m),
        defaults.no_duplicates() ==> modifier_list(
            defaults,
            preset_modifiers,
            cli_modifiers,
            readonly,
            context_pacing,
        ).take(defaults.len() as int) == defaults,
        readonly ==> modifier_list(defaults, preset_modifiers, cli_modifiers, readonly, context_pacing).contains("readonly"@),
        context_pacing ==> modifier_list(defaults, preset_modifiers, cli_modifiers, readonly, context_pacing).contains("context-pacing"@),
{
    let src = modifier_sources(defaults, preset_modifiers, cli_modifiers, readonly, context_pacing);
    let empty = Seq::<Seq<char>>::empty();
    lemma_remove_duplicates_unique(src, empty);
    src.lemma_remove_duplicates_properties(empty);
    assert(src + empty =~= src);
    let rest = src.skip(defaults.len() as int);
    assert(src =~= defaults + rest);
    if defaults.no_duplicates() {
        if rest.len() == 0 {
            assert(empty + defaults =~= defaults);
            lemma_remove_duplicates_of_unique(defaults, empty);
            assert(src =~= defaults);
            assert(defaults.take(defaults.len() as int) =~= defaults);
        } else if defaults.len() > 0 {
            src.lemma_remove_duplicates_append_index(defaults.len() as int, empty);
            assert(src.take(defaults.len() as int) =~= defaults);
            assert(empty + defaults =~= defaults);
            lemma_remove_duplicates_of_unique(defaults, empty);
            lemma_remove_duplicates_prefix(rest, defaults);
        } else {
            assert(src.remove_duplicates(empty).take(0) =~= defaults);
        }
    }
    if readonly {
        let k = (defaults.len() + preset_modifiers.len() + cli_modifiers.len()) as int;
        assert(src[k] == "readonly"@);
        assert(src.contains("readonly"@));
    }
    if context_pacing {
        assert(src[src.len() - 1] == "context-pacing"@);
        assert(src.contains("context-pacing"@));
    }
}

/// Whichever configuration is given, a built-in preset resolves the same:
/// built-in presets shadow configured ones of the same name.
pub proof fn lemma_builtin_presets_shadow(name: Seq<char>, c1: &Config, c2: &Config)
    requires
        spec_builtin_preset(name) is Some,
    ensures
        preset_outcome(name, c1) == preset_outcome(name, c2),
{
}

/// When resolution succeeds: with no preset and no axis given there is no
/// axis fragment; otherwise there are three, in the order agency, quality,
/// scope, and each axis is the command line's, else the preset's, else the
/// default. The base is the command line's, else the preset's, else the
/// configured default, else `standard`; and there is one modifier fragment
/// per modifier to apply.
pub proof fn lemma_resolve_precedence(args: &ResolveArgs, config: &Config, prompts_dir: Seq<char>)
    requires
        resolve_outcome(args, config, prompts_dir) is Ok,
    ensures
        ({
            let r = resolve_outcome(args, config, prompts_dir)->Ok_0;
            let (axes, preset_modifiers, preset_base) = preset_outcome(
                preset_name_of(args),
                config,
            )->Ok_0;
            &&& none_mode(args) ==> r.axis_paths.len() == 0
            &&& !none_mode(args) ==> {
                &&& r.axis_paths.len() == 3
                &&& Ok::<Seq<char>, ResolveFailure>(r.axis_paths[0]) == axis_value_outcome(
                    "agency"@,
                    first_set(args.agency.deep_view(), axes.agency, spec_default_agency()),
                    config,
                    prompts_dir,
                )
                &&& Ok::<Seq<char>, ResolveFailure>(r.axis_paths[1]) == axis_value_outcome(
                    "quality"@,
                    first_set(args.quality.deep_view(), axes.quality, spec_default_quality()),
                    config,
                    prompts_dir,
                )
                &&& Ok::<Seq<char>, ResolveFailure>(r.axis_paths[2]) == axis_value_outcome(
                    "scope"@,
                    first_set(args.scope.deep_view(), axes.scope, spec_default_scope()),
                    config,
                    prompts_dir,
                )
            }
            &&& Ok::<Seq<char>, ResolveFailure>(r.base_dir) == base_outcome(
                base_choice(args, preset_base, config),
                config,
                prompts_dir,
            )
            &&& r.modifier_paths.len() == modifier_list(
                config.default_modifiers.deep_view(),
                preset_modifiers,
                args.modifiers.deep_view(),
                args.readonly,
                args.context_pacing,
            ).len()
            &&& r.append_system_prompt == args.append_system_prompt.deep_view()
        }),
{
    let names = modifier_list(
        config.default_modifiers.deep_view(),
        preset_outcome(preset_name_of(args), config)->Ok_0.1,
        args.modifiers.deep_view(),
        args.readonly,
        args.context_pacing,
    );
    lemma_modifier_paths_len(names, config, prompts_dir);
}

/// Resolving modifiers gives one fragment per modifier.
proof fn lemma_modifier_paths_len(names: Seq<Seq<char>>, config: &Config, prompts_dir: Seq<char>)
    ensures
        modifier_paths_outcome(names, config, prompts_dir) matches Ok(ps) ==> ps.len() == names.len(),
    decreases names.len(),
{
    if names.len() > 0 {
        lemma_modifier_paths_len(names.drop_last(), config, prompts_dir);
    }
}

/// A name or value that looks like a path stands for itself.
pub proof fn lemma_path_like_is_literal(
    axis: Seq<char>,
    value: Seq<char>,
    config: &Config,
    prompts_dir: Seq<char>,
)
    requires
        path_like(value),
    ensures
        axis_value_outcome(axis, value, config, prompts_dir) == Ok::<Seq<char>, ResolveFailure>(value),
        modifier_outcome(value, config, prompts_dir) == Ok::<Seq<char>, ResolveFailure>(value),
{
}

/// Giving any axis on the command line leaves `none` mode: when resolution
/// succeeds there are then exactly three axis fragments, in the order
/// agency, quality, scope, and each axis given on the command line is the
/// value resolved for it.
pub proof fn lemma_cli_axis_leaves_none_mode(
    args: &ResolveArgs,
    config: &Config,
    prompts_dir: Seq<char>,
)
    requires
        resolve_outcome(args, config, prompts_dir) is Ok,
        args.agency is Some || args.quality is Some || args.scope is Some,
    ensures
        ({
            let r = resolve_outcome(args, config, prompts_dir)->Ok_0;
            &&& r.axis_paths.len() == 3
            &&& args.agency.deep_view() matches Some(a) ==> Ok::<Seq<char>, ResolveFailure>(
                r.axis_paths[0],
            ) == axis_value_outcome("agency"@, a, config, prompts_dir)
            &&& args.quality.deep_view() matches Some(q) ==> Ok::<Seq<char>, ResolveFailure>(
                r.axis_paths[1],
            ) == axis_value_outcome("quality"@, q, config, prompts_dir)
            &&& args.scope.deep_view() matches Some(v) ==> Ok::<Seq<char>, ResolveFailure>(
                r.axis_paths[2],
            ) == axis_value_outcome("scope"@, v, config, prompts_dir)
        }),
{
    assert(args.agency is Some ==> args.agency.deep_view() is Some);
    assert(args.quality is Some ==> args.quality.deep_view() is Some);
    assert(args.scope is Some ==> args.scope.deep_view() is Some);
}

/// With no preset and no axis on the command line there is no axis
/// fragment at all.
pub proof fn lemma_no_preset_no_axis(args: &ResolveArgs, config: &Config, prompts_dir: Seq<char>)
    requires
        resolve_outcome(args, config, prompts_dir) is Ok,
        args.preset is None,
        args.agency is None,
        args.quality is None,
        args.scope is None,
    ensures
        resolve_outcome(args, config, prompts_dir)->Ok_0.axis_paths.len() == 0,
{
}

/// A built-in value of an axis, when it does not look like a path, is the
/// file `<prompts>/axis/<axis>/<value>.md`.
pub proof fn lemma_builtin_axis_value_path(
    value: Seq<char>,
    config: &Config,
    prompts_dir: Seq<char>,
)
    requires
        !path_like(value),
    ensures
        spec_agency_values().contains(value) ==> axis_value_outcome(
            "agency"@,
            value,
            config,
            prompts_dir,
        ) == Ok::<Seq<char>, ResolveFailure>(
            path_join(path_join(path_join(prompts_dir, "axis"@), "agency"@), value + ".md"@),
        ),
        spec_quality_values().contains(value) ==> axis_value_outcome(
            "quality"@,
            value,
            config,
            prompts_dir,
        ) == Ok::<Seq<char>, ResolveFailure>(
            path_join(path_join(path_join(prompts_dir, "axis"@), "quality"@), value + ".md"@),
        ),
        spec_scope_values().contains(value) ==> axis_value_outcome(
            "scope"@,
            value,
            config,
            prompts_dir,
        ) == Ok::<Seq<char>, ResolveFailure>(
            path_join(path_join(path_join(prompts_dir, "axis"@), "scope"@), value + ".md"@),
        ),
{
    reveal_strlit("agency");
    reveal_strlit("quality");
    reveal_strlit("scope");
}

/// A value that is neither path-like nor built-in resolves, on each axis, to
/// what that axis's own custom map gives it, whatever the other axes'
/// maps hold; a value in none of them is an unknown value of that axis.
pub proof fn lemma_custom_axis_value_path(
    value: Seq<char>,
    config: &Config,
    prompts_dir: Seq<char>,
)
    requires
        !path_like(value),
    ensures
        !spec_agency_values().contains(value) ==> axis_value_outcome(
            "agency"@,
            value,
            config,
            prompts_dir,
        ) == if config.axes.agency@.dom().contains(value) {
            Ok::<Seq<char>, ResolveFailure>(config.axes.agency@[value]@)
        } else {
            Err(ResolveFailure::UnknownAxisValue { axis: "agency"@, name: value })
        },
        !spec_quality_values().contains(value) ==> axis_value_outcome(
            "quality"@,
            value,
            config,
            prompts_dir,
        ) == if config.axes.quality@.dom().contains(value) {
            Ok::<Seq<char>, ResolveFailure>(config.axes.quality@[value]@)
        } else {
            Err(ResolveFailure::UnknownAxisValue { axis: "quality"@, name: value })
        },
        !spec_scope_values().contains(value) ==> axis_value_outcome(
            "scope"@,
            value,
            config,
            prompts_dir,
        ) == if config.axes.scope@.dom().contains(value) {
            Ok::<Seq<char>, ResolveFailure>(config.axes.scope@[value]@)
        } else {
            Err(ResolveFailure::UnknownAxisValue { axis: "scope"@, name: value })
        },
{
    reveal_strlit("agency");
    reveal_strlit("quality");
    reveal_strlit("scope");
    assert("agency"@.len() == 6 && "quality"@.len() == 7 && "scope"@.len() == 5);
}

/// Only the three axes exist: any other axis name is refused, unless the
/// value looks like a path.
pub proof fn lemma_unknown_axis_name(
    axis: Seq<char>,
    value: Seq<char>,
    config: &Config,
    prompts_dir: Seq<char>,
)
    requires
        !path_like(value),
        axis != "agency"@,
        axis != "quality"@,
        axis != "scope"@,
    ensures
        axis_value_outcome(axis, value, config, prompts_dir) == Err::<Seq<char>, ResolveFailure>(
            ResolveFailure::Other("unknown axis: "@ + axis),
        ),
{
}

/// A configured preset whose name is not built-in gives exactly its own
/// agency, quality, scope and base, and its modifiers followed by
/// `readonly` and `context-pacing` where its flags ask for them.
pub proof fn lemma_custom_preset_outcome(name: Seq<char>, config: &Config)
    requires
        name != "none"@,
        !spec_builtin_presets().contains(name),
        config.presets@.dom().contains(name),
    ensures
        ({
            let c = config.presets@[name];
            let (axes, modifiers, base) = preset_outcome(name, config)->Ok_0;
            &&& preset_outcome(name, config) is Ok
            &&& axes.agency == c.agency.deep_view()
            &&& axes.quality == c.quality.deep_view()
            &&& axes.scope == c.scope.deep_view()
            &&& base == c.base.deep_view()
            &&& modifiers.take(c.modifiers.len() as int) == c.modifiers.deep_view()
            &&& modifiers.len() == c.modifiers.len() + (if c.readonly {
                1int
            } else {
                0int
            }) + (if c.context_pacing {
                1int
            } else {
                0int
            })
            &&& c.readonly ==> modifiers[c.modifiers.len() as int] == "readonly"@
            &&& c.context_pacing ==> modifiers.last() == "context-pacing"@
        }),
{
    crate::presets::lemma_builtin_preset_names(name);
    let c = config.presets@[name]@;
    let m = custom_preset_modifiers(c);
    assert(m.take(c.modifiers.len() as int) =~= c.modifiers);
}

/// A preset name that is neither `none`, built-in nor configured is refused.
pub proof fn lemma_unknown_preset(name: Seq<char>, config: &Config)
    requires
        name != "none"@,
        !spec_builtin_presets().contains(name),
        !config.presets@.dom().contains(name),
    ensures
        preset_outcome(name, config) matches Err(ResolveFailure::UnknownPreset { name: n, .. })
            && n == name,
{
    crate::presets::lemma_builtin_preset_names(name);
}

/// A built-in modifier that does not look like a path is the file
/// `<prompts>/modifiers/<name>.md`; any other name not looking like a path
/// is what the configuration maps it to, or an unknown modifier.
pub proof fn lemma_modifier_path(name: Seq<char>, config: &Config, prompts_dir: Seq<char>)
    requires
        !path_like(name),
    ensures
        spec_builtin_modifiers().contains(name) ==> modifier_outcome(name, config, prompts_dir)
            == Ok::<Seq<char>, ResolveFailure>(
            path_join(path_join(prompts_dir, "modifiers"@), name + ".md"@),
        ),
        !spec_builtin_modifiers().contains(name) ==> modifier_outcome(name, config, prompts_dir)
            == if config.modifiers@.dom().contains(name) {
            Ok::<Seq<char>, ResolveFailure>(config.modifiers@[name]@)
        } else {
            Err(ResolveFailure::UnknownModifier { name })
        },
{
}

/// A base name without a separator is `<prompts>/base` for `standard`,
/// refused for `chill`, and otherwise what the configuration maps it to,
/// or an unknown base.
pub proof fn lemma_base_path(name: Seq<char>, config: &Config, prompts_dir: Seq<char>)
    requires
        !name.contains('/'),
        !name.contains('\\'),
    ensures
        name == "standard"@ ==> base_outcome(name, config, prompts_dir) == Ok::<
            Seq<char>,
            ResolveFailure,
        >(path_join(prompts_dir, "base"@)),
        name == "chill"@ ==> base_outcome(name, config, prompts_dir) == Err::<
            Seq<char>,
            ResolveFailure,
        >(ResolveFailure::ChillBaseNotPorted { name }),
        name != "standard"@ && name != "chill"@ ==> base_outcome(name, config, prompts_dir)
            == if config.bases@.dom().contains(name) {
            Ok::<Seq<char>, ResolveFailure>(config.bases@[name]@)
        } else {
            Err(ResolveFailure::UnknownBase { name })
        },
{
    reveal_strlit("standard");
    reveal_strlit("chill");
    assert("standard"@.len() == 8 && "chill"@.len() == 5);
}

} // verus!
