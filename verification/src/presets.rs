//! Built-in presets, axis values and modifiers.
use vstd::prelude::*;
use vstd::string::*;

use crate::text::str_eq;

verus! {

/// The three axes, each possibly unset, as plain character sequences.
pub struct AxisSpec {
    pub agency: Option<Seq<char>>,
    pub quality: Option<Seq<char>>,
    pub scope: Option<Seq<char>>,
}

/// Axis values that control which prompt fragments are assembled.
///
/// Each axis is optional: when `None`, no fragment is included for that
/// axis. All three unset is the `none` mode.
#[derive(Debug, Clone)]
pub struct AxisValues {
    pub agency: Option<String>,
    pub quality: Option<String>,
    pub scope: Option<String>,
}

impl View for AxisValues {
    type V = AxisSpec;

    open spec fn view(&self) -> AxisSpec {
        AxisSpec {
            agency: self.agency.deep_view(),
            quality: self.quality.deep_view(),
            scope: self.scope.deep_view(),
        }
    }
}

/// No axis set.
pub open spec fn empty_axes() -> AxisSpec {
    AxisSpec { agency: None, quality: None, scope: None }
}

/// `b`'s value where it has one, `a`'s otherwise.
pub open spec fn override_opt(a: Option<Seq<char>>, b: Option<Seq<char>>) -> Option<Seq<char>> {
    match b {
        Some(v) => Some(v),
        None => a,
    }
}

/// `base` with every axis that `other` sets replaced by `other`'s value.
pub open spec fn merge_axes(base: AxisSpec, other: AxisSpec) -> AxisSpec {
    AxisSpec {
        agency: override_opt(base.agency, other.agency),
        quality: override_opt(base.quality, other.quality),
        scope: override_opt(base.scope, other.scope),
    }
}

/// A copy of an optional string.
pub fn clone_opt(o: &Option<String>) -> (r: Option<String>)
    ensures
        r.deep_view() == o.deep_view(),
{
    match o {
        Some(s) => Some(s.clone()),
        None => None,
    }
}

/// A copy of a list of strings.
pub fn clone_strings(v: &Vec<String>) -> (r: Vec<String>)
    ensures
        r.deep_view() == v.deep_view(),
{
    let mut r: Vec<String> = Vec::new();
    let mut i: usize = 0;
    while i < v.len()
        invariant
            i <= v.len(),
            r.deep_view() == v.deep_view().take(i as int),
        decreases v.len() - i,
    {
        r.push(v[i].clone());
        proof {
            assert(v.deep_view().take(i + 1) =~= v.deep_view().take(i as int).push(v[i as int]@));
        }
        i = i + 1;
    }
    assert(v.deep_view().take(v.len() as int) =~= v.deep_view());
    r
}

impl Default for AxisValues {
    fn default() -> (r: Self)
        ensures
            r@ == empty_axes(),
    {
        AxisValues { agency: None, quality: None, scope: None }
    }
}

impl AxisValues {
    /// True when no axes are active (equivalent to `none` mode).
    pub fn is_empty(&self) -> (r: bool)
        ensures
            r == (self@ == empty_axes()),
    {
        self.agency.is_none() && self.quality.is_none() && self.scope.is_none()
    }

    /// Merge another AxisValues into this one. Non-None values in `other`
    /// overwrite the corresponding values in `self`.
    pub fn merge(&mut self, other: &AxisValues)
        ensures
            final(self)@ == merge_axes(old(self)@, other@),
    {
        if other.agency.is_some() {
            self.agency = clone_opt(&other.agency);
        }
        if other.quality.is_some() {
            self.quality = clone_opt(&other.quality);
        }
        if other.scope.is_some() {
            self.scope = clone_opt(&other.scope);
        }
    }
}

/// Merging what `other` sets, once or twice, gives the same axes; merging
/// nothing changes nothing; and every axis of the result comes from one of
/// the two operands.
pub proof fn lemma_merge_laws(a: AxisSpec, b: AxisSpec)
    ensures
        merge_axes(merge_axes(a, b), b) == merge_axes(a, b),
        merge_axes(a, empty_axes()) == a,
        merge_axes(empty_axes(), b) == b,
        merge_axes(a, a) == a,
{
}

/// Merging `b` then `c` is merging the merge of `b` and `c`.
pub proof fn lemma_merge_associative(a: AxisSpec, b: AxisSpec, c: AxisSpec)
    ensures
        merge_axes(merge_axes(a, b), c) == merge_axes(a, merge_axes(b, c)),
{
}

// ---------------------------------------------------------------------------
// Built-in names
// ---------------------------------------------------------------------------

pub open spec fn spec_agency_values() -> Seq<Seq<char>> {
    seq!["autonomous"@, "collaborative"@, "partner"@, "surgical"@]
}

pub open spec fn spec_quality_values() -> Seq<Seq<char>> {
    seq!["architect"@, "minimal"@, "pragmatic"@]
}

pub open spec fn spec_scope_values() -> Seq<Seq<char>> {
    seq!["adjacent"@, "narrow"@, "unrestricted"@]
}

pub open spec fn spec_builtin_modifiers() -> Seq<Seq<char>> {
    seq![
        "readonly"@,
        "context-pacing"@,
        "debug"@,
        "methodical"@,
        "director"@,
        "bold"@,
        "speak-plain"@,
        "tdd"@,
        "muse"@,
    ]
}

pub open spec fn spec_builtin_presets() -> Seq<Seq<char>> {
    seq![
        "none"@,
        "safe"@,
        "create"@,
        "extend"@,
        "refactor"@,
        "explore"@,
        "debug"@,
        "methodical"@,
        "director"@,
        "partner"@,
        "muse"@,
    ]
}

/// The views of a list of string slices.
pub open spec fn str_views(v: Seq<&str>) -> Seq<Seq<char>> {
    v.map_values(|s: &str| s@)
}

/// Whether `name` is one of `list`.
pub fn list_contains(list: &Vec<&str>, name: &str) -> (r: bool)
    ensures
        r == str_views(list@).contains(name@),
{
    let mut i: usize = 0;
    while i < list.len()
        invariant
            i <= list.len(),
            forall|k: int| 0 <= k < i ==> list@[k]@ != name@,
        decreases list.len() - i,
    {
        if str_eq(list[i], name) {
            assert(str_views(list@)[i as int] == name@);
            return true;
        }
        i = i + 1;
    }
    assert forall|k: int| 0 <= k < str_views(list@).len() implies str_views(list@)[k] != name@ by {
        assert(str_views(list@)[k] == list@[k]@);
    }
    false
}

/// Built-in values of the agency axis.
pub fn agency_values() -> (r: Vec<&'static str>)
    ensures
        str_views(r@) == spec_agency_values(),
{
    let r = vec!["autonomous", "collaborative", "partner", "surgical"];
    assert(str_views(r@) =~= spec_agency_values());
    r
}

/// Built-in values of the quality axis.
pub fn quality_values() -> (r: Vec<&'static str>)
    ensures
        str_views(r@) == spec_quality_values(),
{
    let r = vec!["architect", "minimal", "pragmatic"];
    assert(str_views(r@) =~= spec_quality_values());
    r
}

/// Built-in values of the scope axis.
pub fn scope_values() -> (r: Vec<&'static str>)
    ensures
        str_views(r@) == spec_scope_values(),
{
    let r = vec!["adjacent", "narrow", "unrestricted"];
    assert(str_views(r@) =~= spec_scope_values());
    r
}

/// Built-in modifier names.
pub fn builtin_modifiers() -> (r: Vec<&'static str>)
    ensures
        str_views(r@) == spec_builtin_modifiers(),
{
    let r = vec![
        "readonly",
        "context-pacing",
        "debug",
        "methodical",
        "director",
        "bold",
        "speak-plain",
        "tdd",
        "muse",
    ];
    assert(str_views(r@) =~= spec_builtin_modifiers());
    r
}

/// Built-in preset names, in the order they are listed to users.
pub fn builtin_presets() -> (r: Vec<&'static str>)
    ensures
        str_views(r@) == spec_builtin_presets(),
{
    let r = vec![
        "none",
        "safe",
        "create",
        "extend",
        "refactor",
        "explore",
        "debug",
        "methodical",
        "director",
        "partner",
        "muse",
    ];
    assert(str_views(r@) =~= spec_builtin_presets());
    r
}

/// The agency used when a mode is active but neither the command line nor
/// the preset sets one.
pub open spec fn spec_default_agency() -> Seq<char> {
    "collaborative"@
}

/// The quality used when a mode is active but none is set.
pub open spec fn spec_default_quality() -> Seq<char> {
    "pragmatic"@
}

/// The scope used when a mode is active but none is set.
pub open spec fn spec_default_scope() -> Seq<char> {
    "adjacent"@
}

pub fn default_agency() -> (r: &'static str)
    ensures
        r@ == spec_default_agency(),
{
    "collaborative"
}

pub fn default_quality() -> (r: &'static str)
    ensures
        r@ == spec_default_quality(),
{
    "pragmatic"
}

pub fn default_scope() -> (r: &'static str)
    ensures
        r@ == spec_default_scope(),
{
    "adjacent"
}

// ---------------------------------------------------------------------------
// Preset table
// ---------------------------------------------------------------------------

/// A preset: its axes and the modifiers it adds.
pub struct PresetSpec {
    pub axes: AxisSpec,
    pub modifiers: Seq<Seq<char>>,
}

/// A built-in preset.
#[derive(Debug, Clone)]
pub struct Preset {
    pub axes: AxisValues,
    pub modifiers: Vec<String>,
}

impl View for Preset {
    type V = PresetSpec;

    open spec fn view(&self) -> PresetSpec {
        PresetSpec { axes: self.axes@, modifiers: self.modifiers.deep_view() }
    }
}

/// Three set axes.
pub open spec fn axes3(a: Seq<char>, q: Seq<char>, s: Seq<char>) -> AxisSpec {
    AxisSpec { agency: Some(a), quality: Some(q), scope: Some(s) }
}

/// The built-in preset of the given name.
pub open spec fn spec_builtin_preset(name: Seq<char>) -> Option<PresetSpec> {
    if name == "none"@ {
        Some(PresetSpec { axes: empty_axes(), modifiers: seq![] })
    } else if name == "safe"@ {
        Some(
            PresetSpec {
                axes: axes3("collaborative"@, "minimal"@, "narrow"@),
                modifiers: seq![],
            },
        )
    } else if name == "create"@ {
        Some(
            PresetSpec {
                axes: axes3("autonomous"@, "architect"@, "unrestricted"@),
                modifiers: seq![],
            },
        )
    } else if name == "extend"@ {
        Some(
            PresetSpec { axes: axes3("autonomous"@, "pragmatic"@, "adjacent"@), modifiers: seq![] },
        )
    } else if name == "refactor"@ {
        Some(
            PresetSpec {
                axes: axes3("autonomous"@, "pragmatic"@, "unrestricted"@),
                modifiers: seq![],
            },
        )
    } else if name == "explore"@ {
        Some(
            PresetSpec {
                axes: axes3("collaborative"@, "architect"@, "narrow"@),
                modifiers: seq!["readonly"@],
            },
        )
    } else if name == "debug"@ {
        Some(
            PresetSpec {
                axes: axes3("collaborative"@, "pragmatic"@, "narrow"@),
                modifiers: seq!["debug"@],
            },
        )
    } else if name == "methodical"@ {
        Some(
            PresetSpec {
                axes: axes3("surgical"@, "architect"@, "narrow"@),
                modifiers: seq!["methodical"@],
            },
        )
    } else if name == "director"@ {
        Some(
            PresetSpec {
                axes: axes3("collaborative"@, "architect"@, "unrestricted"@),
                modifiers: seq!["director"@],
            },
        )
    } else if name == "partner"@ {
        Some(
            PresetSpec {
                axes: axes3("partner"@, "pragmatic"@, "adjacent"@),
                modifiers: seq!["speak-plain"@],
            },
        )
    } else if name == "muse"@ {
        Some(
            PresetSpec {
                axes: axes3("autonomous"@, "architect"@, "unrestricted"@),
                modifiers: seq!["muse"@],
            },
        )
    } else {
        None
    }
}

fn make_preset(a: &str, q: &str, s: &str, m: Option<&str>) -> (r: Preset)
    ensures
        r@.axes == axes3(a@, q@, s@),
        r@.modifiers == (match m {
            Some(x) => seq![x@],
            None => Seq::<Seq<char>>::empty(),
        }),
{
    let mut modifiers: Vec<String> = Vec::new();
    match m {
        Some(x) => {
            modifiers.push(String::from_str(x));
        },
        None => {},
    }
    let r = Preset {
        axes: AxisValues {
            agency: Some(String::from_str(a)),
            quality: Some(String::from_str(q)),
            scope: Some(String::from_str(s)),
        },
        modifiers,
    };
    assert(r@.modifiers =~= (match m {
        Some(x) => seq![x@],
        None => Seq::<Seq<char>>::empty(),
    }));
    r
}

/// The built-in preset of the given name: its axes and its modifiers.
pub fn builtin_preset(name: &str) -> (r: Option<Preset>)
    ensures
        match r {
            Some(p) => spec_builtin_preset(name@) == Some(p@),
            None => spec_builtin_preset(name@) is None,
        },
{
    if str_eq(name, "none") {
        let p = Preset { axes: AxisValues::default(), modifiers: Vec::new() };
        assert(p@.modifiers =~= Seq::<Seq<char>>::empty());
        Some(p)
    } else if str_eq(name, "safe") {
        Some(make_preset("collaborative", "minimal", "narrow", None))
    } else if str_eq(name, "create") {
        Some(make_preset("autonomous", "architect", "unrestricted", None))
    } else if str_eq(name, "extend") {
        Some(make_preset("autonomous", "pragmatic", "adjacent", None))
    } else if str_eq(name, "refactor") {
        Some(make_preset("autonomous", "pragmatic", "unrestricted", None))
    } else if str_eq(name, "explore") {
        Some(make_preset("collaborative", "architect", "narrow", Some("readonly")))
    } else if str_eq(name, "debug") {
        Some(make_preset("collaborative", "pragmatic", "narrow", Some("debug")))
    } else if str_eq(name, "methodical") {
        Some(make_preset("surgical", "architect", "narrow", Some("methodical")))
    } else if str_eq(name, "director") {
        Some(make_preset("collaborative", "architect", "unrestricted", Some("director")))
    } else if str_eq(name, "partner") {
        Some(make_preset("partner", "pragmatic", "adjacent", Some("speak-plain")))
    } else if str_eq(name, "muse") {
        Some(make_preset("autonomous", "architect", "unrestricted", Some("muse")))
    } else {
        None
    }
}

/// Returns the axis values for a named preset, or `None` if the preset
/// is unknown.
pub fn get_preset(name: &str) -> (r: Option<AxisValues>)
    ensures
        match r {
            Some(a) => spec_builtin_preset(name@) matches Some(p) && p.axes == a@,
            None => spec_builtin_preset(name@) is None,
        },
{
    match builtin_preset(name) {
        Some(p) => Some(p.axes),
        None => None,
    }
}

/// Every built-in preset name names a preset, and no other name does.
pub proof fn lemma_builtin_preset_names(name: Seq<char>)
    ensures
        spec_builtin_preset(name) is Some <==> spec_builtin_presets().contains(name),
{
    if spec_builtin_presets().contains(name) {
        let i = choose|i: int| 0 <= i < spec_builtin_presets().len() && spec_builtin_presets()[i] == name;
        assert(spec_builtin_preset(spec_builtin_presets()[i]) is Some);
    } else {
        assert(spec_builtin_presets()[0] == "none"@);
        assert(spec_builtin_presets()[1] == "safe"@);
        assert(spec_builtin_presets()[2] == "create"@);
        assert(spec_builtin_presets()[3] == "extend"@);
        assert(spec_builtin_presets()[4] == "refactor"@);
        assert(spec_builtin_presets()[5] == "explore"@);
        assert(spec_builtin_presets()[6] == "debug"@);
        assert(spec_builtin_presets()[7] == "methodical"@);
        assert(spec_builtin_presets()[8] == "director"@);
        assert(spec_builtin_presets()[9] == "partner"@);
        assert(spec_builtin_presets()[10] == "muse"@);
    }
}

} // verus!
