//! The edits that the `config` subcommand makes to a configuration file.
use vstd::prelude::*;
use vstd::string::*;

use crate::config::{str_map, CustomPreset, CustomPresetSpec, RawAxesConfig, RawConfig};
use crate::name_map::NameMap;
use crate::presets::{
    agency_values, builtin_modifiers, builtin_presets, list_contains, quality_values,
    scope_values, spec_agency_values, spec_builtin_modifiers, spec_builtin_presets,
    spec_quality_values, spec_scope_values, str_views,
};
use crate::resolve::axis_builtins;
use crate::text::{concat2, concat3, str_eq};

verus! {

/// A configuration file as plain values.
pub struct RawConfigSpec {
    pub default_base: Option<Seq<char>>,
    pub default_modifiers: Seq<Seq<char>>,
    pub bases: Map<Seq<char>, Seq<char>>,
    pub modifiers: Map<Seq<char>, Seq<char>>,
    pub agency: Map<Seq<char>, Seq<char>>,
    pub quality: Map<Seq<char>, Seq<char>>,
    pub scope: Map<Seq<char>, Seq<char>>,
    pub presets: Map<Seq<char>, CustomPresetSpec>,
}

impl View for RawConfig {
    type V = RawConfigSpec;

    open spec fn view(&self) -> RawConfigSpec {
        RawConfigSpec {
            default_base: self.default_base.deep_view(),
            default_modifiers: self.default_modifiers.deep_view(),
            bases: str_map(self.bases@),
            modifiers: str_map(self.modifiers@),
            agency: str_map(self.axes.agency@),
            quality: str_map(self.axes.quality@),
            scope: str_map(self.axes.scope@),
            presets: self.presets@.map_values(|p: CustomPreset| p@),
        }
    }
}

impl Default for RawConfig {
    fn default() -> (r: Self)
        ensures
            r@ == empty_config_file(),
    {
        let r = RawConfig {
            default_base: None,
            default_modifiers: Vec::new(),
            bases: NameMap::new(),
            modifiers: NameMap::new(),
            axes: RawAxesConfig {
                agency: NameMap::new(),
                quality: NameMap::new(),
                scope: NameMap::new(),
            },
            presets: NameMap::new(),
        };
        assert(r@.default_modifiers =~= Seq::<Seq<char>>::empty());
        assert(r@.bases =~= Map::<Seq<char>, Seq<char>>::empty());
        assert(r@.modifiers =~= Map::<Seq<char>, Seq<char>>::empty());
        assert(r@.agency =~= Map::<Seq<char>, Seq<char>>::empty());
        assert(r@.quality =~= Map::<Seq<char>, Seq<char>>::empty());
        assert(r@.scope =~= Map::<Seq<char>, Seq<char>>::empty());
        assert(r@.presets =~= Map::<Seq<char>, CustomPresetSpec>::empty());
        r
    }
}

/// A configuration file with nothing in it.
pub open spec fn empty_config_file() -> RawConfigSpec {
    RawConfigSpec {
        default_base: None,
        default_modifiers: seq![],
        bases: Map::empty(),
        modifiers: Map::empty(),
        agency: Map::empty(),
        quality: Map::empty(),
        scope: Map::empty(),
        presets: Map::empty(),
    }
}

/// Whether an edit changed the file (and it is to be written).
#[derive(Debug, Clone, Copy, PartialEq, Eq, Structural)]
pub enum EditOutcome {
    Changed,
    Unchanged,
}

/// An edit's result: the new file and whether it changed, or the message of
/// the refusal.
pub type EditSpec = Result<(RawConfigSpec, EditOutcome), Seq<char>>;

pub open spec fn edit_result(r: Result<EditOutcome, String>, after: RawConfigSpec) -> EditSpec {
    match r {
        Ok(o) => Ok((after, o)),
        Err(m) => Err(m@),
    }
}

/// The message for an axis name that is none of the three.
pub open spec fn invalid_axis_message(axis: Seq<char>) -> Seq<char> {
    "Invalid axis '"@ + axis + "'. Must be 'agency', 'quality', or 'scope'"@
}

pub open spec fn add_modifier_spec(c: RawConfigSpec, name: Seq<char>, path: Seq<char>) -> EditSpec {
    if spec_builtin_modifiers().contains(name) {
        Err("'"@ + name + "' collides with a built-in modifier name"@)
    } else if c.modifiers.dom().contains(name) {
        Err("Modifier '"@ + name + "' already exists"@)
    } else {
        Ok((RawConfigSpec { modifiers: c.modifiers.insert(name, path), ..c }, EditOutcome::Changed))
    }
}

pub open spec fn remove_modifier_spec(c: RawConfigSpec, name: Seq<char>) -> EditSpec {
    if !c.modifiers.dom().contains(name) {
        Err("Modifier '"@ + name + "' not found"@)
    } else {
        Ok((RawConfigSpec { modifiers: c.modifiers.remove(name), ..c }, EditOutcome::Changed))
    }
}

pub open spec fn add_default_spec(c: RawConfigSpec, name: Seq<char>) -> EditSpec {
    if c.default_modifiers.contains(name) {
        Ok((c, EditOutcome::Unchanged))
    } else {
        Ok(
            (
                RawConfigSpec { default_modifiers: c.default_modifiers.push(name), ..c },
                EditOutcome::Changed,
            ),
        )
    }
}

pub open spec fn remove_default_spec(c: RawConfigSpec, name: Seq<char>) -> EditSpec {
    if !c.default_modifiers.contains(name) {
        Err("'"@ + name + "' is not in default modifiers"@)
    } else {
        Ok(
            (
                RawConfigSpec {
                    default_modifiers: c.default_modifiers.remove(
                        c.default_modifiers.index_of_first(name)->0,
                    ),
                    ..c
                },
                EditOutcome::Changed,
            ),
        )
    }
}

/// The file with the map of `axis` replaced by `m`.
pub open spec fn with_axis_map(
    c: RawConfigSpec,
    axis: Seq<char>,
    m: Map<Seq<char>, Seq<char>>,
) -> RawConfigSpec {
    if axis == "agency"@ {
        RawConfigSpec { agency: m, ..c }
    } else if axis == "quality"@ {
        RawConfigSpec { quality: m, ..c }
    } else {
        RawConfigSpec { scope: m, ..c }
    }
}

/// The map of `axis` in the file.
pub open spec fn axis_map_of(c: RawConfigSpec, axis: Seq<char>) -> Map<Seq<char>, Seq<char>> {
    if axis == "agency"@ {
        c.agency
    } else if axis == "quality"@ {
        c.quality
    } else {
        c.scope
    }
}

pub open spec fn add_axis_spec(
    c: RawConfigSpec,
    axis: Seq<char>,
    name: Seq<char>,
    path: Seq<char>,
) -> EditSpec {
    match axis_builtins(axis) {
        None => Err(invalid_axis_message(axis)),
        Some(builtin) => if builtin.contains(name) {
            Err("'"@ + name + "' collides with a built-in "@ + axis + " value"@)
        } else {
            Ok(
                (
                    with_axis_map(c, axis, axis_map_of(c, axis).insert(name, path)),
                    EditOutcome::Changed,
                ),
            )
        },
    }
}

pub open spec fn remove_axis_spec(c: RawConfigSpec, axis: Seq<char>, name: Seq<char>) -> EditSpec {
    if axis_builtins(axis) is None {
        Err(invalid_axis_message(axis))
    } else if !axis_map_of(c, axis).dom().contains(name) {
        Err(axis + " value '"@ + name + "' not found"@)
    } else {
        Ok(
            (
                with_axis_map(c, axis, axis_map_of(c, axis).remove(name)),
                EditOutcome::Changed,
            ),
        )
    }
}

pub open spec fn add_preset_spec(c: RawConfigSpec, name: Seq<char>, preset: CustomPresetSpec) -> EditSpec {
    if spec_builtin_presets().contains(name) {
        Err("'"@ + name + "' collides with a built-in preset name"@)
    } else {
        Ok((RawConfigSpec { presets: c.presets.insert(name, preset), ..c }, EditOutcome::Changed))
    }
}

pub open spec fn remove_preset_spec(c: RawConfigSpec, name: Seq<char>) -> EditSpec {
    if !c.presets.dom().contains(name) {
        Err("Preset '"@ + name + "' not found"@)
    } else {
        Ok((RawConfigSpec { presets: c.presets.remove(name), ..c }, EditOutcome::Changed))
    }
}

/// The string map after an insertion, by views.
proof fn lemma_str_map_insert(m: Map<Seq<char>, String>, k: Seq<char>, v: String)
    ensures
        str_map(m.insert(k, v)) == str_map(m).insert(k, v@),
{
    assert(str_map(m.insert(k, v)) =~= str_map(m).insert(k, v@));
}

/// The string map after a removal, by views.
proof fn lemma_str_map_remove(m: Map<Seq<char>, String>, k: Seq<char>)
    ensures
        str_map(m.remove(k)) == str_map(m).remove(k),
{
    assert(str_map(m.remove(k)) =~= str_map(m).remove(k));
}

/// Whether `list` holds `name`, and where first.
fn position_of(list: &Vec<String>, name: &str) -> (r: Option<usize>)
    ensures
        match r {
            Some(i) => i < list.len() && list.deep_view()[i as int] == name@
                && list.deep_view().contains(name@)
                && list.deep_view().index_of_first(name@) == Some(i as int),
            None => !list.deep_view().contains(name@),
        },
{
    let mut i: usize = 0;
    while i < list.len()
        invariant
            i <= list.len(),
            forall|k: int| 0 <= k < i ==> list.deep_view()[k] != name@,
        decreases list.len() - i,
    {
        if str_eq(list[i].as_str(), name) {
            proof {
                let dv = list.deep_view();
                assert(dv[i as int] == name@);
                assert(dv.contains(name@));
                dv.index_of_first_ensures(name@);
                let j = dv.index_of_first(name@)->0;
                assert(j == i);
            }
            return Some(i);
        }
        i = i + 1;
    }
    None
}

impl RawConfig {
    /// Add a named modifier mapping.
    pub fn add_modifier(&mut self, name: &str, path: &str) -> (r: Result<EditOutcome, String>)
        ensures
            edit_result(r, final(self)@) == add_modifier_spec(old(self)@, name@, path@),
            r is Err ==> final(self)@ == old(self)@,
    {
        proof {
            reveal_strlit("'");
            reveal_strlit("' collides with a built-in modifier name");
            reveal_strlit("Modifier '");
            reveal_strlit("' already exists");
        }
        if list_contains(&builtin_modifiers(), name) {
            return Err(concat3("'", name, "' collides with a built-in modifier name"));
        }
        if self.modifiers.contains_key(name) {
            return Err(concat3("Modifier '", name, "' already exists"));
        }
        let ghost before = self.modifiers@;
        let value = String::from_str(path);
        self.modifiers.insert(String::from_str(name), value);
        proof {
            lemma_str_map_insert(before, name@, value);
        }
        Ok(EditOutcome::Changed)
    }

    /// Remove a named modifier.
    pub fn remove_modifier(&mut self, name: &str) -> (r: Result<EditOutcome, String>)
        ensures
            edit_result(r, final(self)@) == remove_modifier_spec(old(self)@, name@),
            r is Err ==> final(self)@ == old(self)@,
    {
        if !self.modifiers.contains_key(name) {
            return Err(concat3("Modifier '", name, "' not found"));
        }
        let ghost before = self.modifiers@;
        self.modifiers.remove(name);
        proof {
            lemma_str_map_remove(before, name@);
        }
        Ok(EditOutcome::Changed)
    }

    /// Add to the default modifiers (nothing changes if already present).
    pub fn add_default(&mut self, name: &str) -> (r: Result<EditOutcome, String>)
        ensures
            edit_result(r, final(self)@) == add_default_spec(old(self)@, name@),
    {
        if position_of(&self.default_modifiers, name).is_some() {
            return Ok(EditOutcome::Unchanged);
        }
        let ghost before = self.default_modifiers.deep_view();
        self.default_modifiers.push(String::from_str(name));
        assert(self.default_modifiers.deep_view() =~= before.push(name@));
        Ok(EditOutcome::Changed)
    }

    /// Remove from the default modifiers.
    pub fn remove_default(&mut self, name: &str) -> (r: Result<EditOutcome, String>)
        ensures
            edit_result(r, final(self)@) == remove_default_spec(old(self)@, name@),
            r is Err ==> final(self)@ == old(self)@,
    {
        match position_of(&self.default_modifiers, name) {
            Some(i) => {
                let ghost before = self.default_modifiers.deep_view();
                self.default_modifiers.remove(i);
                assert(self.default_modifiers.deep_view() =~= before.remove(i as int));
                Ok(EditOutcome::Changed)
            },
            None => Err(concat3("'", name, "' is not in default modifiers")),
        }
    }

    /// Add a custom axis value.
    pub fn add_axis(&mut self, axis: &str, name: &str, path: &str) -> (r: Result<
        EditOutcome,
        String,
    >)
        ensures
            edit_result(r, final(self)@) == add_axis_spec(old(self)@, axis@, name@, path@),
            r is Err ==> final(self)@ == old(self)@,
    {
        proof {
            reveal_strlit("agency");
            reveal_strlit("quality");
            reveal_strlit("scope");
        }
        let builtin = if str_eq(axis, "agency") {
            agency_values()
        } else if str_eq(axis, "quality") {
            quality_values()
        } else if str_eq(axis, "scope") {
            scope_values()
        } else {
            return Err(invalid_axis(axis));
        };
        assert(axis_builtins(axis@) == Some(str_views(builtin@)));
        if list_contains(&builtin, name) {
            let m = concat3("'", name, "' collides with a built-in ");
            let m = concat3(m.as_str(), axis, " value");
            return Err(m);
        }
        let value = String::from_str(path);
        let key = String::from_str(name);
        if str_eq(axis, "agency") {
            let ghost before = self.axes.agency@;
            self.axes.agency.insert(key, value);
            proof {
                lemma_str_map_insert(before, name@, value);
            }
        } else if str_eq(axis, "quality") {
            let ghost before = self.axes.quality@;
            self.axes.quality.insert(key, value);
            proof {
                lemma_str_map_insert(before, name@, value);
            }
        } else {
            let ghost before = self.axes.scope@;
            self.axes.scope.insert(key, value);
            proof {
                lemma_str_map_insert(before, name@, value);
            }
        }
        Ok(EditOutcome::Changed)
    }

    /// Remove a custom axis value.
    pub fn remove_axis(&mut self, axis: &str, name: &str) -> (r: Result<EditOutcome, String>)
        ensures
            edit_result(r, final(self)@) == remove_axis_spec(old(self)@, axis@, name@),
            r is Err ==> final(self)@ == old(self)@,
    {
        proof {
            reveal_strlit("agency");
            reveal_strlit("quality");
            reveal_strlit("scope");
        }
        let map = if str_eq(axis, "agency") {
            &mut self.axes.agency
        } else if str_eq(axis, "quality") {
            &mut self.axes.quality
        } else if str_eq(axis, "scope") {
            &mut self.axes.scope
        } else {
            return Err(invalid_axis(axis));
        };
        if !map.contains_key(name) {
            let tail = concat2(name, "' not found");
            let m = concat3(axis, " value '", tail.as_str());
            assert(m@ =~= axis@ + " value '"@ + name@ + "' not found"@);
            return Err(m);
        }
        let ghost before = map@;
        map.remove(name);
        proof {
            lemma_str_map_remove(before, name@);
        }
        Ok(EditOutcome::Changed)
    }

    /// Create or replace a custom preset.
    pub fn add_preset(&mut self, name: &str, preset: CustomPreset) -> (r: Result<
        EditOutcome,
        String,
    >)
        ensures
            edit_result(r, final(self)@) == add_preset_spec(old(self)@, name@, preset@),
            r is Err ==> final(self)@ == old(self)@,
    {
        if list_contains(&builtin_presets(), name) {
            return Err(concat3("'", name, "' collides with a built-in preset name"));
        }
        let ghost before = self.presets@;
        let ghost pv = preset@;
        self.presets.insert(String::from_str(name), preset);
        proof {
            assert(self.presets@.map_values(|p: CustomPreset| p@) =~= before.map_values(
                |p: CustomPreset| p@,
            ).insert(name@, pv));
        }
        Ok(EditOutcome::Changed)
    }

    /// Remove a custom preset.
    pub fn remove_preset(&mut self, name: &str) -> (r: Result<EditOutcome, String>)
        ensures
            edit_result(r, final(self)@) == remove_preset_spec(old(self)@, name@),
            r is Err ==> final(self)@ == old(self)@,
    {
        if !self.presets.contains_key(name) {
            return Err(concat3("Preset '", name, "' not found"));
        }
        let ghost before = self.presets@;
        self.presets.remove(name);
        proof {
            assert(self.presets@.map_values(|p: CustomPreset| p@) =~= before.map_values(
                |p: CustomPreset| p@,
            ).remove(name@));
        }
        Ok(EditOutcome::Changed)
    }
}

/// The message for an axis name that is none of the three.
fn invalid_axis(axis: &str) -> (r: String)
    ensures
        r@ == invalid_axis_message(axis@),
{
    concat3("Invalid axis '", axis, "'. Must be 'agency', 'quality', or 'scope'")
}

// ---------------------------------------------------------------------------
// Laws
// ---------------------------------------------------------------------------

/// Adding a modifier and then removing it gives the file back.
pub proof fn lemma_add_remove_modifier(c: RawConfigSpec, name: Seq<char>, path: Seq<char>)
    requires
        add_modifier_spec(c, name, path) is Ok,
    ensures
        remove_modifier_spec(add_modifier_spec(c, name, path)->Ok_0.0, name) == Ok::<
            (RawConfigSpec, EditOutcome),
            Seq<char>,
        >((c, EditOutcome::Changed)),
{
    let after = add_modifier_spec(c, name, path)->Ok_0.0;
    assert(after.modifiers.remove(name) =~= c.modifiers);
}

/// After adding a default modifier the defaults hold it, hold it once if
/// they held every name once, and adding it again changes nothing.
pub proof fn lemma_add_default_idempotent(c: RawConfigSpec, name: Seq<char>)
    ensures
        ({
            let after = add_default_spec(c, name)->Ok_0.0;
            &&& after.default_modifiers.contains(name)
            &&& c.default_modifiers.no_duplicates() ==> after.default_modifiers.no_duplicates()
            &&& add_default_spec(after, name) == Ok::<(RawConfigSpec, EditOutcome), Seq<char>>(
                (after, EditOutcome::Unchanged),
            )
        }),
{
    let after = add_default_spec(c, name)->Ok_0.0;
    if !c.default_modifiers.contains(name) {
        let d = c.default_modifiers.push(name);
        assert(d[d.len() - 1] == name);
        assert(d.contains(name));
    }
}

/// Adding a default modifier that was not there and then removing it gives
/// the file back.
pub proof fn lemma_add_remove_default(c: RawConfigSpec, name: Seq<char>)
    requires
        !c.default_modifiers.contains(name),
    ensures
        remove_default_spec(add_default_spec(c, name)->Ok_0.0, name) == Ok::<
            (RawConfigSpec, EditOutcome),
            Seq<char>,
        >((c, EditOutcome::Changed)),
{
    let d = c.default_modifiers.push(name);
    assert(d[d.len() - 1] == name);
    assert(d.contains(name));
    d.index_of_first_ensures(name);
    let i = d.index_of_first(name)->0;
    if i < d.len() - 1 {
        assert(c.default_modifiers[i] == name);
    }
    assert(i == d.len() - 1);
    assert(d.remove(i) =~= c.default_modifiers);
}

/// Adding a custom value to an axis that did not have it and then removing
/// it gives the file back.
pub proof fn lemma_add_remove_axis(
    c: RawConfigSpec,
    axis: Seq<char>,
    name: Seq<char>,
    path: Seq<char>,
)
    requires
        add_axis_spec(c, axis, name, path) is Ok,
        !axis_map_of(c, axis).dom().contains(name),
    ensures
        remove_axis_spec(add_axis_spec(c, axis, name, path)->Ok_0.0, axis, name) == Ok::<
            (RawConfigSpec, EditOutcome),
            Seq<char>,
        >((c, EditOutcome::Changed)),
{
    let m = axis_map_of(c, axis);
    assert(m.insert(name, path).remove(name) =~= m);
}

/// Adding a preset under a new name and then removing it gives the file
/// back.
pub proof fn lemma_add_remove_preset(c: RawConfigSpec, name: Seq<char>, preset: CustomPresetSpec)
    requires
        add_preset_spec(c, name, preset) is Ok,
        !c.presets.dom().contains(name),
    ensures
        remove_preset_spec(add_preset_spec(c, name, preset)->Ok_0.0, name) == Ok::<
            (RawConfigSpec, EditOutcome),
            Seq<char>,
        >((c, EditOutcome::Changed)),
{
    assert(c.presets.insert(name, preset).remove(name) =~= c.presets);
}

/// No edit can give a built-in name to a custom modifier, axis value or
/// preset: those edits are refused.
pub proof fn lemma_builtin_names_refused(
    c: RawConfigSpec,
    axis: Seq<char>,
    name: Seq<char>,
    path: Seq<char>,
    preset: CustomPresetSpec,
)
    ensures
        spec_builtin_modifiers().contains(name) ==> add_modifier_spec(c, name, path) is Err,
        spec_builtin_presets().contains(name) ==> add_preset_spec(c, name, preset) is Err,
        (axis_builtins(axis) matches Some(b) && b.contains(name)) ==> add_axis_spec(
            c,
            axis,
            name,
            path,
        ) is Err,
{
}

/// Every part of the file but the three axis maps.
pub open spec fn same_outside_axes(a: RawConfigSpec, b: RawConfigSpec) -> bool {
    &&& a.default_base == b.default_base
    &&& a.default_modifiers == b.default_modifiers
    &&& a.bases == b.bases
    &&& a.modifiers == b.modifiers
    &&& a.presets == b.presets
}

/// Adding a custom axis value succeeds exactly for one of the three axes and
/// a name that is not one of that axis's built-in values; it then maps the
/// name to the path in that axis's own map and leaves the other two axes,
/// and the rest of the file, as they were.
pub proof fn lemma_add_axis_targets_its_axis(
    c: RawConfigSpec,
    axis: Seq<char>,
    name: Seq<char>,
    path: Seq<char>,
)
    ensures
        axis != "agency"@ && axis != "quality"@ && axis != "scope"@ ==> add_axis_spec(
            c,
            axis,
            name,
            path,
        ) == Err::<(RawConfigSpec, EditOutcome), Seq<char>>(invalid_axis_message(axis)),
        axis == "agency"@ ==> (add_axis_spec(c, axis, name, path) is Ok
            <==> !spec_agency_values().contains(name)),
        axis == "quality"@ ==> (add_axis_spec(c, axis, name, path) is Ok
            <==> !spec_quality_values().contains(name)),
        axis == "scope"@ ==> (add_axis_spec(c, axis, name, path) is Ok
            <==> !spec_scope_values().contains(name)),
        add_axis_spec(c, axis, name, path) matches Ok((after, outcome)) ==> {
            &&& outcome == EditOutcome::Changed
            &&& same_outside_axes(after, c)
            &&& axis == "agency"@ ==> after.agency == c.agency.insert(name, path)
                && after.quality == c.quality && after.scope == c.scope
            &&& axis == "quality"@ ==> after.quality == c.quality.insert(name, path)
                && after.agency == c.agency && after.scope == c.scope
            &&& axis == "scope"@ ==> after.scope == c.scope.insert(name, path)
                && after.agency == c.agency && after.quality == c.quality
        },
{
    reveal_strlit("agency");
    reveal_strlit("quality");
    reveal_strlit("scope");
    assert("agency"@.len() == 6 && "quality"@.len() == 7 && "scope"@.len() == 5);
}

/// Removing a custom axis value succeeds exactly for one of the three axes
/// whose own map has the name; it then removes the name from that map only
/// and leaves the other two axes, and the rest of the file, as they were.
pub proof fn lemma_remove_axis_targets_its_axis(c: RawConfigSpec, axis: Seq<char>, name: Seq<char>)
    ensures
        axis != "agency"@ && axis != "quality"@ && axis != "scope"@ ==> remove_axis_spec(
            c,
            axis,
            name,
        ) == Err::<(RawConfigSpec, EditOutcome), Seq<char>>(invalid_axis_message(axis)),
        axis == "agency"@ ==> (remove_axis_spec(c, axis, name) is Ok <==> c.agency.dom().contains(
            name,
        )),
        axis == "quality"@ ==> (remove_axis_spec(c, axis, name) is Ok
            <==> c.quality.dom().contains(name)),
        axis == "scope"@ ==> (remove_axis_spec(c, axis, name) is Ok <==> c.scope.dom().contains(
            name,
        )),
        remove_axis_spec(c, axis, name) matches Ok((after, outcome)) ==> {
            &&& outcome == EditOutcome::Changed
            &&& same_outside_axes(after, c)
            &&& axis == "agency"@ ==> after.agency == c.agency.remove(name) && after.quality
                == c.quality && after.scope == c.scope
            &&& axis == "quality"@ ==> after.quality == c.quality.remove(name) && after.agency
                == c.agency && after.scope == c.scope
            &&& axis == "scope"@ ==> after.scope == c.scope.remove(name) && after.agency
                == c.agency && after.quality == c.quality
        },
{
    reveal_strlit("agency");
    reveal_strlit("quality");
    reveal_strlit("scope");
    assert("agency"@.len() == 6 && "quality"@.len() == 7 && "scope"@.len() == 5);
}

/// Each of the other edits changes only its own part of the file: adding
/// or removing a modifier only the modifier map, a default modifier only
/// the default list (appended at the end, or its first occurrence removed),
/// a preset only the preset map; and each succeeds exactly when its
/// condition holds.
pub proof fn lemma_edits_touch_only_their_part(
    c: RawConfigSpec,
    name: Seq<char>,
    path: Seq<char>,
    preset: CustomPresetSpec,
)
    ensures
        add_modifier_spec(c, name, path) is Ok <==> !spec_builtin_modifiers().contains(name)
            && !c.modifiers.dom().contains(name),
        add_modifier_spec(c, name, path) matches Ok((a, _)) ==> a == (RawConfigSpec {
            modifiers: c.modifiers.insert(name, path),
            ..c
        }),
        remove_modifier_spec(c, name) is Ok <==> c.modifiers.dom().contains(name),
        remove_modifier_spec(c, name) matches Ok((a, _)) ==> a == (RawConfigSpec {
            modifiers: c.modifiers.remove(name),
            ..c
        }),
        add_default_spec(c, name) matches Ok((a, o)) ==> {
            &&& o == EditOutcome::Changed ==> a == (RawConfigSpec {
                default_modifiers: c.default_modifiers.push(name),
                ..c
            })
            &&& o == EditOutcome::Unchanged ==> a == c && c.default_modifiers.contains(name)
        },
        remove_default_spec(c, name) is Ok <==> c.default_modifiers.contains(name),
        remove_default_spec(c, name) matches Ok((a, _)) ==> {
            let i = c.default_modifiers.index_of_first(name)->0;
            &&& 0 <= i < c.default_modifiers.len()
            &&& c.default_modifiers[i] == name
            &&& forall|k: int| 0 <= k < i ==> c.default_modifiers[k] != name
            &&& a == (RawConfigSpec { default_modifiers: c.default_modifiers.remove(i), ..c })
        },
        add_preset_spec(c, name, preset) is Ok <==> !spec_builtin_presets().contains(name),
        add_preset_spec(c, name, preset) matches Ok((a, _)) ==> a == (RawConfigSpec {
            presets: c.presets.insert(name, preset),
            ..c
        }),
        remove_preset_spec(c, name) is Ok <==> c.presets.dom().contains(name),
        remove_preset_spec(c, name) matches Ok((a, _)) ==> a == (RawConfigSpec {
            presets: c.presets.remove(name),
            ..c
        }),
{
    if c.default_modifiers.contains(name) {
        c.default_modifiers.index_of_first_ensures(name);
    }
}

} // verus!
