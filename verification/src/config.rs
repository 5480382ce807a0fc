//! The loaded configuration: custom bases, modifiers, axis values and
//! presets, with every path resolved against the configuration file's
//! directory.
use vstd::prelude::*;
use vstd::string::*;

use crate::name_map::NameMap;
use crate::presets::{builtin_modifiers, builtin_presets, clone_opt, clone_strings, list_contains, spec_builtin_modifiers, spec_builtin_presets, str_views};
use crate::text::{is_absolute_path, join_path, path_join};

verus! {

/// A string-valued map, by its values' characters.
pub open spec fn str_map(m: Map<Seq<char>, String>) -> Map<Seq<char>, Seq<char>> {
    m.map_values(|s: String| s@)
}

/// A custom preset as plain values.
pub struct CustomPresetSpec {
    pub base: Option<Seq<char>>,
    pub agency: Option<Seq<char>>,
    pub quality: Option<Seq<char>>,
    pub scope: Option<Seq<char>>,
    pub modifiers: Seq<Seq<char>>,
    pub readonly: bool,
    pub context_pacing: bool,
}

/// A preset defined in the configuration file.
#[derive(Debug, Clone)]
pub struct CustomPreset {
    pub base: Option<String>,
    pub agency: Option<String>,
    pub quality: Option<String>,
    pub scope: Option<String>,
    pub modifiers: Vec<String>,
    pub readonly: bool,
    pub context_pacing: bool,
}

impl View for CustomPreset {
    type V = CustomPresetSpec;

    open spec fn view(&self) -> CustomPresetSpec {
        CustomPresetSpec {
            base: self.base.deep_view(),
            agency: self.agency.deep_view(),
            quality: self.quality.deep_view(),
            scope: self.scope.deep_view(),
            modifiers: self.modifiers.deep_view(),
            readonly: self.readonly,
            context_pacing: self.context_pacing,
        }
    }
}

impl Default for CustomPreset {
    fn default() -> (r: Self)
        ensures
            r@ == (CustomPresetSpec {
                base: None,
                agency: None,
                quality: None,
                scope: None,
                modifiers: seq![],
                readonly: false,
                context_pacing: false,
            }),
    {
        let r = CustomPreset {
            base: None,
            agency: None,
            quality: None,
            scope: None,
            modifiers: Vec::new(),
            readonly: false,
            context_pacing: false,
        };
        assert(r@.modifiers =~= Seq::<Seq<char>>::empty());
        r
    }
}

/// Custom values of the three axes, each name mapped to its fragment path.
#[derive(Debug, Clone)]
pub struct AxesConfig {
    pub agency: NameMap<String>,
    pub quality: NameMap<String>,
    pub scope: NameMap<String>,
}

impl Default for AxesConfig {
    fn default() -> (r: Self)
        ensures
            r.agency@ == Map::<Seq<char>, String>::empty(),
            r.quality@ == Map::<Seq<char>, String>::empty(),
            r.scope@ == Map::<Seq<char>, String>::empty(),
    {
        AxesConfig { agency: NameMap::new(), quality: NameMap::new(), scope: NameMap::new() }
    }
}

/// Loaded and resolved configuration.
///
/// All paths in this struct are resolved relative to the config file's
/// parent directory at load time.
#[derive(Debug, Clone)]
pub struct Config {
    pub config_dir: Option<String>,
    pub default_base: Option<String>,
    pub default_modifiers: Vec<String>,
    pub bases: NameMap<String>,
    pub modifiers: NameMap<String>,
    pub axes: AxesConfig,
    pub presets: NameMap<CustomPreset>,
}

impl Default for Config {
    fn default() -> (r: Self)
        ensures
            r.config_dir is None,
            r.default_base is None,
            r.default_modifiers@ == Seq::<String>::empty(),
            r.bases@ == Map::<Seq<char>, String>::empty(),
            r.modifiers@ == Map::<Seq<char>, String>::empty(),
            r.axes.agency@ == Map::<Seq<char>, String>::empty(),
            r.axes.quality@ == Map::<Seq<char>, String>::empty(),
            r.axes.scope@ == Map::<Seq<char>, String>::empty(),
            r.presets@ == Map::<Seq<char>, CustomPreset>::empty(),
    {
        Config {
            config_dir: None,
            default_base: None,
            default_modifiers: Vec::new(),
            bases: NameMap::new(),
            modifiers: NameMap::new(),
            axes: AxesConfig::default(),
            presets: NameMap::new(),
        }
    }
}

/// The axis maps of a configuration file as written, paths unresolved.
#[derive(Debug)]
pub struct RawAxesConfig {
    pub agency: NameMap<String>,
    pub quality: NameMap<String>,
    pub scope: NameMap<String>,
}

impl RawAxesConfig {
    /// True when no axis has a custom value.
    pub fn is_empty(&self) -> (r: bool)
        ensures
            r == (self.agency@.dom().len() == 0 && self.quality@.dom().len() == 0
                && self.scope@.dom().len() == 0),
    {
        self.agency.is_empty() && self.quality.is_empty() && self.scope.is_empty()
    }
}

/// A configuration file as written, paths unresolved.
#[derive(Debug)]
pub struct RawConfig {
    pub default_base: Option<String>,
    pub default_modifiers: Vec<String>,
    pub bases: NameMap<String>,
    pub modifiers: NameMap<String>,
    pub axes: RawAxesConfig,
    pub presets: NameMap<CustomPreset>,
}

/// A path from the configuration file: a relative one is taken relative to
/// the file's directory, when that is known.
pub open spec fn resolve_relative(path: Seq<char>, config_dir: Option<Seq<char>>) -> Seq<char> {
    if is_absolute_path(path) {
        path
    } else {
        match config_dir {
            Some(dir) => path_join(dir, path),
            None => path,
        }
    }
}

/// Every path of `m` resolved against `config_dir`.
pub open spec fn resolved_map(m: Map<Seq<char>, String>, config_dir: Option<Seq<char>>) -> Map<
    Seq<char>,
    Seq<char>,
> {
    str_map(m).map_values(|p: Seq<char>| resolve_relative(p, config_dir))
}

/// Resolve a path from config relative to the config file directory.
pub fn resolve_relative_path(path: &str, config_dir: Option<&str>) -> (r: String)
    ensures
        r@ == resolve_relative(path@, config_dir.deep_view()),
{
    if path.unicode_len() > 0 && path.get_char(0) == '/' {
        String::from_str(path)
    } else {
        match config_dir {
            Some(dir) => join_path(dir, path),
            None => String::from_str(path),
        }
    }
}

/// The map with every path resolved, names in the same order.
fn resolve_map(m: &NameMap<String>, config_dir: Option<&str>) -> (r: NameMap<String>)
    ensures
        str_map(r@) == resolved_map(m@, config_dir.deep_view()),
{
    let ghost dir = config_dir.deep_view();
    m.lemma_map_facts();
    let mut r: NameMap<String> = NameMap::new();
    let mut i: usize = 0;
    let n = m.len();
    while i < n
        invariant
            n == m.keys_seq().len(),
            dir == config_dir.deep_view(),
            i <= n,
            m.keys_seq().no_duplicates(),
            forall|j: int|
                0 <= j < m.keys_seq().len() ==> #[trigger] m@[m.keys_seq()[j]]
                    == m.values_seq()[j],
            forall|k: Seq<char>| #[trigger] m@.dom().contains(k) <==> m.keys_seq().contains(k),
            forall|k: Seq<char>| #[trigger]
                r@.dom().contains(k) <==> m.keys_seq().take(i as int).contains(k),
            forall|k: Seq<char>| #[trigger]
                r@.dom().contains(k) ==> r@[k]@ == resolve_relative(m@[k]@, dir),
        decreases n - i,
    {
        let (name, path) = m.entry(i);
        let resolved = resolve_relative_path(path.as_str(), config_dir);
        assert(resolved@ == resolve_relative(path@, dir));
        let ghost prev = r@;
        let ghost nm = name@;
        r.insert(name.clone(), resolved);
        proof {
            let t0 = m.keys_seq().take(i as int);
            let t1 = m.keys_seq().take(i + 1);
            assert(t1 =~= t0.push(nm));
            assert forall|k: Seq<char>| #[trigger] r@.dom().contains(k) <==> t1.contains(k) by {
                if t1.contains(k) && k != nm {
                    let j = choose|j: int| 0 <= j < t1.len() && t1[j] == k;
                    assert(t0[j] == k);
                }
                if t0.contains(k) {
                    let j = choose|j: int| 0 <= j < t0.len() && t0[j] == k;
                    assert(t1[j] == k);
                }
                if k == nm {
                    assert(t1[i as int] == k);
                }
            }
            assert forall|k: Seq<char>| #[trigger]
                r@.dom().contains(k) implies r@[k]@ == resolve_relative(m@[k]@, dir) by {
                if k != nm {
                    assert(prev.dom().contains(k));
                    assert(r@[k] == prev[k]);
                } else {
                    assert(r@[k] == resolved);
                    assert(m@[k] == *path);
                }
            }
        }
        i = i + 1;
    }
    proof {
        assert(m.keys_seq().take(n as int) =~= m.keys_seq());
        assert(str_map(r@) =~= resolved_map(m@, dir));
    }
    r
}

impl Config {
    /// The configuration that a file holds, its paths resolved against the
    /// directory the file stands in.
    pub fn from_raw(raw: RawConfig, config_dir: Option<String>) -> (r: Config)
        ensures
            r.config_dir.deep_view() == config_dir.deep_view(),
            r.default_base.deep_view() == raw.default_base.deep_view(),
            r.default_modifiers.deep_view() == raw.default_modifiers.deep_view(),
            str_map(r.bases@) == resolved_map(raw.bases@, config_dir.deep_view()),
            str_map(r.modifiers@) == resolved_map(raw.modifiers@, config_dir.deep_view()),
            str_map(r.axes.agency@) == resolved_map(raw.axes.agency@, config_dir.deep_view()),
            str_map(r.axes.quality@) == resolved_map(raw.axes.quality@, config_dir.deep_view()),
            str_map(r.axes.scope@) == resolved_map(raw.axes.scope@, config_dir.deep_view()),
            r.presets@ == raw.presets@,
    {
        let dir: Option<&str> = match &config_dir {
            Some(d) => Some(d.as_str()),
            None => None,
        };
        assert(dir.deep_view() == config_dir.deep_view());
        let bases = resolve_map(&raw.bases, dir);
        let modifiers = resolve_map(&raw.modifiers, dir);
        let axes = AxesConfig {
            agency: resolve_map(&raw.axes.agency, dir),
            quality: resolve_map(&raw.axes.quality, dir),
            scope: resolve_map(&raw.axes.scope, dir),
        };
        Config {
            config_dir,
            default_base: raw.default_base,
            default_modifiers: raw.default_modifiers,
            bases,
            modifiers,
            axes,
            presets: raw.presets,
        }
    }

    /// The custom presets whose names are those of built-in presets, which
    /// shadow them.
    pub fn colliding_presets(&self) -> (r: Vec<String>)
        ensures
            r.deep_view() == self.presets.keys_seq().filter(
                |k: Seq<char>| spec_builtin_presets().contains(k),
            ),
    {
        let names = self.presets.names();
        collisions(&names, &builtin_presets())
    }

    /// The custom modifiers whose names are those of built-in modifiers,
    /// which shadow them.
    pub fn colliding_modifiers(&self) -> (r: Vec<String>)
        ensures
            r.deep_view() == self.modifiers.keys_seq().filter(
                |k: Seq<char>| spec_builtin_modifiers().contains(k),
            ),
    {
        let names = self.modifiers.names();
        collisions(&names, &builtin_modifiers())
    }
}

/// The names of `names` that `builtins` holds, in order.
fn collisions(names: &Vec<String>, builtins: &Vec<&str>) -> (r: Vec<String>)
    ensures
        r.deep_view() == names.deep_view().filter(|k: Seq<char>| str_views(builtins@).contains(k)),
{
    let ghost pred = |k: Seq<char>| str_views(builtins@).contains(k);
    let ghost dv = names.deep_view();
    let mut r: Vec<String> = Vec::new();
    let mut i: usize = 0;
    while i < names.len()
        invariant
            dv == names.deep_view(),
            pred == (|k: Seq<char>| str_views(builtins@).contains(k)),
            i <= names.len(),
            r.deep_view() == dv.take(i as int).filter(pred),
        decreases names.len() - i,
    {
        proof {
            reveal(Seq::filter);
            assert(dv.take(i + 1).drop_last() =~= dv.take(i as int));
        }
        let ghost before = r.deep_view();
        let hit = list_contains(builtins, names[i].as_str());
        if hit {
            r.push(names[i].clone());
        }
        proof {
            reveal(Seq::filter);
            let t1 = dv.take(i + 1);
            assert(t1.drop_last() =~= dv.take(i as int));
            assert(t1.last() == dv[i as int]);
            assert(names[i as int]@ == dv[i as int]);
            assert(hit == pred(dv[i as int]));
            if hit {
                assert(t1.filter(pred) =~= dv.take(i as int).filter(pred).push(dv[i as int]));
                assert(r.deep_view() =~= before.push(dv[i as int]));
            } else {
                assert(t1.filter(pred) =~= dv.take(i as int).filter(pred));
                assert(r.deep_view() =~= before);
            }
        }
        i = i + 1;
    }
    assert(dv.take(names.len() as int) =~= dv);
    r
}

/// An absolute path is kept as it is; with an absolute configuration
/// directory every path comes out absolute, so resolving it again changes
/// nothing.
pub proof fn lemma_resolve_relative_laws(path: Seq<char>, dir: Seq<char>)
    ensures
        is_absolute_path(path) ==> resolve_relative(path, Some(dir)) == path,
        is_absolute_path(dir) ==> is_absolute_path(resolve_relative(path, Some(dir))),
        is_absolute_path(dir) ==> resolve_relative(resolve_relative(path, Some(dir)), Some(dir))
            == resolve_relative(path, Some(dir)),
        resolve_relative(path, None) == path,
{
    if is_absolute_path(dir) && !is_absolute_path(path) {
        assert(resolve_relative(path, Some(dir))[0] == dir[0]);
    }
}

} // verus!
