//! Assembly of the system prompt from a base manifest and the resolved
//! axis and modifier fragments.
use vstd::prelude::*;
use vstd::string::*;

use crate::text::{join_path, join_strings, join_with, path_join, str_eq, trim, trim_str};

verus! {

/// What a JSON text holds when it is an array of strings: those strings.
pub uninterp spec fn json_string_array(text: Seq<char>) -> Option<Seq<Seq<char>>>;

/// Parses `text` as a JSON array of strings with `serde_json::from_str`.
/// Claimed: the result is `Ok` exactly when `json_string_array` of the text
/// is set, and then holds those strings; nothing is claimed of the error.
#[verifier::external_body]
fn parse_string_array(text: &str) -> (r: Result<Vec<String>, serde_json::Error>)
    ensures
        match r {
            Ok(v) => json_string_array(text@) == Some(v.deep_view()),
            Err(_) => json_string_array(text@) is None,
        },
{
    serde_json::from_str::<Vec<String>>(text)
}

#[derive(Debug)]
pub enum AssembleError {
    ManifestIo { path: String, source: std::io::Error },
    ManifestFormat(serde_json::Error),
    MissingFragment { path: String, source: std::io::Error },
    MissingAxisFragment { path: String, source: std::io::Error },
    MissingModifierFragment { path: String, source: std::io::Error },
}

/// Options for prompt assembly.
///
/// All paths are pre-resolved — the assembler reads directly from them.
#[derive(Debug)]
pub struct AssembleOptions {
    /// Directory containing base.json and base fragment files.
    pub base_dir: String,
    /// Paths to axis .md files (agency, quality, scope).
    pub axis_paths: Vec<String>,
    /// Paths to modifier .md files.
    pub modifier_paths: Vec<String>,
}

/// Which part of the prompt a fragment belongs to.
#[derive(Debug, Clone, Copy, PartialEq, Eq, Structural)]
pub enum FragmentKind {
    Base,
    Axis,
    Modifier,
}

/// A fragment to read: its part and its path.
#[derive(Debug)]
pub struct Fragment {
    pub kind: FragmentKind,
    pub path: String,
}

/// The path of the base manifest.
pub open spec fn manifest_path_spec(base_dir: Seq<char>) -> Seq<char> {
    path_join(base_dir, "base.json"@)
}

/// The fragments that one manifest entry stands for: every axis fragment
/// for `axes`, every modifier fragment for `modifiers`, otherwise the base
/// fragment of that name.
pub open spec fn entry_fragments(
    entry: Seq<char>,
    base_dir: Seq<char>,
    axis_paths: Seq<Seq<char>>,
    modifier_paths: Seq<Seq<char>>,
) -> Seq<(FragmentKind, Seq<char>)> {
    if entry == "axes"@ {
        axis_paths.map_values(|p: Seq<char>| (FragmentKind::Axis, p))
    } else if entry == "modifiers"@ {
        modifier_paths.map_values(|p: Seq<char>| (FragmentKind::Modifier, p))
    } else {
        seq![(FragmentKind::Base, path_join(base_dir, entry))]
    }
}

/// The fragments of a manifest, in order.
pub open spec fn plan_spec(
    manifest: Seq<Seq<char>>,
    base_dir: Seq<char>,
    axis_paths: Seq<Seq<char>>,
    modifier_paths: Seq<Seq<char>>,
) -> Seq<(FragmentKind, Seq<char>)>
    decreases manifest.len(),
{
    if manifest.len() == 0 {
        seq![]
    } else {
        plan_spec(manifest.drop_last(), base_dir, axis_paths, modifier_paths) + entry_fragments(
            manifest.last(),
            base_dir,
            axis_paths,
            modifier_paths,
        )
    }
}

/// Fragments as plain values.
pub open spec fn fragments_view(v: Seq<Fragment>) -> Seq<(FragmentKind, Seq<char>)> {
    v.map_values(|f: Fragment| (f.kind, f.path@))
}

/// The prompt: every fragment trimmed, separated by blank lines.
pub open spec fn prompt_of(contents: Seq<Seq<char>>) -> Seq<char> {
    join_with(contents.map_values(|c: Seq<char>| trim(c)), "\n\n"@)
}

impl AssembleOptions {
    /// The path of the base manifest.
    pub fn manifest_path(&self) -> (r: String)
        ensures
            r@ == manifest_path_spec(self.base_dir@),
    {
        proof {
            reveal_strlit("base.json");
        }
        join_path(self.base_dir.as_str(), "base.json")
    }

    /// The fragments to read for `manifest`, in order.
    pub fn fragment_plan(&self, manifest: &Vec<String>) -> (r: Vec<Fragment>)
        ensures
            fragments_view(r@) == plan_spec(
                manifest.deep_view(),
                self.base_dir@,
                self.axis_paths.deep_view(),
                self.modifier_paths.deep_view(),
            ),
    {
        let ghost bd = self.base_dir@;
        let ghost ap = self.axis_paths.deep_view();
        let ghost mp = self.modifier_paths.deep_view();
        let ghost md = manifest.deep_view();
        let mut r: Vec<Fragment> = Vec::new();
        let mut i: usize = 0;
        assert(md.take(0) =~= Seq::<Seq<char>>::empty());
        assert(fragments_view(r@) =~= Seq::<(FragmentKind, Seq<char>)>::empty());
        proof {
            reveal_strlit("axes");
            reveal_strlit("modifiers");
        }
        while i < manifest.len()
            invariant
                i <= manifest.len(),
                md == manifest.deep_view(),
                bd == self.base_dir@,
                ap == self.axis_paths.deep_view(),
                mp == self.modifier_paths.deep_view(),
                fragments_view(r@) == plan_spec(md.take(i as int), bd, ap, mp),
            decreases manifest.len() - i,
        {
            let entry = manifest[i].as_str();
            let ghost before = fragments_view(r@);
            assert(md.take(i + 1).drop_last() =~= md.take(i as int));
            assert(md.take(i + 1).last() == entry@);
            if str_eq(entry, "axes") {
                push_paths(&mut r, &self.axis_paths, FragmentKind::Axis);
                assert(fragments_view(r@) =~= before + ap.map_values(
                    |p: Seq<char>| (FragmentKind::Axis, p),
                ));
            } else if str_eq(entry, "modifiers") {
                push_paths(&mut r, &self.modifier_paths, FragmentKind::Modifier);
                assert(fragments_view(r@) =~= before + mp.map_values(
                    |p: Seq<char>| (FragmentKind::Modifier, p),
                ));
            } else {
                let path = join_path(self.base_dir.as_str(), entry);
                r.push(Fragment { kind: FragmentKind::Base, path });
                assert(fragments_view(r@) =~= before + seq![
                    (FragmentKind::Base, path_join(bd, entry@)),
                ]);
            }
            i = i + 1;
        }
        assert(md.take(manifest.len() as int) =~= md);
        r
    }
}

/// Appends a fragment of `kind` for each of `paths`.
fn push_paths(r: &mut Vec<Fragment>, paths: &Vec<String>, kind: FragmentKind)
    ensures
        fragments_view(final(r)@) == fragments_view(old(r)@) + paths.deep_view().map_values(
            |p: Seq<char>| (kind, p),
        ),
{
    let ghost start = fragments_view(r@);
    let ghost pv = paths.deep_view().map_values(|p: Seq<char>| (kind, p));
    let mut i: usize = 0;
    assert(start + pv.take(0) =~= start);
    while i < paths.len()
        invariant
            i <= paths.len(),
            pv == paths.deep_view().map_values(|p: Seq<char>| (kind, p)),
            fragments_view(r@) == start + pv.take(i as int),
        decreases paths.len() - i,
    {
        let ghost before = fragments_view(r@);
        r.push(Fragment { kind, path: paths[i].clone() });
        assert(fragments_view(r@) =~= before.push((kind, paths[i as int]@)));
        assert(start + pv.take(i + 1) =~= (start + pv.take(i as int)).push(pv[i as int]));
        i = i + 1;
    }
    assert(pv.take(paths.len() as int) =~= pv);
}

/// The manifest that a manifest file's text holds.
pub fn parse_manifest(raw: &str) -> (r: Result<Vec<String>, AssembleError>)
    ensures
        match r {
            Ok(v) => json_string_array(raw@) == Some(v.deep_view()),
            Err(e) => json_string_array(raw@) is None && e is ManifestFormat,
        },
{
    match parse_string_array(raw) {
        Ok(v) => Ok(v),
        Err(e) => Err(AssembleError::ManifestFormat(e)),
    }
}

/// The error for a fragment that could not be read, by its part.
pub fn fragment_error(fragment: Fragment, source: std::io::Error) -> (r: AssembleError)
    ensures
        match fragment.kind {
            FragmentKind::Base => r matches AssembleError::MissingFragment { path, source: s }
                && path@ == fragment.path@ && s == source,
            FragmentKind::Axis => r matches AssembleError::MissingAxisFragment { path, source: s }
                && path@ == fragment.path@ && s == source,
            FragmentKind::Modifier => r matches AssembleError::MissingModifierFragment {
                path,
                source: s,
            } && path@ == fragment.path@ && s == source,
        },
{
    match fragment.kind {
        FragmentKind::Base => AssembleError::MissingFragment { path: fragment.path, source },
        FragmentKind::Axis => AssembleError::MissingAxisFragment { path: fragment.path, source },
        FragmentKind::Modifier => AssembleError::MissingModifierFragment {
            path: fragment.path,
            source,
        },
    }
}

/// The prompt from the fragments' contents: each trimmed, separated by a
/// blank line.
pub fn join_sections(contents: &Vec<String>) -> (r: String)
    ensures
        r@ == prompt_of(contents.deep_view()),
{
    let mut sections: Vec<String> = Vec::new();
    let mut i: usize = 0;
    let ghost cv = contents.deep_view();
    let ghost tv = cv.map_values(|c: Seq<char>| trim(c));
    while i < contents.len()
        invariant
            i <= contents.len(),
            cv == contents.deep_view(),
            tv == cv.map_values(|c: Seq<char>| trim(c)),
            sections.deep_view() == tv.take(i as int),
        decreases contents.len() - i,
    {
        let t = trim_str(contents[i].as_str());
        sections.push(t);
        assert(tv.take(i + 1) =~= tv.take(i as int).push(trim(cv[i as int])));
        assert(sections.deep_view() =~= tv.take(i + 1));
        i = i + 1;
    }
    assert(tv.take(contents.len() as int) =~= tv);
    proof {
        reveal_strlit("\n\n");
    }
    join_strings(&sections, "\n\n")
}

/// The prompt with the text to append, after a blank line, when there is
/// one.
pub fn append_system_prompt(prompt: String, append: Option<&str>) -> (r: String)
    ensures
        r@ == (match append {
            Some(t) => prompt@ + "\n\n"@ + t@,
            None => prompt@,
        }),
{
    match append {
        Some(t) => {
            let p = prompt.concat("\n\n");
            p.concat(t)
        },
        None => prompt,
    }
}

/// The fragments of two manifests one after the other are the fragments of
/// the first, then those of the second.
pub proof fn lemma_plan_concat(
    m1: Seq<Seq<char>>,
    m2: Seq<Seq<char>>,
    base_dir: Seq<char>,
    axis_paths: Seq<Seq<char>>,
    modifier_paths: Seq<Seq<char>>,
)
    ensures
        plan_spec(m1 + m2, base_dir, axis_paths, modifier_paths) == plan_spec(
            m1,
            base_dir,
            axis_paths,
            modifier_paths,
        ) + plan_spec(m2, base_dir, axis_paths, modifier_paths),
    decreases m2.len(),
{
    if m2.len() == 0 {
        assert(m1 + m2 =~= m1);
        assert(plan_spec(m1, base_dir, axis_paths, modifier_paths) + Seq::<(FragmentKind, Seq<char>)>::empty() =~= plan_spec(m1, base_dir, axis_paths, modifier_paths));
    } else {
        lemma_plan_concat(m1, m2.drop_last(), base_dir, axis_paths, modifier_paths);
        assert((m1 + m2).drop_last() =~= m1 + m2.drop_last());
        assert((m1 + m2).last() == m2.last());
        let p1 = plan_spec(m1, base_dir, axis_paths, modifier_paths);
        let p2 = plan_spec(m2.drop_last(), base_dir, axis_paths, modifier_paths);
        let e = entry_fragments(m2.last(), base_dir, axis_paths, modifier_paths);
        assert(p1 + p2 + e =~= p1 + (p2 + e));
    }
}

/// A manifest naming only base fragments gives one base fragment per entry,
/// in order.
pub proof fn lemma_plan_of_base_entries(
    m: Seq<Seq<char>>,
    base_dir: Seq<char>,
    axis_paths: Seq<Seq<char>>,
    modifier_paths: Seq<Seq<char>>,
)
    requires
        forall|i: int| 0 <= i < m.len() ==> #[trigger] m[i] != "axes"@ && m[i] != "modifiers"@,
    ensures
        plan_spec(m, base_dir, axis_paths, modifier_paths) == m.map_values(
            |e: Seq<char>| (FragmentKind::Base, path_join(base_dir, e)),
        ),
    decreases m.len(),
{
    if m.len() > 0 {
        let d = m.drop_last();
        assert forall|i: int| 0 <= i < d.len() implies #[trigger] d[i] != "axes"@ && d[i] != "modifiers"@ by {
            assert(d[i] == m[i]);
        }
        lemma_plan_of_base_entries(d, base_dir, axis_paths, modifier_paths);
        assert(m[m.len() - 1] != "axes"@);
        assert(plan_spec(m, base_dir, axis_paths, modifier_paths) =~= m.map_values(
            |e: Seq<char>| (FragmentKind::Base, path_join(base_dir, e)),
        ));
    } else {
        assert(m.map_values(|e: Seq<char>| (FragmentKind::Base, path_join(base_dir, e))) =~= Seq::<(FragmentKind, Seq<char>)>::empty());
    }
}

/// An `axes` entry stands for one axis fragment per axis path, all of them
/// in order; a `modifiers` entry for one modifier fragment per modifier
/// path, all of them in order; any other entry for the one base fragment
/// of that name in the base directory.
pub proof fn lemma_plan_single_entry(
    entry: Seq<char>,
    base_dir: Seq<char>,
    axis_paths: Seq<Seq<char>>,
    modifier_paths: Seq<Seq<char>>,
)
    ensures
        ({
            let plan = plan_spec(seq![entry], base_dir, axis_paths, modifier_paths);
            &&& entry == "axes"@ ==> plan.len() == axis_paths.len() && forall|i: int|
                0 <= i < axis_paths.len() ==> #[trigger] plan[i] == (
                    FragmentKind::Axis,
                    axis_paths[i],
                )
            &&& entry == "modifiers"@ ==> plan.len() == modifier_paths.len() && forall|i: int|
                0 <= i < modifier_paths.len() ==> #[trigger] plan[i] == (
                    FragmentKind::Modifier,
                    modifier_paths[i],
                )
            &&& entry != "axes"@ && entry != "modifiers"@ ==> plan == seq![
                (FragmentKind::Base, path_join(base_dir, entry)),
            ]
        }),
{
    let m = seq![entry];
    assert(m.drop_last() =~= Seq::<Seq<char>>::empty());
    assert(m.last() == entry);
    let e = entry_fragments(entry, base_dir, axis_paths, modifier_paths);
    assert(Seq::<(FragmentKind, Seq<char>)>::empty() + e =~= e);
    assert(plan_spec(Seq::<Seq<char>>::empty(), base_dir, axis_paths, modifier_paths)
        =~= Seq::<(FragmentKind, Seq<char>)>::empty());
    assert(plan_spec(m, base_dir, axis_paths, modifier_paths) =~= e);
    reveal_strlit("axes");
    reveal_strlit("modifiers");
    assert("axes"@.len() == 4 && "modifiers"@.len() == 9);
}

/// The plan of a manifest has, for each entry in order, the fragments of
/// that entry: every fragment kept, none added, none reordered.
pub proof fn lemma_plan_push(
    manifest: Seq<Seq<char>>,
    entry: Seq<char>,
    base_dir: Seq<char>,
    axis_paths: Seq<Seq<char>>,
    modifier_paths: Seq<Seq<char>>,
)
    ensures
        plan_spec(manifest.push(entry), base_dir, axis_paths, modifier_paths) == plan_spec(
            manifest,
            base_dir,
            axis_paths,
            modifier_paths,
        ) + plan_spec(seq![entry], base_dir, axis_paths, modifier_paths),
{
    assert(manifest.push(entry) =~= manifest + seq![entry]);
    lemma_plan_concat(manifest, seq![entry], base_dir, axis_paths, modifier_paths);
}

} // verus!
