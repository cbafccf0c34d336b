//! The reconciler: matches preset entries against the installed-item
//! directory by id, validates each matched pair, and merges it into the
//! authoritative record used for ordering and output.
use vstd::prelude::*;
use std::collections::HashMap;
use crate::preset::{PresetMod, PresetModView};
use crate::manifest::{ManifestMod, ManifestModView, dir_view};
use crate::error::Error;
use crate::text::{string_contains_char, copy_ids};

verus! {

broadcast use vstd::std_specs::hash::group_hash_axioms;

/// Mathematical model of a merged mod record.
pub struct ModView {
    pub id: u64,
    pub display_name: Seq<char>,
    pub file_size: u64,
    pub dependencies: Seq<u64>,
}

/// A reconciled, authoritative mod record: the id comes from the preset
/// match, everything else from the installed-item manifest.
#[derive(Debug, PartialEq, Eq)]
pub struct Mod {
    pub id: u64,
    pub display_name: String,
    pub file_size: u64,
    pub dependencies: Vec<u64>,
}

impl View for Mod {
    type V = ModView;

    open spec fn view(&self) -> ModView {
        ModView {
            id: self.id,
            display_name: self.display_name@,
            file_size: self.file_size,
            dependencies: self.dependencies@,
        }
    }
}

impl Mod {
    /// Whether this mod declares the given id among its dependencies.
    pub fn has_dependency(&self, id: u64) -> (r: bool)
        ensures
            r == self@.dependencies.contains(id),
    {
        let mut i: usize = 0;
        while i < self.dependencies.len()
            invariant
                0 <= i <= self.dependencies.len(),
                forall|k: int| 0 <= k < i ==> self.dependencies@[k] != id,
            decreases self.dependencies.len() - i,
        {
            if self.dependencies[i] == id {
                return true;
            }
            i = i + 1;
        }
        false
    }
}

/// The record a successful match merges to: the id from the preset match,
/// everything else from the installed item.
pub open spec fn merged_item(id: u64, m: ManifestModView) -> ModView {
    ModView {
        id: id,
        display_name: m.display_name,
        file_size: m.file_size,
        dependencies: m.dependencies,
    }
}

/// The merged records of a preset against a directory, in preset order.
pub open spec fn merged_of(ps: Seq<PresetModView>, dir: Map<u64, ManifestModView>) -> Seq<ModView>
    decreases ps.len(),
{
    if ps.len() == 0 {
        Seq::empty()
    } else {
        let rest = merged_of(ps.drop_last(), dir);
        let p = ps.last();
        if dir.contains_key(p.id) {
            rest.push(merged_item(p.id, dir[p.id]))
        } else {
            rest
        }
    }
}

/// The preset entries with no installed counterpart, in preset order.
pub open spec fn unmatched_of(ps: Seq<PresetModView>, dir: Map<u64, ManifestModView>) -> Seq<
    (Seq<char>, u64),
>
    decreases ps.len(),
{
    if ps.len() == 0 {
        Seq::empty()
    } else {
        let rest = unmatched_of(ps.drop_last(), dir);
        let p = ps.last();
        if dir.contains_key(p.id) {
            rest
        } else {
            rest.push((p.display_name, p.id))
        }
    }
}

/// The matched pairs that disagree on the display name, in preset order;
/// each pair holds the preset name first and the authoritative installed
/// name second.
pub open spec fn conflicts_of(ps: Seq<PresetModView>, dir: Map<u64, ManifestModView>) -> Seq<
    (Seq<char>, Seq<char>),
>
    decreases ps.len(),
{
    if ps.len() == 0 {
        Seq::empty()
    } else {
        let rest = conflicts_of(ps.drop_last(), dir);
        let p = ps.last();
        if dir.contains_key(p.id) && p.display_name != dir[p.id].display_name {
            rest.push((p.display_name, dir[p.id].display_name))
        } else {
            rest
        }
    }
}

/// The entry at `i` is matched and its installed display name contains the
/// reserved output separator — the fatal condition of the merge.
pub open spec fn clash_at(ps: Seq<PresetModView>, dir: Map<u64, ManifestModView>, i: int) -> bool {
    0 <= i < ps.len() && dir.contains_key(ps[i].id) && dir[ps[i].id].display_name.contains(';')
}

pub open spec fn unknown_views(v: Seq<(String, u64)>) -> Seq<(Seq<char>, u64)> {
    v.map_values(|p: (String, u64)| (p.0@, p.1))
}

pub open spec fn conflict_views(v: Seq<(String, String)>) -> Seq<(Seq<char>, Seq<char>)> {
    v.map_values(|p: (String, String)| (p.0@, p.1@))
}

/// The outcome of a successful reconciliation.
#[derive(Debug)]
pub struct Reconciliation {
    /// The merged records, in preset order.
    pub mods: Vec<Mod>,
    /// Preset entries the directory lacks, as (display name, id) pairs.
    pub unknown_mods: Vec<(String, u64)>,
    /// Name disagreements of matched pairs, (preset name, installed name);
    /// recoverable warnings, the installed name already won in `mods`.
    pub name_conflicts: Vec<(String, String)>,
}

/// Matches each preset entry against the installed-item directory by id,
/// merges matched pairs (the installed side authoritative for everything
/// but the id), collects unmatched entries and name conflicts, and fails
/// on the first installed display name holding the reserved separator.
pub fn reconcile(preset_mods: &Vec<PresetMod>, manifest_mods: &HashMap<u64, ManifestMod>) -> (r:
    Result<Reconciliation, Error>)
    ensures
        ({
            let ps = preset_mods@.map_values(|p: PresetMod| p@);
            let dir = dir_view(manifest_mods@);
            match r {
                Ok(rec) => {
                    &&& forall|i: int| !clash_at(ps, dir, i)
                    &&& rec.mods@.map_values(|m: Mod| m@) == merged_of(ps, dir)
                    &&& unknown_views(rec.unknown_mods@) == unmatched_of(ps, dir)
                    &&& conflict_views(rec.name_conflicts@) == conflicts_of(ps, dir)
                },
                Err(e) => {
                    &&& e matches Error::ModNameContainsSemicolon(n)
                    &&& exists|i: int|
                        #[trigger] clash_at(ps, dir, i) && (forall|j: int|
                            0 <= j < i ==> !clash_at(ps, dir, j)) && (e matches
                        Error::ModNameContainsSemicolon(n) && n@ == dir[ps[i].id].display_name)
                },
            }
        }),
{
    let ghost ps = preset_mods@.map_values(|p: PresetMod| p@);
    let ghost dir = dir_view(manifest_mods@);
    let mut mods: Vec<Mod> = Vec::new();
    let mut unknown_mods: Vec<(String, u64)> = Vec::new();
    let mut name_conflicts: Vec<(String, String)> = Vec::new();
    let mut i: usize = 0;
    proof {
        assert(mods@.map_values(|m: Mod| m@) =~= merged_of(ps.take(0), dir));
        assert(unknown_views(unknown_mods@) =~= unmatched_of(ps.take(0), dir));
        assert(conflict_views(name_conflicts@) =~= conflicts_of(ps.take(0), dir));
    }
    while i < preset_mods.len()
        invariant
            0 <= i <= preset_mods.len(),
            ps == preset_mods@.map_values(|p: PresetMod| p@),
            dir == dir_view(manifest_mods@),
            ps.len() == preset_mods@.len(),
            forall|j: int| 0 <= j < i ==> !clash_at(ps, dir, j),
            mods@.map_values(|m: Mod| m@) == merged_of(ps.take(i as int), dir),
            unknown_views(unknown_mods@) == unmatched_of(ps.take(i as int), dir),
            conflict_views(name_conflicts@) == conflicts_of(ps.take(i as int), dir),
        decreases preset_mods.len() - i,
    {
        let preset_mod = &preset_mods[i];
        proof {
            assert(preset_mod@ == ps[i as int]);
            assert(ps.take(i + 1).drop_last() =~= ps.take(i as int));
            assert(ps.take(i + 1).last() == ps[i as int]);
        }
        match manifest_mods.get(&preset_mod.id) {
            Some(manifest_mod) => {
                proof {
                    assert(manifest_mods@.contains_key(preset_mod.id));
                    assert(manifest_mods@[preset_mod.id] == *manifest_mod);
                    assert(dir.contains_key(preset_mod.id));
                    assert(dir[preset_mod.id] == manifest_mod@);
                }
                if preset_mod.display_name != manifest_mod.display_name {
                    let ghost pre = name_conflicts@;
                    name_conflicts.push(
                        (preset_mod.display_name.clone(), manifest_mod.display_name.clone()),
                    );
                    proof {
                        assert(conflict_views(name_conflicts@) =~= conflict_views(pre).push(
                            (ps[i as int].display_name, dir[ps[i as int].id].display_name),
                        ));
                    }
                } else {
                    proof {
                        assert(conflicts_of(ps.take(i + 1), dir) == conflicts_of(
                            ps.take(i as int),
                            dir,
                        ));
                    }
                }
                if string_contains_char(manifest_mod.display_name.as_str(), ';') {
                    proof {
                        assert(clash_at(ps, dir, i as int));
                    }
                    return Err(Error::ModNameContainsSemicolon(manifest_mod.display_name.clone()));
                }
                let ghost pre_mods = mods@;
                mods.push(
                    Mod {
                        id: preset_mod.id,
                        display_name: manifest_mod.display_name.clone(),
                        file_size: manifest_mod.file_size,
                        dependencies: copy_ids(&manifest_mod.dependencies),
                    },
                );
                proof {
                    assert(mods@.map_values(|m: Mod| m@) =~= pre_mods.map_values(|m: Mod| m@).push(
                        merged_item(ps[i as int].id, dir[ps[i as int].id]),
                    ));
                    assert(unmatched_of(ps.take(i + 1), dir) == unmatched_of(ps.take(i as int), dir));
                }
            },
            None => {
                proof {
                    assert(!manifest_mods@.contains_key(preset_mod.id));
                    assert(!dir.contains_key(preset_mod.id));
                }
                let ghost pre = unknown_mods@;
                unknown_mods.push((preset_mod.display_name.clone(), preset_mod.id));
                proof {
                    assert(unknown_views(unknown_mods@) =~= unknown_views(pre).push(
                        (ps[i as int].display_name, ps[i as int].id),
                    ));
                    assert(merged_of(ps.take(i + 1), dir) == merged_of(ps.take(i as int), dir));
                    assert(conflicts_of(ps.take(i + 1), dir) == conflicts_of(ps.take(i as int), dir));
                }
            },
        }
        i = i + 1;
    }
    proof {
        assert(ps.take(ps.len() as int) =~= ps);
    }
    Ok(Reconciliation { mods, unknown_mods, name_conflicts })
}

/// Law: every merged record carries the installed item's display name,
/// size and dependencies — never the preset's name — and its id is a key
/// of the directory.
pub proof fn lemma_merged_names_from_directory(
    ps: Seq<PresetModView>,
    dir: Map<u64, ManifestModView>,
)
    ensures
        forall|k: int|
            0 <= k < merged_of(ps, dir).len() ==> {
                let m = #[trigger] merged_of(ps, dir)[k];
                &&& dir.contains_key(m.id)
                &&& m.display_name == dir[m.id].display_name
                &&& m.file_size == dir[m.id].file_size
                &&& m.dependencies == dir[m.id].dependencies
            },
    decreases ps.len(),
{
    if ps.len() == 0 {
    } else {
        lemma_merged_names_from_directory(ps.drop_last(), dir);
        let rest = merged_of(ps.drop_last(), dir);
        let p = ps.last();
        assert forall|k: int| 0 <= k < merged_of(ps, dir).len() implies {
            let m = #[trigger] merged_of(ps, dir)[k];
            &&& dir.contains_key(m.id)
            &&& m.display_name == dir[m.id].display_name
            &&& m.file_size == dir[m.id].file_size
            &&& m.dependencies == dir[m.id].dependencies
        } by {
            if dir.contains_key(p.id) {
                if k < rest.len() {
                    assert(merged_of(ps, dir)[k] == rest[k]);
                } else {
                    assert(merged_of(ps, dir)[k] == merged_item(p.id, dir[p.id]));
                }
            } else {
                assert(merged_of(ps, dir)[k] == rest[k]);
            }
        }
    }
}

} // verus!
