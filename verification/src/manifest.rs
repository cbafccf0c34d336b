//! Manifest-side records: the installed-item directory read from the
//! launcher manifest, keyed by workshop id.
use vstd::prelude::*;
use std::collections::HashMap;
use crate::text::{strip_prefix_str, strip_prefix_spec, parse_u64, parsed_u64};

verus! {

broadcast use vstd::std_specs::hash::group_hash_axioms;

/// Mathematical model of an installed mod record.
pub struct ManifestModView {
    pub id: u64,
    pub display_name: Seq<char>,
    pub path: Seq<char>,
    pub file_size: u64,
    pub dependencies: Seq<u64>,
}

/// A locally installed mod as the launcher manifest records it.
#[derive(Debug, PartialEq, Eq)]
pub struct ManifestMod {
    pub id: u64,
    pub display_name: String,
    pub path: String,
    pub file_size: u64,
    pub dependencies: Vec<u64>,
}

impl View for ManifestMod {
    type V = ManifestModView;

    open spec fn view(&self) -> ManifestModView {
        ManifestModView {
            id: self.id,
            display_name: self.display_name@,
            path: self.path@,
            file_size: self.file_size,
            dependencies: self.dependencies@,
        }
    }
}

/// The id a manifest id string denotes: a "steam:" prefix followed by a
/// decimal number.
pub open spec fn steam_id_of(s: Seq<char>) -> Option<u64> {
    match strip_prefix_spec(s, "steam:"@) {
        Some(rest) => parsed_u64(rest),
        None => None,
    }
}

/// Reads the id out of a manifest id string of the form "steam:<number>".
pub fn parse_steam_id(s: &str) -> (r: Option<u64>)
    ensures
        r == steam_id_of(s@),
{
    match strip_prefix_str(s, "steam:") {
        Some(rest) => parse_u64(rest),
        None => None,
    }
}

/// The model of an installed-item directory: its mapping lifted to views.
pub open spec fn dir_view(m: Map<u64, ManifestMod>) -> Map<u64, ManifestModView> {
    m.map_values(|v: ManifestMod| v@)
}

/// The directory a sequence of manifest records describes: keyed by id,
/// a later record with the same id replacing an earlier one.
pub open spec fn indexed(s: Seq<ManifestModView>) -> Map<u64, ManifestModView>
    decreases s.len(),
{
    if s.len() == 0 {
        Map::empty()
    } else {
        indexed(s.drop_last()).insert(s.last().id, s.last())
    }
}

/// Builds the installed-item directory from the manifest's records.
pub fn index_manifest_mods(mods: Vec<ManifestMod>) -> (r: HashMap<u64, ManifestMod>)
    ensures
        dir_view(r@) == indexed(mods@.map_values(|m: ManifestMod| m@)),
{
    let ghost views = mods@.map_values(|m: ManifestMod| m@);
    let mut r: HashMap<u64, ManifestMod> = HashMap::new();
    let mut input = mods;
    let ghost mut k: int = 0;
    proof {
        assert(dir_view(r@) =~= indexed(views.take(0)));
        assert(input@.map_values(|m: ManifestMod| m@) =~= views.skip(0));
    }
    while input.len() > 0
        invariant
            0 <= k <= views.len(),
            k + input.len() == views.len(),
            input@.map_values(|m: ManifestMod| m@) == views.skip(k),
            dir_view(r@) == indexed(views.take(k)),
        decreases input.len(),
    {
        let ghost pre_input = input@;
        let ghost pre_map = r@;
        let m = input.remove(0);
        proof {
            assert(pre_input.map_values(|q: ManifestMod| q@)[0] == views.skip(k)[0]);
            assert(m@ == views[k]);
            assert(input@.map_values(|q: ManifestMod| q@) =~= views.skip(k + 1)) by {
                assert forall|n: int| 0 <= n < input@.len() implies input@.map_values(
                    |q: ManifestMod| q@,
                )[n] == #[trigger] views.skip(k + 1)[n] by {
                    assert(input@[n] == pre_input[n + 1]);
                    assert(pre_input.map_values(|q: ManifestMod| q@)[n + 1] == views.skip(k)[n
                        + 1]);
                }
            }
        }
        let id = m.id;
        r.insert(id, m);
        proof {
            assert(dir_view(r@) =~= indexed(views.take(k)).insert(id, views[k]));
            k = k + 1;
            assert(views.take(k).drop_last() =~= views.take(k - 1));
            assert(views.take(k).last() == views[k - 1]);
            assert(dir_view(r@) =~= indexed(views.take(k)));
        }
    }
    proof {
        assert(views.take(k) =~= views);
    }
    r
}

} // verus!
