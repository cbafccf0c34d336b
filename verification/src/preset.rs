//! Preset-side records: the entries extracted from a curated preset
//! document, and the assembly of raw extracted rows into validated entries.
use vstd::prelude::*;
use crate::error::Reason;
use crate::game::Game;
use crate::text::{trim_chars, trim_str, strip_prefix_str, parse_u64, parsed_u64};

verus! {

/// Mathematical model of a preset entry.
pub struct PresetModView {
    pub display_name: Seq<char>,
    pub id: u64,
}

/// A mod as the curated preset declares it: a display name and the
/// numeric workshop id, independent of local installation state.
#[derive(Debug, PartialEq, Eq)]
pub struct PresetMod {
    pub display_name: String,
    pub id: u64,
}

impl View for PresetMod {
    type V = PresetModView;

    open spec fn view(&self) -> PresetModView {
        PresetModView { display_name: self.display_name@, id: self.id }
    }
}

/// The workshop link prefix with the plain scheme.
pub open spec fn link_prefix_http() -> Seq<char> {
    "http://steamcommunity.com/sharedfiles/filedetails/?id="@
}

/// The workshop link prefix with the secure scheme.
pub open spec fn link_prefix_https() -> Seq<char> {
    "https://steamcommunity.com/sharedfiles/filedetails/?id="@
}

/// The id part of a workshop link: what remains of the trimmed link after
/// either accepted prefix, if one matches.
pub open spec fn workshop_id_part(link: Seq<char>) -> Option<Seq<char>> {
    let t = trim_chars(link);
    if link_prefix_http().is_prefix_of(t) {
        Some(t.skip(link_prefix_http().len() as int))
    } else if link_prefix_https().is_prefix_of(t) {
        Some(t.skip(link_prefix_https().len() as int))
    } else {
        None
    }
}

/// Strips a workshop item link down to its id part, trimming white space
/// and accepting either link scheme.
pub fn strip_workshop_prefix(link: &str) -> (r: Option<&str>)
    ensures
        match r {
            Some(t) => workshop_id_part(link@) == Some(t@),
            None => workshop_id_part(link@) is None,
        },
{
    let trimmed = trim_str(link);
    match strip_prefix_str(trimmed, "http://steamcommunity.com/sharedfiles/filedetails/?id=") {
        Some(t) => Some(t),
        None => strip_prefix_str(
            trimmed,
            "https://steamcommunity.com/sharedfiles/filedetails/?id=",
        ),
    }
}

/// Mathematical model of one raw row extracted from the preset document.
pub struct PresetRowView {
    pub display_name: Option<Seq<char>>,
    pub link: Option<Seq<char>>,
}

/// One raw row extracted from the preset document: the display-name text
/// and the link target, either possibly missing.
#[derive(Debug, PartialEq, Eq)]
pub struct PresetRow {
    pub display_name: Option<String>,
    pub link: Option<String>,
}

impl View for PresetRow {
    type V = PresetRowView;

    open spec fn view(&self) -> PresetRowView {
        PresetRowView {
            display_name: match self.display_name {
                Some(n) => Some(n@),
                None => None,
            },
            link: match self.link {
                Some(l) => Some(l@),
                None => None,
            },
        }
    }
}

/// The id a row's link denotes, if the link is present, carries one of the
/// accepted prefixes, and its id part parses.
pub open spec fn row_id(r: PresetRowView) -> Option<u64> {
    match r.link {
        Some(l) => match workshop_id_part(l) {
            Some(part) => parsed_u64(part),
            None => None,
        },
        None => None,
    }
}

/// A row that yields an entry: a present name and a link with a valid id.
pub open spec fn row_ok(r: PresetRowView) -> bool {
    r.display_name is Some && row_id(r) is Some
}

/// Why the row at this index is rejected: a missing name is reported
/// before a missing or malformed link.
pub open spec fn row_error(r: PresetRowView, i: usize) -> Reason {
    if r.display_name is None {
        Reason::DisplayNameSelector(i)
    } else {
        Reason::LinkSelector(i)
    }
}

/// The entries a fully valid row sequence yields, in row order.
pub open spec fn entries_of(rows: Seq<PresetRowView>) -> Seq<PresetModView>
    decreases rows.len(),
{
    if rows.len() == 0 {
        Seq::empty()
    } else {
        entries_of(rows.drop_last()).push(
            PresetModView {
                display_name: rows.last().display_name.unwrap(),
                id: row_id(rows.last()).unwrap(),
            },
        )
    }
}

/// Assembles the raw rows extracted from a preset document into validated
/// entries: picks the game from the document's markers, rejects the first
/// invalid row, and rejects a preset with no rows.
pub fn assemble_preset(has_arma: bool, has_dayz: bool, rows: Vec<PresetRow>) -> (r: Result<
    (Game, Vec<PresetMod>),
    Reason,
>)
    ensures
        ({
            let rvs = rows@.map_values(|row: PresetRow| row@);
            if !has_arma && !has_dayz {
                r == Err::<(Game, Vec<PresetMod>), Reason>(Reason::UnknownType)
            } else if exists|i: int| 0 <= i < rvs.len() && !row_ok(#[trigger] rvs[i]) {
                exists|i: int|
                    0 <= i < rvs.len() && !row_ok(#[trigger] rvs[i]) && (forall|j: int|
                        0 <= j < i ==> row_ok(#[trigger] rvs[j])) && r == Err::<
                        (Game, Vec<PresetMod>),
                        Reason,
                    >(row_error(rvs[i], i as usize))
            } else if rvs.len() == 0 {
                r == Err::<(Game, Vec<PresetMod>), Reason>(Reason::NoMatches)
            } else {
                match r {
                    Ok((game, mods)) => {
                        &&& game == (if has_arma {
                            Game::Arma
                        } else {
                            Game::DayZ
                        })
                        &&& mods@.map_values(|m: PresetMod| m@) == entries_of(rvs)
                    },
                    Err(_) => false,
                }
            }
        }),
{
    let ghost rvs = rows@.map_values(|row: PresetRow| row@);
    let game = if has_arma {
        Game::Arma
    } else if has_dayz {
        Game::DayZ
    } else {
        return Err(Reason::UnknownType);
    };
    let mut mods: Vec<PresetMod> = Vec::new();
    let mut i: usize = 0;
    proof {
        assert(mods@.map_values(|m: PresetMod| m@) =~= entries_of(rvs.take(0)));
    }
    while i < rows.len()
        invariant
            0 <= i <= rows.len(),
            has_arma || has_dayz,
            rvs == rows@.map_values(|row: PresetRow| row@),
            rvs.len() == rows@.len(),
            forall|j: int| 0 <= j < i ==> row_ok(#[trigger] rvs[j]),
            mods@.len() == i,
            mods@.map_values(|m: PresetMod| m@) == entries_of(rvs.take(i as int)),
        decreases rows.len() - i,
    {
        proof {
            assert(rows@[i as int]@ == rvs[i as int]);
            assert(rvs.take(i + 1).drop_last() =~= rvs.take(i as int));
            assert(rvs.take(i + 1).last() == rvs[i as int]);
        }
        let row = &rows[i];
        let name = match &row.display_name {
            Some(name) => name,
            None => {
                proof {
                    assert(rvs[i as int].display_name is None);
                    assert(!row_ok(rvs[i as int]));
                    assert(row_error(rvs[i as int], i) == Reason::DisplayNameSelector(i));
                }
                return Err(Reason::DisplayNameSelector(i));
            },
        };
        let link = match &row.link {
            Some(link) => link,
            None => {
                proof {
                    assert(rvs[i as int].display_name is Some);
                    assert(rvs[i as int].link is None);
                    assert(!row_ok(rvs[i as int]));
                    assert(row_error(rvs[i as int], i) == Reason::LinkSelector(i));
                }
                return Err(Reason::LinkSelector(i));
            },
        };
        let part = match strip_workshop_prefix(link.as_str()) {
            Some(part) => part,
            None => {
                proof {
                    assert(rvs[i as int].display_name is Some);
                    assert(rvs[i as int].link == Some(link@));
                    assert(workshop_id_part(link@) is None);
                    assert(!row_ok(rvs[i as int]));
                    assert(row_error(rvs[i as int], i) == Reason::LinkSelector(i));
                }
                return Err(Reason::LinkSelector(i));
            },
        };
        let id = match parse_u64(part) {
            Some(id) => id,
            None => {
                proof {
                    assert(rvs[i as int].display_name is Some);
                    assert(rvs[i as int].link == Some(link@));
                    assert(workshop_id_part(link@) == Some(part@));
                    assert(parsed_u64(part@) is None);
                    assert(!row_ok(rvs[i as int]));
                    assert(row_error(rvs[i as int], i) == Reason::LinkSelector(i));
                }
                return Err(Reason::LinkSelector(i));
            },
        };
        let ghost pre = mods@;
        mods.push(PresetMod { display_name: name.clone(), id });
        proof {
            assert(mods@.map_values(|m: PresetMod| m@) =~= pre.map_values(|m: PresetMod| m@).push(
                PresetModView { display_name: rvs[i as int].display_name.unwrap(), id: row_id(rvs[i as int]).unwrap() },
            ));
        }
        i = i + 1;
    }
    if mods.is_empty() {
        proof {
            assert(rvs.len() == 0);
        }
        return Err(Reason::NoMatches);
    }
    proof {
        assert(rvs.take(rvs.len() as int) =~= rvs);
    }
    Ok((game, mods))
}

} // verus!
