use modlist::error::Reason;
use modlist::game::Game;
use modlist::manifest::parse_steam_id;
use modlist::preset::{assemble_preset, strip_workshop_prefix, PresetRow};
use modlist::text::{parse_u64, trim_str};

fn row(name: Option<&str>, link: Option<&str>) -> PresetRow {
    PresetRow {
        display_name: name.map(String::from),
        link: link.map(String::from),
    }
}

#[test]
fn strip_workshop_prefix_accepts_both_schemes() {
    assert_eq!(
        strip_workshop_prefix("http://steamcommunity.com/sharedfiles/filedetails/?id=123"),
        Some("123")
    );
    assert_eq!(
        strip_workshop_prefix("https://steamcommunity.com/sharedfiles/filedetails/?id=456"),
        Some("456")
    );
}

#[test]
fn strip_workshop_prefix_trims_whitespace() {
    assert_eq!(
        strip_workshop_prefix(
            "  https://steamcommunity.com/sharedfiles/filedetails/?id=789\n"
        ),
        Some("789")
    );
}

#[test]
fn strip_workshop_prefix_rejects_other_links() {
    assert_eq!(strip_workshop_prefix("https://example.com/?id=123"), None);
    assert_eq!(strip_workshop_prefix(""), None);
    assert_eq!(
        strip_workshop_prefix("steamcommunity.com/sharedfiles/filedetails/?id=123"),
        None
    );
}

#[test]
fn trim_str_removes_unicode_whitespace() {
    assert_eq!(trim_str("  abc\t"), "abc");
    assert_eq!(trim_str("\u{2009}x\u{3000}"), "x");
    assert_eq!(trim_str("   "), "");
    assert_eq!(trim_str(""), "");
}

#[test]
fn parse_u64_accepts_what_std_accepts() {
    assert_eq!(parse_u64("0"), Some(0));
    assert_eq!(parse_u64("007"), Some(7));
    assert_eq!(parse_u64("+5"), Some(5));
    assert_eq!(parse_u64("18446744073709551615"), Some(u64::MAX));
    assert_eq!(parse_u64("18446744073709551616"), None);
    assert_eq!(parse_u64(""), None);
    assert_eq!(parse_u64("+"), None);
    assert_eq!(parse_u64("-1"), None);
    assert_eq!(parse_u64("12x"), None);
    assert_eq!(parse_u64(" 12"), None);
}

#[test]
fn parse_steam_id_requires_prefix_and_number() {
    assert_eq!(parse_steam_id("steam:123"), Some(123));
    assert_eq!(parse_steam_id("steam:0"), Some(0));
    assert_eq!(parse_steam_id("steam:"), None);
    assert_eq!(parse_steam_id("123"), None);
    assert_eq!(parse_steam_id("steam:abc"), None);
    assert_eq!(parse_steam_id("Steam:123"), None);
}

#[test]
fn assemble_preset_picks_game_from_markers() {
    let link = "https://steamcommunity.com/sharedfiles/filedetails/?id=11";
    let (game, mods) =
        assemble_preset(true, false, vec![row(Some("A"), Some(link))]).unwrap();
    assert!(matches!(game, Game::Arma));
    assert_eq!(mods.len(), 1);
    assert_eq!(mods[0].display_name, "A");
    assert_eq!(mods[0].id, 11);

    let (game, _) = assemble_preset(false, true, vec![row(Some("A"), Some(link))]).unwrap();
    assert!(matches!(game, Game::DayZ));

    // The first marker wins when both are present.
    let (game, _) = assemble_preset(true, true, vec![row(Some("A"), Some(link))]).unwrap();
    assert!(matches!(game, Game::Arma));
}

#[test]
fn assemble_preset_rejects_unknown_type() {
    let err = assemble_preset(false, false, vec![]).unwrap_err();
    assert_eq!(err, Reason::UnknownType);
}

#[test]
fn assemble_preset_rejects_empty_row_list() {
    let err = assemble_preset(true, false, vec![]).unwrap_err();
    assert_eq!(err, Reason::NoMatches);
}

#[test]
fn assemble_preset_reports_first_bad_row_index() {
    let link = "https://steamcommunity.com/sharedfiles/filedetails/?id=11";
    let err = assemble_preset(
        true,
        false,
        vec![row(Some("A"), Some(link)), row(None, Some(link))],
    )
    .unwrap_err();
    assert_eq!(err, Reason::DisplayNameSelector(1));

    let err = assemble_preset(
        true,
        false,
        vec![row(Some("A"), None), row(None, Some(link))],
    )
    .unwrap_err();
    assert_eq!(err, Reason::LinkSelector(0));

    let err = assemble_preset(
        true,
        false,
        vec![row(Some("A"), Some("https://example.com/?id=3"))],
    )
    .unwrap_err();
    assert_eq!(err, Reason::LinkSelector(0));

    let err = assemble_preset(
        true,
        false,
        vec![row(
            Some("A"),
            Some("https://steamcommunity.com/sharedfiles/filedetails/?id=notanumber"),
        )],
    )
    .unwrap_err();
    assert_eq!(err, Reason::LinkSelector(0));
}

#[test]
fn game_names_and_manifest_paths() {
    assert_eq!(Game::Arma.title(), "Arma 3");
    assert_eq!(Game::DayZ.title(), "DayZ");
    assert_eq!(Game::Arma.manifest_rel_path(), "Arma 3 Launcher/Steam.json");
    assert_eq!(Game::DayZ.manifest_rel_path(), "DayZ Launcher/Steam.json");
}
