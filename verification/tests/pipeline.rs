use modlist::error::{Error, Reason};
use modlist::manifest::{index_manifest_mods, ManifestMod};
use modlist::merge::{reconcile, Mod};
use modlist::output::{id_list_payload, name_list_payload, render_unknown_mods};
use modlist::preset::PresetMod;
use modlist::sequence::sequence_mods;

fn manifest_mod(id: u64, name: &str, size: u64, deps: Vec<u64>) -> ManifestMod {
    ManifestMod {
        id,
        display_name: String::from(name),
        path: format!("mods/{id}"),
        file_size: size,
        dependencies: deps,
    }
}

fn preset_mod(name: &str, id: u64) -> PresetMod {
    PresetMod { display_name: String::from(name), id }
}

#[test]
fn merge_and_sequence_example() {
    let presets = vec![preset_mod("Alpha", 1), preset_mod("Beta", 2)];
    let directory = index_manifest_mods(vec![
        manifest_mod(1, "Alpha", 100, vec![]),
        manifest_mod(2, "Beta", 50, vec![1]),
    ]);
    let rec = reconcile(&presets, &directory).unwrap();
    assert_eq!(rec.mods.len(), 2);
    assert_eq!(rec.mods[0].id, 1);
    assert_eq!(rec.mods[0].display_name, "Alpha");
    assert_eq!(rec.mods[0].file_size, 100);
    assert_eq!(rec.mods[0].dependencies, Vec::<u64>::new());
    assert_eq!(rec.mods[1].id, 2);
    assert_eq!(rec.mods[1].display_name, "Beta");
    assert_eq!(rec.mods[1].file_size, 50);
    assert_eq!(rec.mods[1].dependencies, vec![1]);
    assert!(rec.unknown_mods.is_empty());
    assert!(rec.name_conflicts.is_empty());

    let ordered = sequence_mods(rec.mods);
    let names: Vec<&str> = ordered.iter().map(|m| m.display_name.as_str()).collect();
    assert_eq!(names, vec!["Alpha", "Beta"]);
    assert_eq!(name_list_payload(&ordered), "@Alpha;@Beta;");
    assert_eq!(id_list_payload(&ordered), "1,2");
}

#[test]
fn semicolon_in_matched_name_is_fatal() {
    let presets = vec![preset_mod("Fine", 1), preset_mod("Broken", 2)];
    let directory = index_manifest_mods(vec![
        manifest_mod(1, "Fine", 10, vec![]),
        manifest_mod(2, "Broken; name", 20, vec![]),
    ]);
    let err = reconcile(&presets, &directory).unwrap_err();
    assert_eq!(err, Error::ModNameContainsSemicolon(String::from("Broken; name")));
}

#[test]
fn semicolon_in_unmatched_entry_is_not_fatal() {
    let presets = vec![preset_mod("Odd; name", 7)];
    let directory = index_manifest_mods(vec![]);
    let rec = reconcile(&presets, &directory).unwrap();
    assert!(rec.mods.is_empty());
    assert_eq!(rec.unknown_mods, vec![(String::from("Odd; name"), 7)]);
}

#[test]
fn unknown_mod_is_reported_and_not_merged() {
    let presets = vec![preset_mod("Known", 1), preset_mod("Missing", 42)];
    let directory = index_manifest_mods(vec![manifest_mod(1, "Known", 10, vec![])]);
    let rec = reconcile(&presets, &directory).unwrap();
    assert_eq!(rec.unknown_mods, vec![(String::from("Missing"), 42)]);
    let ordered = sequence_mods(rec.mods);
    assert!(ordered.iter().all(|m| m.id != 42));
    assert_eq!(render_unknown_mods(&rec.unknown_mods), "Missing (42)\n");
}

#[test]
fn conflicting_names_recorded_and_manifest_wins() {
    let presets = vec![preset_mod("Old Name", 5)];
    let directory = index_manifest_mods(vec![manifest_mod(5, "New Name", 10, vec![])]);
    let rec = reconcile(&presets, &directory).unwrap();
    assert_eq!(
        rec.name_conflicts,
        vec![(String::from("Old Name"), String::from("New Name"))]
    );
    assert_eq!(rec.mods[0].display_name, "New Name");
}

#[test]
fn empty_preset_merges_to_nothing() {
    let presets: Vec<PresetMod> = vec![];
    let directory = index_manifest_mods(vec![manifest_mod(1, "A", 10, vec![])]);
    let rec = reconcile(&presets, &directory).unwrap();
    assert!(rec.mods.is_empty());
    assert!(rec.unknown_mods.is_empty());
    assert!(rec.name_conflicts.is_empty());
}

#[test]
fn empty_directory_leaves_all_unmatched() {
    let presets = vec![preset_mod("A", 1), preset_mod("B", 2)];
    let directory = index_manifest_mods(vec![]);
    let rec = reconcile(&presets, &directory).unwrap();
    assert!(rec.mods.is_empty());
    assert_eq!(
        rec.unknown_mods,
        vec![(String::from("A"), 1), (String::from("B"), 2)]
    );
}

#[test]
fn later_manifest_record_with_same_id_wins() {
    let directory = index_manifest_mods(vec![
        manifest_mod(1, "First", 10, vec![]),
        manifest_mod(1, "Second", 20, vec![]),
    ]);
    let presets = vec![preset_mod("Second", 1)];
    let rec = reconcile(&presets, &directory).unwrap();
    assert_eq!(rec.mods[0].display_name, "Second");
    assert_eq!(rec.mods[0].file_size, 20);
}

#[test]
fn merged_display_name_never_taken_from_preset() {
    let presets = vec![preset_mod("preset-a", 1), preset_mod("preset-b", 2)];
    let directory = index_manifest_mods(vec![
        manifest_mod(1, "installed-a", 1, vec![]),
        manifest_mod(2, "installed-b", 2, vec![]),
    ]);
    let rec = reconcile(&presets, &directory).unwrap();
    let names: Vec<&str> = rec.mods.iter().map(|m| m.display_name.as_str()).collect();
    assert_eq!(names, vec!["installed-a", "installed-b"]);
}

#[test]
fn error_should_show_hides_only_termination() {
    assert!(!Error::Termination.should_show());
    assert!(Error::ModNameContainsSemicolon(String::from("x;y")).should_show());
    assert!(Error::UnknownMods(vec![(String::from("a"), 1)]).should_show());
    assert!(
        Error::ConflictingDisplayNames(String::from("a"), String::from("b")).should_show()
    );
    assert!(Error::PresetParsingFailed(Reason::NoMatches).should_show());
}

#[test]
fn mod_has_dependency_checks_ids() {
    let m = Mod {
        id: 1,
        display_name: String::from("A"),
        file_size: 10,
        dependencies: vec![3, 4],
    };
    assert!(m.has_dependency(3));
    assert!(m.has_dependency(4));
    assert!(!m.has_dependency(1));
    assert!(!m.has_dependency(5));
}
