use modlist::merge::Mod;
use modlist::output::{
    count_char_in, id_list_payload, name_list_payload, render_unknown_mods, total_file_size,
    u64_to_string,
};

fn mk(id: u64, name: &str, size: u64) -> Mod {
    Mod {
        id,
        display_name: String::from(name),
        file_size: size,
        dependencies: vec![],
    }
}

#[test]
fn decimal_rendering() {
    assert_eq!(u64_to_string(0), "0");
    assert_eq!(u64_to_string(7), "7");
    assert_eq!(u64_to_string(105), "105");
    assert_eq!(u64_to_string(18446744073709551615), "18446744073709551615");
}

#[test]
fn name_list_format() {
    assert_eq!(name_list_payload(&vec![]), "");
    assert_eq!(name_list_payload(&vec![mk(1, "Alpha", 1)]), "@Alpha;");
    assert_eq!(
        name_list_payload(&vec![mk(1, "Alpha", 1), mk(2, "Beta", 2)]),
        "@Alpha;@Beta;"
    );
}

#[test]
fn id_list_format_has_no_trailing_comma() {
    assert_eq!(id_list_payload(&vec![]), "");
    assert_eq!(id_list_payload(&vec![mk(10, "A", 1)]), "10");
    assert_eq!(
        id_list_payload(&vec![mk(10, "A", 1), mk(20, "B", 2), mk(3, "C", 3)]),
        "10,20,3"
    );
}

#[test]
fn unmatched_report_format() {
    let unknown = vec![
        (String::from("First Mod"), 11_u64),
        (String::from("Second"), 22_u64),
    ];
    assert_eq!(render_unknown_mods(&unknown), "First Mod (11)\nSecond (22)\n");
    assert_eq!(render_unknown_mods(&vec![]), "");
}

#[test]
fn separator_counts_match_item_count() {
    let mods = vec![mk(101, "Alpha", 1), mk(5, "Beta Two", 2), mk(77, "Gamma", 3)];
    let names = name_list_payload(&mods);
    let ids = id_list_payload(&mods);
    assert_eq!(count_char_in(names.as_str(), ';'), mods.len());
    assert_eq!(count_char_in(ids.as_str(), ','), mods.len() - 1);
    // Token counting agrees: one ';'-terminated token per record, and the
    // ','-separated tokens of the id list are the records too.
    let name_tokens: Vec<&str> = names.split(';').filter(|t| !t.is_empty()).collect();
    assert_eq!(name_tokens.len(), mods.len());
    let id_tokens: Vec<&str> = ids.split(',').collect();
    assert_eq!(id_tokens.len(), mods.len());
}

#[test]
fn total_size_sums_and_detects_overflow() {
    let mods = vec![mk(1, "A", 100), mk(2, "B", 50)];
    assert_eq!(total_file_size(&mods), Some(150));
    assert_eq!(total_file_size(&vec![]), Some(0));
    let huge = vec![mk(1, "A", u64::MAX), mk(2, "B", 1)];
    assert_eq!(total_file_size(&huge), None);
}
