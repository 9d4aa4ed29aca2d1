use no_eagles::files::FileConfiguration;
use no_eagles::import::{
    filter_suggestions, next_selection, select_suggestions, ImportState, NavKey, MAX_SUGGESTIONS,
};
use no_eagles::races::RaceConfiguration;
use no_eagles::text::chars_of;

fn strings(items: &[&str]) -> Vec<String> {
    items.iter().map(|s| s.to_string()).collect()
}

#[test]
fn new_configuration_has_no_files() {
    let c = FileConfiguration::new();
    assert!(c.lazy_files.is_empty());
}

#[test]
fn add_file_skips_duplicates() {
    let mut c = FileConfiguration::new();
    assert!(c.add_file("a.csv".to_string()));
    assert!(c.add_file("b.csv".to_string()));
    assert!(!c.add_file("a.csv".to_string()));
    assert_eq!(c.lazy_files, strings(&["a.csv", "b.csv"]));
}

#[test]
fn remove_file_undoes_add() {
    let mut c = FileConfiguration::new();
    c.add_file("a.csv".to_string());
    let before = c.lazy_files.clone();
    c.add_file("b.csv".to_string());
    let last = c.lazy_files.len() - 1;
    c.remove_file(last);
    assert_eq!(c.lazy_files, before);
}

#[test]
fn remove_file_by_position() {
    let mut c = FileConfiguration::new();
    for f in ["a", "b", "c"] {
        c.add_file(f.to_string());
    }
    c.remove_file(1);
    assert_eq!(c.lazy_files, strings(&["a", "c"]));
}

#[test]
fn key_names() {
    assert_eq!(NavKey::from_key_name("ArrowRight"), NavKey::ArrowRight);
    assert_eq!(NavKey::from_key_name("ArrowDown"), NavKey::ArrowDown);
    assert_eq!(NavKey::from_key_name("ArrowUp"), NavKey::ArrowUp);
    assert_eq!(NavKey::from_key_name("ArrowLeft"), NavKey::Other);
    assert_eq!(NavKey::from_key_name("Enter"), NavKey::Other);
}

#[test]
fn arrow_down_wraps() {
    assert_eq!(next_selection(NavKey::ArrowDown, None, 3), Some(0));
    assert_eq!(next_selection(NavKey::ArrowDown, Some(0), 3), Some(1));
    assert_eq!(next_selection(NavKey::ArrowDown, Some(2), 3), Some(0));
    assert_eq!(next_selection(NavKey::ArrowDown, None, 0), Some(0));
}

#[test]
fn arrow_up_wraps() {
    assert_eq!(next_selection(NavKey::ArrowUp, None, 3), Some(2));
    assert_eq!(next_selection(NavKey::ArrowUp, Some(0), 3), Some(2));
    assert_eq!(next_selection(NavKey::ArrowUp, Some(2), 3), Some(1));
    assert_eq!(next_selection(NavKey::ArrowUp, None, 0), Some(0));
    assert_eq!(next_selection(NavKey::ArrowUp, Some(0), 0), Some(0));
}

#[test]
fn other_keys_keep_selection() {
    assert_eq!(next_selection(NavKey::ArrowRight, Some(1), 3), Some(1));
    assert_eq!(next_selection(NavKey::Other, None, 3), None);
}

#[test]
fn up_undoes_down_and_down_undoes_up() {
    for total in 1..6usize {
        for i in 0..total {
            let d = next_selection(NavKey::ArrowDown, Some(i), total);
            assert_eq!(next_selection(NavKey::ArrowUp, d, total), Some(i));
            let u = next_selection(NavKey::ArrowUp, Some(i), total);
            assert!(u.unwrap() < total);
            assert_eq!(next_selection(NavKey::ArrowDown, u, total), Some(i));
        }
    }
}

#[test]
fn suggestions_ignore_case() {
    let files = strings(&["C:/races/Bloemhof.csv", "C:/races/other.txt", "bloem.CSV"]);
    assert_eq!(
        filter_suggestions(&files, "BLOEM"),
        strings(&["C:/races/Bloemhof.csv", "bloem.CSV"])
    );
    assert_eq!(filter_suggestions(&files, ".csv"), strings(&["C:/races/Bloemhof.csv", "bloem.CSV"]));
    assert_eq!(filter_suggestions(&files, "zzz"), Vec::<String>::new());
}

#[test]
fn suggestions_stop_at_ten() {
    let files: Vec<String> = (0..12).map(|i| format!("file{}.csv", i)).collect();
    let r = filter_suggestions(&files, "FILE");
    assert_eq!(MAX_SUGGESTIONS, 10);
    assert_eq!(r, files[..10].to_vec());
}

#[test]
fn empty_query_shows_first_files() {
    let files: Vec<String> = (0..12).map(|i| format!("f{}", i)).collect();
    assert_eq!(filter_suggestions(&files, ""), files[..10].to_vec());
    let few = strings(&["x", "y"]);
    assert_eq!(filter_suggestions(&few, ""), few);
}

#[test]
fn select_suggestions_uses_given_lowercase_forms() {
    let names = strings(&["One", "Two", "Three"]);
    let lowered = vec![chars_of("one"), chars_of("two"), chars_of("three")];
    assert_eq!(
        select_suggestions(&names, &lowered, &chars_of("o"), 10),
        strings(&["One", "Two"])
    );
    assert_eq!(
        select_suggestions(&names, &lowered, &chars_of("t"), 1),
        strings(&["Two"])
    );
    assert_eq!(select_suggestions(&names, &lowered, &chars_of("O"), 10), Vec::<String>::new());
}

#[test]
fn typing_clears_selection() {
    let mut s = ImportState::new();
    s.selected_index = Some(2);
    s.on_input("abc".to_string());
    assert_eq!(s.user_input, "abc");
    assert_eq!(s.selected_index, None);
}

#[test]
fn arrow_right_takes_selected_suggestion() {
    let suggestions = strings(&["a.csv", "b.csv"]);
    let mut s = ImportState::new();
    s.on_input("x".to_string());
    s.on_key(NavKey::ArrowRight, &suggestions);
    assert_eq!(s.user_input, "x");
    s.on_key(NavKey::ArrowDown, &suggestions);
    s.on_key(NavKey::ArrowDown, &suggestions);
    assert_eq!(s.selected_index, Some(1));
    s.on_key(NavKey::ArrowRight, &suggestions);
    assert_eq!(s.user_input, "b.csv");
    assert_eq!(s.selected_index, Some(1));
}

#[test]
fn submission_is_trimmed_input() {
    let mut s = ImportState::new();
    assert_eq!(s.submission(), None);
    s.on_input("   ".to_string());
    assert_eq!(s.submission(), None);
    s.on_input("  C:/a.csv \n".to_string());
    assert_eq!(s.submission(), Some("C:/a.csv".to_string()));
}

#[test]
fn validated_file_is_imported_once() {
    let mut s = ImportState::new();
    let mut files = FileConfiguration::new();
    s.on_input("a.csv".to_string());
    s.on_validated(&mut files, "a.csv".to_string(), false);
    assert!(files.lazy_files.is_empty());
    assert_eq!(s.user_input, "a.csv");
    s.on_validated(&mut files, "a.csv".to_string(), true);
    assert_eq!(files.lazy_files, strings(&["a.csv"]));
    assert_eq!(s.user_input, "");
    s.on_input("a.csv".to_string());
    s.on_validated(&mut files, "a.csv".to_string(), true);
    assert_eq!(files.lazy_files, strings(&["a.csv"]));
    assert_eq!(s.user_input, "");
}

#[test]
fn add_race_needs_name_and_date() {
    let mut c = RaceConfiguration::new();
    assert!(!c.add_race("  ", "2024-05-01"));
    assert!(!c.add_race("Bloemhof", " "));
    assert!(c.races.is_empty());
    assert!(c.add_race("  Bloemhof  ", " 2024-05-01"));
    assert_eq!(c.races.len(), 1);
    assert_eq!(c.races[0].name, "Bloemhof");
    assert_eq!(c.races[0].date, "2024-05-01");
    assert!(c.races[0].linked_files.is_empty());
}

#[test]
fn link_file_to_first_race_of_name() {
    let mut c = RaceConfiguration::new();
    c.add_race("A", "d1");
    c.add_race("B", "d2");
    c.add_race("A", "d3");
    let a = "A".to_string();
    assert!(c.link_file(&a, "x.csv".to_string()));
    assert!(!c.link_file(&a, "x.csv".to_string()));
    assert!(!c.link_file(&a, String::new()));
    assert!(!c.link_file(&"C".to_string(), "y.csv".to_string()));
    assert_eq!(c.races[0].linked_files, strings(&["x.csv"]));
    assert!(c.races[1].linked_files.is_empty());
    assert!(c.races[2].linked_files.is_empty());
    assert_eq!(c.find_race(&"B".to_string()), Some(1));
    assert_eq!(c.find_race(&"C".to_string()), None);
}

#[test]
fn delete_race_removes_every_race_of_name() {
    let mut c = RaceConfiguration::new();
    c.add_race("A", "d1");
    c.add_race("B", "d2");
    c.add_race("A", "d3");
    c.add_race("C", "d4");
    c.delete_race(&"A".to_string());
    let names: Vec<String> = c.races.iter().map(|r| r.name.clone()).collect();
    assert_eq!(names, strings(&["B", "C"]));
    c.delete_race(&"A".to_string());
    assert_eq!(c.races.len(), 2);
}

#[test]
fn delete_undoes_add_of_new_name() {
    let mut c = RaceConfiguration::new();
    c.add_race("A", "d1");
    c.add_race(" New ", "d2");
    c.delete_race(&"New".to_string());
    assert_eq!(c.races.len(), 1);
    assert_eq!(c.races[0].name, "A");
    assert_eq!(c.races[0].date, "d1");
}

#[test]
fn import_flow_keeps_list_trimmed_and_distinct() {
    let mut s = ImportState::new();
    let mut files = FileConfiguration::new();
    let events = [("  a.csv ", true), ("a.csv", true), ("   ", true), ("b.csv\t", false), (" b.csv", true)];
    for (input, exists) in events {
        s.on_input(input.to_string());
        if let Some(file) = s.submission() {
            s.on_validated(&mut files, file, exists);
        }
    }
    assert_eq!(files.lazy_files, strings(&["a.csv", "b.csv"]));
    for f in &files.lazy_files {
        assert!(!f.is_empty());
        assert_eq!(f.trim(), f.as_str());
    }
    files.remove_file(0);
    assert_eq!(files.lazy_files, strings(&["b.csv"]));
}

#[test]
fn race_events_keep_links_clean() {
    let imported = strings(&["x.csv", "y.csv"]);
    let mut c = RaceConfiguration::new();
    c.add_race("A", "d1");
    c.add_race("B", "d2");
    let a = "A".to_string();
    for choice in ["x.csv", "", "x.csv", "y.csv"] {
        c.link_file(&a, choice.to_string());
    }
    c.delete_race(&"B".to_string());
    c.add_race("C", "d3");
    for race in &c.races {
        for (i, f) in race.linked_files.iter().enumerate() {
            assert!(!f.is_empty());
            assert!(imported.contains(f));
            assert!(!race.linked_files[..i].contains(f));
        }
    }
    assert_eq!(c.races[0].linked_files, strings(&["x.csv", "y.csv"]));
}
