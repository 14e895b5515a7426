use switch_demo::state::{make_sources, selected_contains, remove_selected, AppState, SourceItem};

fn sel(values: &[&str]) -> Vec<String> {
    values.iter().map(|v| v.to_string()).collect()
}

fn set_checked(state: &mut AppState, value: &str, checked: bool) {
    for item in state.filtered_sources.iter_mut() {
        if item.value == value {
            item.checked = checked;
            return;
        }
    }
    panic!("no filtered row with value {}", value);
}

#[test]
fn make_sources_generates_numbered_items() {
    let v = make_sources(29);
    assert_eq!(v.len(), 29);
    assert_eq!(v[0].text, "source 1");
    assert_eq!(v[0].value, "source-1");
    assert!(!v[0].checked);
    assert_eq!(v[28].text, "source 29");
    assert_eq!(v[28].value, "source-29");
}

#[test]
fn new_state_reconciles_initial_view() {
    let state = AppState::new(29, sel(&["source-1", "source-2"]));
    assert_eq!(state.raw_sources.len(), 29);
    assert_eq!(state.filtered_sources.len(), 29);
    assert_eq!(state.search, "");
    assert!(state.filtered_sources[0].checked);
    assert!(state.filtered_sources[1].checked);
    for item in state.filtered_sources.iter().skip(2) {
        assert!(!item.checked);
    }
}

#[test]
fn filter_by_substring_keeps_matching_items_in_order() {
    let mut state = AppState::new(29, Vec::new());
    state.search = "2".to_string();
    state.filter();
    let expected = [
        "source 2", "source 12", "source 20", "source 21", "source 22", "source 23", "source 24",
        "source 25", "source 26", "source 27", "source 28", "source 29",
    ];
    assert_eq!(state.filtered_sources.len(), 12);
    for (item, want) in state.filtered_sources.iter().zip(expected.iter()) {
        assert_eq!(item.text, *want);
        assert!(item.text.contains("2"));
    }
}

#[test]
fn filter_by_empty_string_returns_whole_master_list() {
    let mut state = AppState::new(29, Vec::new());
    state.search = String::new();
    state.filter();
    assert_eq!(state.filtered_sources.len(), 29);
    for (raw, filtered) in state.raw_sources.iter().zip(state.filtered_sources.iter()) {
        assert_eq!(raw.text, filtered.text);
        assert_eq!(raw.value, filtered.value);
        assert_eq!(raw.checked, filtered.checked);
    }
}

#[test]
fn filter_rederives_checked_from_selection_set() {
    let mut state = AppState::new(5, Vec::new());
    state.selected.push("source-4".to_string());
    state.filter();
    for item in state.filtered_sources.iter() {
        assert_eq!(item.checked, item.value == "source-4");
    }
}

#[test]
fn filter_is_case_sensitive() {
    let mut state = AppState::new(3, Vec::new());
    state.search = "SOURCE".to_string();
    state.filter();
    assert_eq!(state.filtered_sources.len(), 0);
}

#[test]
fn filter_twice_yields_same_result() {
    let mut state = AppState::new(29, sel(&["source-2"]));
    state.search = "2".to_string();
    state.filter();
    let first: Vec<(bool, String, String)> = state
        .filtered_sources
        .iter()
        .map(|s| (s.checked, s.text.clone(), s.value.clone()))
        .collect();
    state.filter();
    let second: Vec<(bool, String, String)> = state
        .filtered_sources
        .iter()
        .map(|s| (s.checked, s.text.clone(), s.value.clone()))
        .collect();
    assert_eq!(first, second);
}

#[test]
fn toggling_rows_updates_selection_set() {
    let mut state = AppState::new(29, sel(&["source-1", "source-2"]));
    set_checked(&mut state, "source-3", true);
    state.on_toggle_source(true);
    assert_eq!(state.selected, sel(&["source-1", "source-2", "source-3"]));
    set_checked(&mut state, "source-1", false);
    state.on_toggle_source(false);
    assert_eq!(state.selected, sel(&["source-2", "source-3"]));
}

#[test]
fn selection_membership_matches_checked_flags_after_sync() {
    let mut state = AppState::new(10, sel(&["source-5"]));
    set_checked(&mut state, "source-2", true);
    set_checked(&mut state, "source-7", true);
    set_checked(&mut state, "source-5", false);
    state.on_toggle_source(true);
    for item in state.filtered_sources.iter() {
        assert_eq!(state.selected.contains(&item.value), item.checked);
    }
}

#[test]
fn sync_does_not_duplicate_already_selected_values() {
    let mut state = AppState::new(4, sel(&["source-1"]));
    set_checked(&mut state, "source-1", true);
    state.on_toggle_source(true);
    assert_eq!(state.selected, sel(&["source-1"]));
}

#[test]
fn sync_ignores_identifiers_outside_the_filtered_view() {
    let mut state = AppState::new(5, sel(&["source-9"]));
    state.search = "source 1".to_string();
    state.filter();
    assert_eq!(state.filtered_sources.len(), 1);
    state.on_toggle_source(false);
    assert_eq!(state.selected, sel(&["source-9"]));
}

#[test]
fn has_filter_reports_nonempty_search() {
    let mut state = AppState::new(2, Vec::new());
    assert!(!state.has_filter());
    state.search = "x".to_string();
    assert!(state.has_filter());
}

#[test]
fn selected_contains_scans_the_selection_set() {
    let selected = sel(&["a", "b"]);
    assert!(selected_contains(&selected, &"a".to_string()));
    assert!(selected_contains(&selected, &"b".to_string()));
    assert!(!selected_contains(&selected, &"c".to_string()));
    assert!(!selected_contains(&Vec::new(), &"a".to_string()));
}

#[test]
fn remove_selected_drops_only_the_first_occurrence() {
    let mut selected = sel(&["a", "b", "a"]);
    assert!(remove_selected(&mut selected, &"a".to_string()));
    assert_eq!(selected, sel(&["b", "a"]));
    assert!(!remove_selected(&mut selected, &"z".to_string()));
    assert_eq!(selected, sel(&["b", "a"]));
}

#[test]
fn source_item_fields_are_plain_values() {
    let item = SourceItem {
        checked: true,
        text: "source 1".to_string(),
        value: "source-1".to_string(),
    };
    let copy = item.clone();
    assert_eq!(copy.text, item.text);
    assert_eq!(copy.value, item.value);
    assert_eq!(copy.checked, item.checked);
}
