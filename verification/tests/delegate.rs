use switch_demo::delegate::{Command, Delegate, Handled};
use switch_demo::state::AppState;

fn sel(values: &[&str]) -> Vec<String> {
    values.iter().map(|v| v.to_string()).collect()
}

#[test]
fn filter_command_rebuilds_filtered_view() {
    let mut delegate = Delegate;
    let mut state = AppState::new(29, Vec::new());
    state.search = "source 2".to_string();
    let handled = delegate.command(&Command::Filter, &mut state);
    assert_eq!(handled, Handled::Yes);
    let texts: Vec<&str> = state.filtered_sources.iter().map(|s| s.text.as_str()).collect();
    assert_eq!(
        texts,
        vec![
            "source 2", "source 20", "source 21", "source 22", "source 23", "source 24",
            "source 25", "source 26", "source 27", "source 28", "source 29"
        ]
    );
}

#[test]
fn select_command_adds_checked_rows() {
    let mut delegate = Delegate;
    let mut state = AppState::new(5, Vec::new());
    state.filtered_sources[2].checked = true;
    let handled = delegate.command(&Command::SelectSource, &mut state);
    assert_eq!(handled, Handled::Yes);
    assert_eq!(state.selected, sel(&["source-3"]));
}

#[test]
fn remove_command_drops_unchecked_rows() {
    let mut delegate = Delegate;
    let mut state = AppState::new(5, sel(&["source-3", "source-4"]));
    state.filtered_sources[2].checked = false;
    let handled = delegate.command(&Command::RemoveSource, &mut state);
    assert_eq!(handled, Handled::Yes);
    assert_eq!(state.selected, sel(&["source-4"]));
}

#[test]
fn unknown_command_is_not_consumed() {
    let mut delegate = Delegate;
    let mut state = AppState::new(3, sel(&["source-1"]));
    let before_selected = state.selected.clone();
    let handled = delegate.command(&Command::Unknown, &mut state);
    assert_eq!(handled, Handled::No);
    assert_eq!(state.selected, before_selected);
    assert_eq!(state.filtered_sources.len(), 3);
}
