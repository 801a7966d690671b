use file_explorer::session::{Action, Message, Session, DOUBLE_CLICK_MS};

fn names(parts: &[&str]) -> Vec<String> {
    parts.iter().map(|p| p.to_string()).collect()
}

fn session() -> Session {
    Session::new(names(&["F:\\", "source"]), names(&["docs", "a.txt", "docs"]), 1_000)
}

fn press(name: &str) -> Message {
    Message::ItemPressed { name: name.to_string() }
}

#[test]
fn new_session_has_nothing_selected() {
    let s = session();
    assert_eq!(s.path, names(&["F:\\", "source"]));
    assert_eq!(s.file_names, names(&["docs", "a.txt", "docs"]));
    assert_eq!(s.input_value, "");
    assert_eq!(s.active_file, None);
    assert_eq!(s.last_clicked_ms, 1_000);
    assert!(!s.searching);
}

#[test]
fn back_goes_up_one_level() {
    let mut s = session();
    let action = s.update(Message::BackPressed, 2_000, false);
    assert!(matches!(action, Action::ListFolder));
    assert_eq!(s.path, names(&["F:\\"]));
    assert_eq!(s.file_names, names(&["docs", "a.txt", "docs"]));
}

#[test]
fn back_at_a_root_shows_the_volumes() {
    let mut s = Session::new(names(&["F:\\"]), Vec::new(), 0);
    let action = s.update(Message::BackPressed, 5, false);
    assert!(matches!(action, Action::ShowVolumes));
    assert_eq!(s.path, names(&["F:\\"]));
    let mut nowhere = Session::new(Vec::new(), Vec::new(), 0);
    assert!(matches!(nowhere.update(Message::BackPressed, 5, false), Action::ShowVolumes));
    assert!(nowhere.path.is_empty());
}

#[test]
fn first_press_selects_the_first_item_of_that_name() {
    let mut s = session();
    let action = s.update(press("docs"), 5_000, true);
    assert!(matches!(action, Action::Stay));
    assert_eq!(s.active_file, Some((0, "docs".to_string())));
    assert_eq!(s.last_clicked_ms, 5_000);
    assert_eq!(s.path, names(&["F:\\", "source"]));
    let action = s.update(press("a.txt"), 5_100, false);
    assert!(matches!(action, Action::Stay));
    assert_eq!(s.active_file, Some((1, "a.txt".to_string())));
    assert_eq!(s.last_clicked_ms, 5_100);
}

#[test]
fn double_click_on_a_directory_enters_it() {
    let mut s = session();
    s.update(press("docs"), 5_000, true);
    let action = s.update(press("docs"), 5_000 + DOUBLE_CLICK_MS - 1, true);
    assert!(matches!(action, Action::ListFolder));
    assert_eq!(s.path, names(&["F:\\", "source", "docs"]));
    assert_eq!(s.active_file, None);
    assert_eq!(s.last_clicked_ms, 5_000);
}

#[test]
fn double_click_on_a_file_opens_it_and_keeps_the_path() {
    let mut s = session();
    s.update(press("a.txt"), 5_000, false);
    let action = s.update(press("a.txt"), 5_200, false);
    assert!(matches!(action, Action::OpenFile(ref name) if name == "a.txt"));
    assert_eq!(s.path, names(&["F:\\", "source"]));
    assert_eq!(s.active_file, None);
}

#[test]
fn slow_second_press_is_a_single_click() {
    let mut s = session();
    s.update(press("docs"), 5_000, true);
    let action = s.update(press("docs"), 5_000 + DOUBLE_CLICK_MS, true);
    assert!(matches!(action, Action::Stay));
    assert_eq!(s.path, names(&["F:\\", "source"]));
    assert_eq!(s.active_file, Some((0, "docs".to_string())));
    assert_eq!(s.last_clicked_ms, 5_000 + DOUBLE_CLICK_MS);
}

#[test]
fn press_on_another_item_is_a_single_click() {
    let mut s = session();
    s.update(press("docs"), 5_000, true);
    let action = s.update(press("a.txt"), 5_001, false);
    assert!(matches!(action, Action::Stay));
    assert_eq!(s.active_file, Some((1, "a.txt".to_string())));
}

#[test]
fn clock_that_went_back_counts_as_no_time_passed() {
    let mut s = session();
    s.update(press("docs"), 5_000, true);
    let action = s.update(press("docs"), 4_000, true);
    assert!(matches!(action, Action::ListFolder));
}

#[test]
fn press_on_a_name_not_on_display_selects_nothing() {
    let mut s = session();
    s.update(press("docs"), 5_000, true);
    let action = s.update(press("gone"), 5_001, false);
    assert!(matches!(action, Action::Stay));
    assert_eq!(s.active_file, None);
}

#[test]
fn input_change_is_stored() {
    let mut s = session();
    let action = s.update(Message::InputChanged("report".to_string()), 9, false);
    assert!(matches!(action, Action::Stay));
    assert_eq!(s.input_value, "report");
    assert_eq!(s.last_clicked_ms, 1_000);
}

#[test]
fn search_button_asks_for_a_search() {
    let mut s = session();
    s.update(Message::InputChanged("a".to_string()), 9, false);
    let action = s.update(Message::SearchButtonPressed, 10, false);
    assert!(matches!(action, Action::Search));
    assert!(s.searching);
    assert_eq!(s.input_value, "a");
    assert_eq!(s.path, names(&["F:\\", "source"]));
}

#[test]
fn show_replaces_the_names_on_display() {
    let mut s = session();
    s.show(names(&["x", "y"]));
    assert_eq!(s.file_names, names(&["x", "y"]));
    assert_eq!(s.path, names(&["F:\\", "source"]));
}
