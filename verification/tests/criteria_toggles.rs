use beammm_gui::criteria::{Criteria, SortOption};

#[test]
fn new_criteria_have_no_filter_and_sort_by_name() {
    let c = Criteria::new(true);
    assert_eq!(c.query(), "");
    assert_eq!(c.fullpath_filter(), "");
    assert_eq!(c.mod_type_filter(), "");
    assert!(!c.active_only());
    assert!(!c.inactive_only());
    assert!(!c.selected_only());
    assert_eq!(c.sort_option(), SortOption::Name);
    assert!(c.sort_ascending());
    assert!(c.needs_sort());
    assert!(c.advanced_open());
}

#[test]
fn active_only_then_inactive_only_leaves_exactly_one_set() {
    let mut c = Criteria::new(false);
    c.toggle_active_only();
    assert!(c.active_only());
    assert!(!c.inactive_only());
    c.toggle_inactive_only();
    assert!(!c.active_only());
    assert!(c.inactive_only());
    c.toggle_active_only();
    assert!(c.active_only());
    assert!(!c.inactive_only());
}

#[test]
fn a_second_click_clears_a_status_filter() {
    let mut c = Criteria::new(false);
    c.toggle_inactive_only();
    c.toggle_inactive_only();
    assert!(!c.active_only());
    assert!(!c.inactive_only());
    c.toggle_active_only();
    c.toggle_active_only();
    assert!(!c.active_only());
    assert!(!c.inactive_only());
}

#[test]
fn selected_only_toggles_alone() {
    let mut c = Criteria::new(false);
    c.toggle_active_only();
    c.toggle_selected_only();
    assert!(c.selected_only());
    assert!(c.active_only());
    c.toggle_selected_only();
    assert!(!c.selected_only());
}

#[test]
fn changing_the_sort_marks_it_due() {
    let mut c = Criteria::new(false);
    c.mark_sorted();
    assert!(!c.needs_sort());
    c.toggle_direction();
    assert!(!c.sort_ascending());
    assert!(c.needs_sort());
    c.mark_sorted();
    c.choose_sort(SortOption::Date);
    assert_eq!(c.sort_option(), SortOption::Date);
    assert!(c.needs_sort());
    c.mark_sorted();
    c.set_query("abc".to_string());
    assert!(!c.needs_sort());
    assert_eq!(c.query(), "abc");
}

#[test]
fn advanced_open_reports_a_change_once() {
    let mut c = Criteria::new(false);
    assert!(!c.note_advanced_open(false));
    assert!(c.note_advanced_open(true));
    assert!(c.advanced_open());
    assert!(!c.note_advanced_open(true));
    assert!(c.note_advanced_open(false));
}

#[test]
fn filters_are_replaced_by_their_setters() {
    let mut c = Criteria::new(false);
    c.set_fullpath_filter("/mods".to_string());
    c.set_mod_type_filter("map".to_string());
    assert_eq!(c.fullpath_filter(), "/mods");
    assert_eq!(c.mod_type_filter(), "map");
    assert_eq!(c.query(), "");
}
