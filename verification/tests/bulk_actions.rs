use beammm::game::ModCfg;
use beammm_gui::config::is_active;
use beammm_gui::criteria::Criteria;
use beammm_gui::mods::{ModList, UnknownMod};
use beammm_gui::record::StagedMod;
use beammm_gui::steps::Step;

fn config(flags: &[(&str, bool)]) -> ModCfg {
    let mut body = String::from("{\"mods\":{");
    for (i, (name, active)) in flags.iter().enumerate() {
        if i > 0 {
            body.push(',');
        }
        body.push_str(&format!("\"{}\":{{\"active\":{}}}", name, active));
    }
    body.push_str("}}");
    ModCfg::load(body.as_bytes()).unwrap()
}

fn list_of(names: &[&str]) -> ModList {
    ModList::from_records(names.iter().map(|n| StagedMod::new(n.to_string())).collect()).unwrap()
}

fn ticked(list: &ModList) -> Vec<bool> {
    (0..list.len()).map(|i| list.get(i).unwrap().selected).collect()
}

#[test]
fn is_active_reads_the_flag_of_a_known_mod() {
    let cfg = config(&[("on", true), ("off", false)]);
    assert_eq!(is_active(&cfg, "on"), Some(true));
    assert_eq!(is_active(&cfg, "off"), Some(false));
    assert_eq!(is_active(&cfg, "absent"), None);
}

#[test]
fn select_visible_ticks_what_the_filters_let_through() {
    let cfg = config(&[("apple", true), ("banana", false), ("cherry", true)]);
    let mut list = list_of(&["apple", "banana", "cherry"]);
    let mut c = Criteria::new(false);
    c.set_query("AN".to_string());
    assert_eq!(list.select_visible(&c, &cfg), Ok(()));
    assert_eq!(ticked(&list), vec![false, true, false]);
    let mut d = Criteria::new(false);
    d.toggle_active_only();
    assert_eq!(list.select_visible(&d, &cfg), Ok(()));
    assert_eq!(ticked(&list), vec![true, true, true]);
}

#[test]
fn select_visible_disregards_the_selected_only_filter() {
    let cfg = config(&[("a", true), ("b", true)]);
    let mut list = list_of(&["a", "b"]);
    let mut c = Criteria::new(false);
    c.toggle_selected_only();
    assert_eq!(list.visible_order(&c, &cfg), Ok(vec![]));
    assert_eq!(list.select_visible(&c, &cfg), Ok(()));
    assert_eq!(ticked(&list), vec![true, true]);
}

#[test]
fn select_visible_then_deselect_all_leaves_nothing_ticked() {
    let cfg = config(&[("a", true), ("b", false), ("c", true)]);
    let mut list = list_of(&["a", "b", "c"]);
    list.set_selected(1, true);
    let mut c = Criteria::new(false);
    c.toggle_active_only();
    list.select_visible(&c, &cfg).unwrap();
    assert_eq!(ticked(&list), vec![true, true, true]);
    c.toggle_inactive_only();
    c.set_query("zzz".to_string());
    list.deselect_all();
    assert_eq!(ticked(&list), vec![false, false, false]);
}

#[test]
fn select_visible_changes_nothing_when_a_mod_is_unknown() {
    let cfg = config(&[("a", true)]);
    let mut list = list_of(&["a", "b"]);
    let c = Criteria::new(false);
    assert_eq!(list.select_visible(&c, &cfg), Err(UnknownMod { index: 1 }));
    assert_eq!(ticked(&list), vec![false, false]);
}

#[test]
fn enable_selected_activates_the_ticked_mods_only() {
    let mut cfg = config(&[("a", false), ("b", false), ("c", true), ("d", false)]);
    let mut list = list_of(&["a", "b", "c"]);
    list.set_selected(0, true);
    list.set_selected(2, true);
    assert_eq!(list.enable_selected(&mut cfg), Ok(vec![Step::SaveConfig]));
    assert_eq!(is_active(&cfg, "a"), Some(true));
    assert_eq!(is_active(&cfg, "b"), Some(false));
    assert_eq!(is_active(&cfg, "c"), Some(true));
    assert_eq!(is_active(&cfg, "d"), Some(false));
}

#[test]
fn disable_selected_asks_for_the_presets_to_be_applied_again() {
    let mut cfg = config(&[("a", true), ("b", true)]);
    let mut list = list_of(&["a", "b"]);
    list.set_selected(1, true);
    assert_eq!(
        list.disable_selected(&mut cfg),
        Ok(vec![Step::ApplyPresets, Step::SaveConfig])
    );
    assert_eq!(is_active(&cfg, "a"), Some(true));
    assert_eq!(is_active(&cfg, "b"), Some(false));
}

#[test]
fn bulk_action_stops_at_the_first_unknown_ticked_mod() {
    let mut cfg = config(&[("a", false), ("c", false)]);
    let mut list = list_of(&["a", "b", "c", "skipped"]);
    list.set_selected(0, true);
    list.set_selected(1, true);
    list.set_selected(2, true);
    assert_eq!(list.enable_selected(&mut cfg), Err(UnknownMod { index: 1 }));
    assert_eq!(is_active(&cfg, "a"), Some(true));
    assert_eq!(is_active(&cfg, "c"), Some(false));
    assert_eq!(is_active(&cfg, "b"), None);
}

#[test]
fn an_unknown_mod_that_is_not_ticked_does_not_stop_a_bulk_action() {
    let mut cfg = config(&[("a", false)]);
    let mut list = list_of(&["ghost", "a"]);
    list.set_selected(1, true);
    assert_eq!(list.set_selected_active(&mut cfg, true), Ok(()));
    assert_eq!(is_active(&cfg, "a"), Some(true));
}

#[test]
fn toggle_active_turns_one_flag_round() {
    let mut cfg = config(&[("a", false), ("b", true)]);
    let list = list_of(&["a", "b", "ghost"]);
    assert_eq!(list.toggle_active(0, &mut cfg), Ok(vec![Step::SaveConfig]));
    assert_eq!(is_active(&cfg, "a"), Some(true));
    assert_eq!(list.toggle_active(1, &mut cfg), Ok(vec![Step::SaveConfig]));
    assert_eq!(is_active(&cfg, "b"), Some(false));
    assert_eq!(list.toggle_active(2, &mut cfg), Err(UnknownMod { index: 2 }));
    assert_eq!(list.toggle_active(9, &mut cfg), Err(UnknownMod { index: 9 }));
    assert_eq!(is_active(&cfg, "a"), Some(true));
}

#[test]
fn bulk_actions_done_twice_change_nothing_more() {
    let mut cfg = config(&[("a", false), ("b", false), ("c", true)]);
    let mut list = list_of(&["a", "b", "c"]);
    let mut c = Criteria::new(false);
    c.toggle_inactive_only();
    list.select_visible(&c, &cfg).unwrap();
    let once = ticked(&list);
    list.select_visible(&c, &cfg).unwrap();
    assert_eq!(ticked(&list), once);
    assert_eq!(once, vec![true, true, false]);
    list.enable_selected(&mut cfg).unwrap();
    list.enable_selected(&mut cfg).unwrap();
    assert_eq!(is_active(&cfg, "a"), Some(true));
    assert_eq!(is_active(&cfg, "b"), Some(true));
    assert_eq!(is_active(&cfg, "c"), Some(true));
    list.deselect_all();
    list.deselect_all();
    assert_eq!(ticked(&list), vec![false, false, false]);
}
