use beammm::game::ModCfg;
use beammm_gui::compare::{compare_dates, compare_flags, compare_records, compare_times};
use beammm_gui::criteria::{Criteria, SortOption};
use beammm_gui::filter::{passes, passes_filters};
use beammm_gui::mods::{sort_records, ModList, UnknownMod};
use beammm_gui::record::{field_text, StagedMod};
use beammm_gui::text::Order;

fn cfg_of(flags: &[(&str, bool)]) -> ModCfg {
    let mut body = String::from("{\"mods\":{");
    for (i, (name, active)) in flags.iter().enumerate() {
        if i > 0 {
            body.push(',');
        }
        body.push_str(&format!("\"{}\":{{\"active\":{}}}", name, active));
    }
    body.push_str("}}");
    ModCfg::load(body.as_bytes()).unwrap()
}

fn rec(name: &str, createtime: Option<i64>) -> StagedMod {
    let mut m = StagedMod::new(name.to_string());
    m.createtime = createtime;
    m
}

fn names_of(list: &ModList) -> Vec<String> {
    let mut out = Vec::new();
    for i in 0..list.len() {
        out.push(list.get(i).unwrap().mod_name.clone());
    }
    out
}

fn shown(list: &ModList, order: &[usize]) -> Vec<String> {
    order.iter().map(|i| list.get(*i).unwrap().mod_name.clone()).collect()
}

fn scenario_list() -> (ModList, ModCfg) {
    let cfg = cfg_of(&[("A", true), ("B", false), ("C", true)]);
    let list =
        ModList::from_records(vec![rec("A", Some(100)), rec("B", None), rec("C", Some(50))])
            .unwrap();
    (list, cfg)
}

#[test]
fn date_ascending_puts_timestamps_first_then_missing() {
    let (mut list, cfg) = scenario_list();
    assert_eq!(list.sort(SortOption::Date, true, &cfg), Ok(()));
    assert_eq!(names_of(&list), vec!["C", "A", "B"]);
}

#[test]
fn name_descending_reverses_the_alphabet() {
    let (mut list, cfg) = scenario_list();
    assert_eq!(list.sort(SortOption::Name, false, &cfg), Ok(()));
    assert_eq!(names_of(&list), vec!["C", "B", "A"]);
}

#[test]
fn date_descending_turns_the_whole_order_round() {
    let (mut list, cfg) = scenario_list();
    assert_eq!(list.sort(SortOption::Date, false, &cfg), Ok(()));
    assert_eq!(names_of(&list), vec!["B", "A", "C"]);
}

#[test]
fn date_sort_orders_missing_timestamps_by_name() {
    let cfg = cfg_of(&[("x", true), ("m", true), ("a", true), ("t", true)]);
    let mut list = ModList::from_records(vec![
        rec("x", None),
        rec("m", None),
        rec("t", Some(7)),
        rec("a", None),
    ])
    .unwrap();
    list.sort(SortOption::Date, true, &cfg).unwrap();
    assert_eq!(names_of(&list), vec!["t", "a", "m", "x"]);
}

#[test]
fn name_sort_twice_with_direction_toggled_is_reversed() {
    let cfg = cfg_of(&[]);
    let mut list = ModList::from_records(vec![
        rec("delta", None),
        rec("alpha", None),
        rec("Charlie", None),
        rec("bravo", None),
    ])
    .unwrap();
    let mut c = Criteria::new(false);
    c.choose_sort(SortOption::Name);
    list.sort_if_needed(&mut c, &cfg).unwrap();
    let up = names_of(&list);
    assert_eq!(up, vec!["Charlie", "alpha", "bravo", "delta"]);
    c.toggle_direction();
    list.sort_if_needed(&mut c, &cfg).unwrap();
    let mut down = names_of(&list);
    down.reverse();
    assert_eq!(down, up);
}

#[test]
fn status_sort_puts_inactive_first_and_keeps_ties_in_order() {
    let cfg = cfg_of(&[("d", true), ("c", false), ("b", true), ("a", false)]);
    let mut list =
        ModList::from_records(vec![rec("d", None), rec("c", None), rec("b", None), rec("a", None)])
            .unwrap();
    list.sort(SortOption::Status, true, &cfg).unwrap();
    assert_eq!(names_of(&list), vec!["c", "a", "d", "b"]);
    list.sort(SortOption::Status, false, &cfg).unwrap();
    assert_eq!(names_of(&list), vec!["d", "b", "c", "a"]);
}

#[test]
fn status_sort_names_the_first_unknown_mod() {
    let cfg = cfg_of(&[("a", true)]);
    let mut list =
        ModList::from_records(vec![rec("a", None), rec("ghost", None), rec("zz", None)]).unwrap();
    assert_eq!(list.sort(SortOption::Status, true, &cfg), Err(UnknownMod { index: 1 }));
    assert_eq!(names_of(&list), vec!["a", "ghost", "zz"]);
    assert_eq!(list.sort(SortOption::Name, false, &cfg), Ok(()));
    assert_eq!(names_of(&list), vec!["zz", "ghost", "a"]);
}

#[test]
fn selection_sort_puts_unticked_first() {
    let cfg = cfg_of(&[]);
    let mut list =
        ModList::from_records(vec![rec("a", None), rec("b", None), rec("c", None)]).unwrap();
    assert!(list.set_selected(0, true));
    assert!(list.set_selected(2, true));
    assert!(!list.set_selected(3, true));
    list.sort(SortOption::Selection, true, &cfg).unwrap();
    assert_eq!(names_of(&list), vec!["b", "a", "c"]);
}

#[test]
fn text_keys_treat_absent_as_empty() {
    let cfg = cfg_of(&[]);
    let mut a = rec("a", None);
    a.fullpath = Some("/mods/z.zip".to_string());
    a.filename = Some("z.zip".to_string());
    a.mod_type = Some("vehicle".to_string());
    let b = rec("b", None);
    let mut c = rec("c", None);
    c.fullpath = Some("/mods/k.zip".to_string());
    c.filename = Some("k.zip".to_string());
    c.mod_type = Some("map".to_string());
    let mut records = vec![a, b, c];
    sort_records(&mut records, SortOption::Fullpath, true, &cfg);
    let got: Vec<&str> = records.iter().map(|m| m.mod_name.as_str()).collect();
    assert_eq!(got, vec!["b", "c", "a"]);
    sort_records(&mut records, SortOption::ModType, false, &cfg);
    let got: Vec<&str> = records.iter().map(|m| m.mod_name.as_str()).collect();
    assert_eq!(got, vec!["a", "c", "b"]);
    sort_records(&mut records, SortOption::Filename, true, &cfg);
    let got: Vec<&str> = records.iter().map(|m| m.mod_name.as_str()).collect();
    assert_eq!(got, vec!["b", "c", "a"]);
}

#[test]
fn sort_happens_only_when_due() {
    let cfg = cfg_of(&[]);
    let mut list = ModList::from_records(vec![rec("b", None), rec("a", None)]).unwrap();
    let mut c = Criteria::new(false);
    assert!(c.needs_sort());
    c.mark_sorted();
    list.sort_if_needed(&mut c, &cfg).unwrap();
    assert_eq!(names_of(&list), vec!["b", "a"]);
    c.choose_sort(SortOption::Name);
    assert!(c.needs_sort());
    list.sort_if_needed(&mut c, &cfg).unwrap();
    assert!(!c.needs_sort());
    assert_eq!(names_of(&list), vec!["a", "b"]);
}

#[test]
fn comparisons_of_flags_times_and_dates() {
    assert_eq!(compare_flags(false, true), Order::Less);
    assert_eq!(compare_flags(true, false), Order::Greater);
    assert_eq!(compare_flags(true, true), Order::Equal);
    assert_eq!(compare_times(-5, 3), Order::Less);
    assert_eq!(compare_times(3, 3), Order::Equal);
    assert_eq!(compare_times(i64::MAX, i64::MIN), Order::Greater);
    assert_eq!(compare_dates(&rec("z", Some(1)), &rec("a", None)), Order::Less);
    assert_eq!(compare_dates(&rec("a", None), &rec("z", Some(1))), Order::Greater);
    assert_eq!(compare_dates(&rec("a", None), &rec("b", None)), Order::Less);
    assert_eq!(compare_dates(&rec("b", Some(4)), &rec("a", Some(4))), Order::Equal);
}

#[test]
fn compare_records_reads_status_from_the_configuration() {
    let cfg = cfg_of(&[("on", true), ("off", false)]);
    let on = rec("on", None);
    let off = rec("off", None);
    assert_eq!(compare_records(SortOption::Status, true, &cfg, &off, &on), Order::Less);
    assert_eq!(compare_records(SortOption::Status, false, &cfg, &off, &on), Order::Greater);
    assert_eq!(compare_records(SortOption::Name, true, &cfg, &off, &on), Order::Less);
    assert_eq!(compare_records(SortOption::Name, true, &cfg, &on, &on), Order::Equal);
}

#[test]
fn text_filter_with_active_only_shows_active_matches() {
    let cfg = cfg_of(&[("A", true), ("AB", false), ("Za", true)]);
    let list =
        ModList::from_records(vec![rec("A", None), rec("AB", None), rec("Za", None)]).unwrap();
    let mut c = Criteria::new(false);
    c.set_query("a".to_string());
    c.set_mod_type_filter(String::new());
    c.toggle_active_only();
    let order = list.visible_order(&c, &cfg).unwrap();
    assert_eq!(shown(&list, &order), vec!["A", "Za"]);
}

#[test]
fn visible_order_is_a_part_of_the_list_and_repeatable() {
    let cfg = cfg_of(&[("A", true), ("AB", false), ("Za", true), ("q", false)]);
    let list = ModList::from_records(vec![
        rec("q", None),
        rec("Za", None),
        rec("AB", None),
        rec("A", None),
    ])
    .unwrap();
    let mut c = Criteria::new(false);
    c.set_query("A".to_string());
    let first = list.visible_order(&c, &cfg).unwrap();
    let second = list.visible_order(&c, &cfg).unwrap();
    assert_eq!(first, vec![1, 2, 3]);
    assert_eq!(first, second);
    assert!(first.iter().all(|i| *i < list.len()));
}

#[test]
fn no_filter_shows_every_mod() {
    let cfg = cfg_of(&[("a", true), ("b", false)]);
    let list = ModList::from_records(vec![rec("a", None), rec("b", None)]).unwrap();
    let c = Criteria::new(true);
    assert_eq!(list.visible_order(&c, &cfg), Ok(vec![0, 1]));
    let empty = ModList::new();
    assert_eq!(empty.visible_order(&c, &cfg), Ok(vec![]));
}

#[test]
fn inactive_only_and_selected_only_narrow_the_list() {
    let cfg = cfg_of(&[("a", true), ("b", false), ("c", false)]);
    let mut list =
        ModList::from_records(vec![rec("a", None), rec("b", None), rec("c", None)]).unwrap();
    let mut c = Criteria::new(false);
    c.toggle_inactive_only();
    assert_eq!(list.visible_order(&c, &cfg), Ok(vec![1, 2]));
    c.toggle_selected_only();
    assert_eq!(list.visible_order(&c, &cfg), Ok(vec![]));
    list.set_selected(2, true);
    list.set_selected(0, true);
    assert_eq!(list.visible_order(&c, &cfg), Ok(vec![2]));
}

#[test]
fn visible_order_names_the_first_unknown_mod() {
    let cfg = cfg_of(&[("a", true)]);
    let list = ModList::from_records(vec![rec("a", None), rec("b", None)]).unwrap();
    let c = Criteria::new(false);
    assert_eq!(list.visible_order(&c, &cfg), Err(UnknownMod { index: 1 }));
    assert_eq!(list.first_unknown(&cfg), Some(1));
    assert_eq!(ModList::new().first_unknown(&cfg), None);
}

#[test]
fn type_filter_is_exact_and_path_filter_ignores_case() {
    let c0 = Criteria::new(false);
    let mut m = rec("car", None);
    m.mod_type = Some("vehicle".to_string());
    m.fullpath = Some("/Mods/Repo/car.zip".to_string());
    assert!(passes(&c0, &m, true));
    let mut c = Criteria::new(false);
    c.set_mod_type_filter("veh".to_string());
    assert!(!passes_filters(&c, &m, true));
    c.set_mod_type_filter("vehicle".to_string());
    assert!(passes_filters(&c, &m, true));
    c.set_fullpath_filter("REPO".to_string());
    assert!(passes_filters(&c, &m, true));
    c.set_fullpath_filter("unpacked".to_string());
    assert!(!passes_filters(&c, &m, true));
    let bare = rec("car", None);
    let mut t = Criteria::new(false);
    t.set_mod_type_filter("vehicle".to_string());
    assert!(!passes_filters(&t, &bare, true));
    let mut p = Criteria::new(false);
    p.set_fullpath_filter("x".to_string());
    assert!(!passes_filters(&p, &bare, true));
}

#[test]
fn field_text_is_empty_for_an_absent_field() {
    assert_eq!(field_text(&None), "");
    assert_eq!(field_text(&Some("x.zip".to_string())), "x.zip");
}

#[test]
fn from_records_refuses_shared_names() {
    assert!(ModList::from_records(vec![rec("a", None), rec("b", None), rec("a", Some(1))])
        .is_none());
    assert!(ModList::from_records(vec![]).is_some());
    assert!(ModList::new().get(0).is_none());
}
