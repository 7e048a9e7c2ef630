use beammm::game::ModCfg;
use beammm::Preset;
use beammm_gui::config::is_active;
use beammm_gui::mods::ModList;
use beammm_gui::presets::{add_member, lists_mod, PresetError, PresetStore};
use beammm_gui::record::StagedMod;
use beammm_gui::steps::{
    after_adding, after_deleting, after_disabling, after_editing, after_enabling, after_switching,
    Step,
};

fn flags(entries: &[(&str, bool)]) -> ModCfg {
    let mut body = String::from("{\"mods\":{");
    for (i, (name, active)) in entries.iter().enumerate() {
        if i > 0 {
            body.push(',');
        }
        body.push_str(&format!("\"{}\":{{\"active\":{}}}", name, active));
    }
    body.push_str("}}");
    ModCfg::load(body.as_bytes()).unwrap()
}

fn members(store: &PresetStore, name: &str) -> Vec<String> {
    let i = store.find(name).unwrap();
    store.get(i).unwrap().preset.get_mods().clone()
}

fn enabled(store: &PresetStore, name: &str) -> bool {
    let i = store.find(name).unwrap();
    store.get(i).unwrap().preset.is_enabled()
}

fn names(store: &PresetStore) -> Vec<String> {
    (0..store.len()).map(|i| store.get(i).unwrap().name.clone()).collect()
}

#[test]
fn create_makes_an_empty_disabled_preset_and_edits_it() {
    let mut store = PresetStore::new();
    assert_eq!(store.len(), 0);
    assert_eq!(store.current(), None);
    assert_eq!(store.create("race".to_string()), Ok(vec![Step::SavePreset]));
    assert_eq!(names(&store), vec!["race"]);
    assert_eq!(members(&store, "race"), Vec::<String>::new());
    assert!(!enabled(&store, "race"));
    assert_eq!(store.current(), Some("race"));
    let expected = Preset::new("race".to_string(), vec![]);
    assert_eq!(store.get(0).unwrap().preset, expected);
}

#[test]
fn create_refuses_an_empty_name_and_a_used_one() {
    let mut store = PresetStore::new();
    assert_eq!(store.create(String::new()), Err(PresetError::EmptyName));
    store.create("a".to_string()).unwrap();
    store.create("b".to_string()).unwrap();
    assert_eq!(store.create("a".to_string()), Err(PresetError::NameInUse));
    assert_eq!(names(&store), vec!["a", "b"]);
    assert_eq!(store.current(), Some("b"));
}

#[test]
fn adding_the_same_mod_twice_leaves_the_members_unchanged() {
    let mut store = PresetStore::new();
    store.create("p".to_string()).unwrap();
    assert_eq!(store.add_member_to("p", "car"), Ok(vec![Step::SavePreset]));
    assert_eq!(members(&store, "p"), vec!["car"]);
    assert_eq!(store.add_member_to("p", "car"), Ok(vec![Step::SavePreset]));
    assert_eq!(members(&store, "p"), vec!["car"]);
    assert_eq!(store.add_member_to("p", "map"), Ok(vec![Step::SavePreset]));
    assert_eq!(members(&store, "p"), vec!["car", "map"]);
    assert_eq!(store.add_member_to("q", "car"), Err(PresetError::NoSuchPreset));
}

#[test]
fn add_member_and_lists_mod_on_a_bare_preset() {
    let mut p = Preset::new("p".to_string(), vec!["a".to_string()]);
    assert!(lists_mod(&p, "a"));
    assert!(!lists_mod(&p, "b"));
    add_member(&mut p, "a");
    add_member(&mut p, "b");
    add_member(&mut p, "b");
    assert_eq!(p.get_mods(), &vec!["a".to_string(), "b".to_string()]);
    assert!(!p.is_enabled());
}

#[test]
fn deleting_the_edited_preset_ends_the_editing() {
    let mut store = PresetStore::new();
    store.create("a".to_string()).unwrap();
    store.create("b".to_string()).unwrap();
    store.create("c".to_string()).unwrap();
    assert!(store.select_label("b"));
    assert_eq!(store.delete("b"), Ok(vec![Step::DeletePreset]));
    assert_eq!(store.current(), None);
    assert_eq!(names(&store), vec!["a", "c"]);
    assert_eq!(store.find("b"), None);
    assert_eq!(store.delete("b"), Err(PresetError::NoSuchPreset));
}

#[test]
fn deleting_another_preset_keeps_the_editing() {
    let mut store = PresetStore::new();
    store.create("a".to_string()).unwrap();
    store.create("b".to_string()).unwrap();
    assert_eq!(store.current(), Some("b"));
    assert_eq!(store.delete("a"), Ok(vec![Step::DeletePreset]));
    assert_eq!(store.current(), Some("b"));
    assert_eq!(names(&store), vec!["b"]);
}

#[test]
fn select_label_knows_the_label_for_no_preset() {
    let mut store = PresetStore::new();
    store.create("a".to_string()).unwrap();
    assert_eq!(store.current_label(), "a");
    assert!(store.select_label("None"));
    assert_eq!(store.current(), None);
    assert_eq!(store.current_label(), "None");
    assert!(!store.select_label("missing"));
    assert_eq!(store.current(), None);
    assert!(store.select_label("a"));
    assert_eq!(store.current(), Some("a"));
    assert!(!store.select_label("missing"));
    assert_eq!(store.current(), Some("a"));
}

#[test]
fn insert_loaded_takes_a_name_once() {
    let mut store = PresetStore::new();
    let mut p = Preset::new("inner".to_string(), vec!["m1".to_string(), "m2".to_string()]);
    p.enable();
    assert!(store.insert_loaded("file".to_string(), p));
    assert!(!store.insert_loaded("file".to_string(), Preset::new("x".to_string(), vec![])));
    assert_eq!(names(&store), vec!["file"]);
    assert_eq!(members(&store, "file"), vec!["m1", "m2"]);
    assert!(enabled(&store, "file"));
    assert_eq!(store.current(), None);
    assert!(store.get(1).is_none());
}

#[test]
fn enable_sets_the_switch_and_asks_for_three_steps() {
    let mut store = PresetStore::new();
    store.insert_loaded("p".to_string(), Preset::new("p".to_string(), vec!["m".to_string()]));
    assert_eq!(
        store.enable("p"),
        Ok(vec![Step::SavePreset, Step::ApplyPresets, Step::SaveConfig])
    );
    assert!(enabled(&store, "p"));
    assert_eq!(members(&store, "p"), vec!["m"]);
    assert_eq!(store.enable("q"), Err(PresetError::NoSuchPreset));
}

#[test]
fn disable_deactivates_the_members() {
    let mut cfg = flags(&[("m1", true), ("m2", true), ("other", true)]);
    let mut store = PresetStore::new();
    let mut p = Preset::new("p".to_string(), vec!["m1".to_string(), "m2".to_string()]);
    p.enable();
    store.insert_loaded("p".to_string(), p);
    assert_eq!(
        store.disable("p", &mut cfg),
        Ok(vec![Step::SavePreset, Step::ApplyPresets, Step::SaveConfig])
    );
    assert!(!enabled(&store, "p"));
    assert_eq!(is_active(&cfg, "m1"), Some(false));
    assert_eq!(is_active(&cfg, "m2"), Some(false));
    assert_eq!(is_active(&cfg, "other"), Some(true));
    assert_eq!(store.disable("q", &mut cfg), Err(PresetError::NoSuchPreset));
}

#[test]
fn disable_fails_whole_when_a_member_is_missing() {
    let mut cfg = flags(&[("m1", true)]);
    let mut store = PresetStore::new();
    let mut p = Preset::new("p".to_string(), vec!["m1".to_string(), "gone".to_string()]);
    p.enable();
    store.insert_loaded("p".to_string(), p);
    assert_eq!(store.disable("p", &mut cfg), Err(PresetError::MissingMods));
    assert!(enabled(&store, "p"));
    assert_eq!(is_active(&cfg, "m1"), Some(true));
}

#[test]
fn toggle_switches_back_and_forth() {
    let mut cfg = flags(&[("m", true)]);
    let mut store = PresetStore::new();
    store.insert_loaded("p".to_string(), Preset::new("p".to_string(), vec!["m".to_string()]));
    assert!(store.toggle("p", &mut cfg).is_ok());
    assert!(enabled(&store, "p"));
    assert_eq!(is_active(&cfg, "m"), Some(true));
    assert_eq!(
        store.toggle("p", &mut cfg),
        Ok(vec![Step::SavePreset, Step::ApplyPresets, Step::SaveConfig])
    );
    assert!(!enabled(&store, "p"));
    assert_eq!(is_active(&cfg, "m"), Some(false));
    assert_eq!(store.toggle("q", &mut cfg), Err(PresetError::NoSuchPreset));
}

#[test]
fn remove_members_takes_out_every_copy() {
    let mut store = PresetStore::new();
    store.insert_loaded(
        "p".to_string(),
        Preset::new(
            "p".to_string(),
            vec!["a".to_string(), "b".to_string(), "a".to_string(), "c".to_string()],
        ),
    );
    let gone = vec!["a".to_string(), "zz".to_string()];
    assert_eq!(store.remove_members("p", &gone), Ok(vec![Step::SavePreset]));
    assert_eq!(members(&store, "p"), vec!["b", "c"]);
    assert_eq!(store.remove_members("p", &vec![]), Ok(vec![Step::SavePreset]));
    assert_eq!(members(&store, "p"), vec!["b", "c"]);
    assert_eq!(store.remove_members("q", &gone), Err(PresetError::NoSuchPreset));
}

#[test]
fn add_selected_adds_the_ticked_mods_that_are_new() {
    let mut list = ModList::from_records(
        ["a", "b", "c", "d"].iter().map(|n| StagedMod::new(n.to_string())).collect(),
    )
    .unwrap();
    list.set_selected(0, true);
    list.set_selected(1, true);
    list.set_selected(3, true);
    let mut store = PresetStore::new();
    store.insert_loaded("p".to_string(), Preset::new("p".to_string(), vec!["b".to_string()]));
    store.create("other".to_string()).unwrap();
    assert_eq!(
        store.add_selected_to_preset("p", &list),
        Ok(vec![Step::SavePreset, Step::ApplyPresets])
    );
    assert_eq!(members(&store, "p"), vec!["b", "a", "d"]);
    assert_eq!(members(&store, "other"), Vec::<String>::new());
    assert_eq!(
        store.add_selected_to_preset("p", &list),
        Ok(vec![Step::SavePreset, Step::ApplyPresets])
    );
    assert_eq!(members(&store, "p"), vec!["b", "a", "d"]);
    assert_eq!(store.add_selected_to_preset("q", &list), Err(PresetError::NoSuchPreset));
}

#[test]
fn steps_come_in_their_order() {
    assert_eq!(after_enabling(), vec![Step::SaveConfig]);
    assert_eq!(after_disabling(), vec![Step::ApplyPresets, Step::SaveConfig]);
    assert_eq!(
        after_switching(),
        vec![Step::SavePreset, Step::ApplyPresets, Step::SaveConfig]
    );
    assert_eq!(after_adding(), vec![Step::SavePreset, Step::ApplyPresets]);
    assert_eq!(after_editing(), vec![Step::SavePreset]);
    assert_eq!(after_deleting(), vec![Step::DeletePreset]);
}
