use beammm::game::ModCfg;
use beammm_gui::metadata::{describe, read_advanced_open, read_document};
use beammm_gui::startup::{insert_sorted, load_mods, mod_types};

const DB: &str = r#"{
  "mods": {
    "car": {
      "active": true,
      "filename": "car.zip",
      "fullpath": "/mods/repo/car.zip",
      "modType": "vehicle",
      "modtype": "ignored",
      "stat": { "createtime": 1700000000 }
    },
    "track": {
      "active": false,
      "fullpath": "/mods/track.zip",
      "modtype": "map",
      "type": "ignored",
      "stat": { "createtime": "yesterday" }
    },
    "skin": { "active": true, "type": "vehicle", "stat": {} },
    "odd": { "active": false, "modType": 7, "type": "map", "filename": 12 },
    "blank": { "active": true, "type": "" },
    "Bare": { "active": true }
  }
}"#;

#[test]
fn describe_reads_every_field_that_is_there() {
    let db = read_document(DB);
    assert!(db.is_some());
    let car = describe(&db, "car".to_string());
    assert_eq!(car.mod_name, "car");
    assert!(!car.selected);
    assert_eq!(car.createtime, Some(1700000000));
    assert_eq!(car.filename.as_deref(), Some("car.zip"));
    assert_eq!(car.fullpath.as_deref(), Some("/mods/repo/car.zip"));
    assert_eq!(car.mod_type.as_deref(), Some("vehicle"));
}

#[test]
fn describe_falls_back_through_the_type_members() {
    let db = read_document(DB);
    let track = describe(&db, "track".to_string());
    assert_eq!(track.mod_type.as_deref(), Some("map"));
    assert_eq!(track.createtime, None);
    assert_eq!(track.filename, None);
    let skin = describe(&db, "skin".to_string());
    assert_eq!(skin.mod_type.as_deref(), Some("vehicle"));
    assert_eq!(skin.createtime, None);
}

#[test]
fn describe_takes_the_first_type_member_even_if_it_is_no_text() {
    let db = read_document(DB);
    let odd = describe(&db, "odd".to_string());
    assert_eq!(odd.mod_type, None);
    assert_eq!(odd.filename, None);
}

#[test]
fn describe_degrades_to_unknown() {
    let db = read_document(DB);
    let absent = describe(&db, "absent".to_string());
    assert_eq!(absent.mod_name, "absent");
    assert_eq!(absent.createtime, None);
    assert_eq!(absent.filename, None);
    assert_eq!(absent.fullpath, None);
    assert_eq!(absent.mod_type, None);
    let none = describe(&None, "car".to_string());
    assert_eq!(none.createtime, None);
    assert_eq!(none.mod_type, None);
    let flat = read_document("[1, 2, 3]");
    assert_eq!(describe(&flat, "car".to_string()).fullpath, None);
}

#[test]
fn read_document_gives_nothing_for_empty_or_broken_content() {
    assert!(read_document("").is_none());
    assert!(read_document("{ not json").is_none());
    assert!(read_document("{}").is_some());
    assert!(read_document("null").is_some());
}

#[test]
fn read_advanced_open_defaults_to_closed() {
    assert!(read_advanced_open("{\n  \"advanced_filters_open\": true\n}"));
    assert!(!read_advanced_open("{\"advanced_filters_open\": false}"));
    assert!(!read_advanced_open("{\"advanced_filters_open\": \"true\"}"));
    assert!(!read_advanced_open("{}"));
    assert!(!read_advanced_open(""));
    assert!(!read_advanced_open("garbage"));
}

#[test]
fn load_mods_lists_the_installed_mods_by_name() {
    let cfg = ModCfg::load(DB.as_bytes()).unwrap();
    let db = read_document(DB);
    let list = load_mods(&cfg, &db);
    let names: Vec<&str> =
        (0..list.len()).map(|i| list.get(i).unwrap().mod_name.as_str()).collect();
    assert_eq!(names, vec!["Bare", "blank", "car", "odd", "skin", "track"]);
    assert!((0..list.len()).all(|i| !list.get(i).unwrap().selected));
    assert_eq!(list.get(2).unwrap().createtime, Some(1700000000));
    assert_eq!(list.get(5).unwrap().mod_type.as_deref(), Some("map"));
    assert_eq!(list.first_unknown(&cfg), None);
}

#[test]
fn load_mods_without_a_document_keeps_the_names() {
    let cfg = ModCfg::load(DB.as_bytes()).unwrap();
    let list = load_mods(&cfg, &None);
    assert_eq!(list.len(), 6);
    assert_eq!(list.get(0).unwrap().mod_name, "Bare");
    assert_eq!(list.get(2).unwrap().fullpath, None);
    let empty = ModCfg::load("{\"mods\":{}}".as_bytes()).unwrap();
    assert_eq!(load_mods(&empty, &None).len(), 0);
}

#[test]
fn mod_types_are_sorted_distinct_and_not_empty() {
    let cfg = ModCfg::load(DB.as_bytes()).unwrap();
    let db = read_document(DB);
    let list = load_mods(&cfg, &db);
    assert_eq!(mod_types(&list), vec!["map", "vehicle"]);
    assert_eq!(mod_types(&load_mods(&cfg, &None)), Vec::<String>::new());
}

#[test]
fn insert_sorted_keeps_the_order_and_skips_what_is_there() {
    let mut out: Vec<String> = Vec::new();
    insert_sorted(&mut out, "m");
    insert_sorted(&mut out, "z");
    insert_sorted(&mut out, "a");
    insert_sorted(&mut out, "m");
    insert_sorted(&mut out, "n");
    insert_sorted(&mut out, "a");
    assert_eq!(out, vec!["a", "m", "n", "z"]);
}
