use modlist::document::{add_mod, append_entry, entry_table};
use modlist::manifest::{
    choose_entry, encode_file, encode_picks, game_slug_of, install_plan, needs_prompt, Mod,
    ModEntry, ModsFile,
};
use modlist::scrape::{ModFile, ModFiles};
use modlist::ModError;

fn file(id: u32, name: &str) -> ModFile {
    ModFile { id, name: name.to_string(), description: String::new() }
}

#[test]
fn install_single_entry() {
    let manifest = ModsFile {
        game: "skyrimspecialedition".to_string(),
        mods: vec![(
            "100_test".to_string(),
            Mod { main_file: "10_main-file".to_string(), optional_files: None, misc_files: None },
        )],
    };
    let plan = install_plan(&manifest).unwrap();
    assert_eq!(plan.len(), 1);
    assert_eq!((plan[0].game.as_str(), plan[0].mod_id, plan[0].file_id), ("skyrimspecialedition", 100, 10));
}

#[test]
fn install_order_main_optional_misc() {
    let manifest = ModsFile {
        game: "1704_skyrimspecialedition".to_string(),
        mods: vec![
            (
                "1_a".to_string(),
                Mod {
                    main_file: "11_m".to_string(),
                    optional_files: Some(vec!["12_o".to_string(), "13_o".to_string()]),
                    misc_files: Some(vec!["14_x".to_string()]),
                },
            ),
            ("2_b".to_string(), Mod { main_file: "21_m".to_string(), optional_files: Some(vec![]), misc_files: None }),
        ],
    };
    let plan = install_plan(&manifest).unwrap();
    let got: Vec<(u32, u32)> = plan.iter().map(|r| (r.mod_id, r.file_id)).collect();
    assert_eq!(got, vec![(1, 11), (1, 12), (1, 13), (1, 14), (2, 21)]);
    assert!(plan.iter().all(|r| r.game == "skyrimspecialedition"));
}

#[test]
fn install_malformed_identifier() {
    let manifest = ModsFile {
        game: "g".to_string(),
        mods: vec![("1_a".to_string(), Mod { main_file: "x_m".to_string(), optional_files: None, misc_files: None })],
    };
    assert_eq!(install_plan(&manifest).err(), Some(ModError::MalformedIdentifier));
    let empty = ModsFile { game: "g".to_string(), mods: vec![] };
    assert!(install_plan(&empty).unwrap().is_empty());
}

#[test]
fn game_slug_cases() {
    assert_eq!(game_slug_of("1704_skyrimspecialedition"), "skyrimspecialedition");
    assert_eq!(game_slug_of("skyrimspecialedition"), "skyrimspecialedition");
}

fn catalog() -> ModFiles {
    ModFiles {
        main_files: vec![file(1, "File A"), file(2, "File B")],
        optional_files: vec![],
        misc_files: vec![file(3, "File C")],
    }
}

#[test]
fn add_skips_empty_optional_tier() {
    let files = catalog();
    assert!(needs_prompt(&files.main_files));
    assert!(!needs_prompt(&files.optional_files));
    assert!(needs_prompt(&files.misc_files));
    let entry = choose_entry(&files, 0, &vec![], &vec![0]).unwrap();
    assert_eq!(entry.main_file, "1_file-a");
    assert!(entry.optional_files.is_empty());
    assert_eq!(entry.misc_files, vec!["3_file-c".to_string()]);

    let original = "game = \"skyrimspecialedition\"\n\n[mods]\n";
    let mut doc = original.parse::<toml_edit::Document>().unwrap();
    assert_eq!(append_entry(&mut doc, 200, "New Mod", &entry), Ok(()));
    let written = doc.to_string();
    let table = doc["mods"]["200_new-mod"].as_table().unwrap();
    assert_eq!(table["main_file"].as_str(), Some("1_file-a"));
    assert!(table.get("optional_files").is_none());
    let misc = table["misc_files"].as_array().unwrap();
    assert_eq!(misc.iter().map(|v| v.as_str().unwrap()).collect::<Vec<_>>(), vec!["3_file-c"]);
    assert!(written.contains("misc_files"));
    assert!(!written.contains("optional_files"));
}

#[test]
fn choose_out_of_range_cancels() {
    let files = catalog();
    assert_eq!(choose_entry(&files, 2, &vec![], &vec![]).err(), Some(ModError::SelectionCancelled));
    assert_eq!(choose_entry(&files, 0, &vec![0], &vec![]).err(), Some(ModError::SelectionCancelled));
    assert_eq!(encode_picks(&files.misc_files, &vec![1]), Err(ModError::SelectionCancelled));
    assert_eq!(encode_picks(&files.main_files, &vec![1, 0]), Ok(vec!["2_file-b".to_string(), "1_file-a".to_string()]));
    assert_eq!(encode_file(&file(7, "Hi There")), "7_hi-there");
}

#[test]
fn append_keeps_existing_entries() {
    let original = "# my mods\ngame = \"skyrimspecialedition\"\n\n[mods]\n\"100_test\" = { main_file = \"10_main-file\" }   # keep\n\"5_b\" = { main_file = \"6_x\", optional_files = [\"7_y\"] }\n";
    let mut doc = original.parse::<toml_edit::Document>().unwrap();
    let entry = ModEntry {
        main_file: "1_a".to_string(),
        optional_files: vec!["2_b".to_string()],
        misc_files: vec![],
    };
    assert_eq!(append_entry(&mut doc, 300, "Third", &entry), Ok(()));
    let keys: Vec<String> = doc["mods"].as_table().unwrap().iter().map(|(k, _)| k.to_string()).collect();
    assert_eq!(keys, vec!["100_test", "5_b", "300_third"]);
    let written = doc.to_string();
    assert!(written.starts_with(original));
    let table = doc["mods"]["300_third"].as_table().unwrap();
    assert!(table.get("misc_files").is_none());
    assert_eq!(table["optional_files"].as_array().unwrap().len(), 1);
}

#[test]
fn append_duplicate_and_malformed() {
    let original = "game = \"g\"\n[mods]\n\"100_test\" = { main_file = \"10_a\" }\n";
    let mut doc = original.parse::<toml_edit::Document>().unwrap();
    let entry = ModEntry { main_file: "1_a".to_string(), optional_files: vec![], misc_files: vec![] };
    assert_eq!(append_entry(&mut doc, 100, "Test", &entry), Err(ModError::DuplicateEntry));
    assert_eq!(doc.to_string(), original);
    let mut bad = "game = \"g\"\nmods = 3\n".parse::<toml_edit::Document>().unwrap();
    assert_eq!(append_entry(&mut bad, 1, "x", &entry), Err(ModError::ManifestMalformed));
    let mut none = "game = \"g\"\n".parse::<toml_edit::Document>().unwrap();
    assert_eq!(append_entry(&mut none, 1, "x", &entry), Err(ModError::ManifestMalformed));
}

#[test]
fn entry_table_fields() {
    let entry = ModEntry {
        main_file: "1_a".to_string(),
        optional_files: vec![],
        misc_files: vec![],
    };
    let t = entry_table(&entry);
    let keys: Vec<&str> = t.iter().map(|(k, _)| k).collect();
    assert_eq!(keys, vec!["main_file"]);
}

#[test]
fn add_mod_writes_chosen_entry() {
    let files = catalog();
    let original = "game = \"skyrimspecialedition\"\n\n[mods]\n\"100_test\" = { main_file = \"10_main-file\" }\n";
    let mut doc = original.parse::<toml_edit::Document>().unwrap();
    assert_eq!(add_mod(&mut doc, 200, "My Mod!", &files, 1, &vec![], &vec![0]), Ok(()));
    let table = doc["mods"]["200_my-mod"].as_table().unwrap();
    let keys: Vec<&str> = table.iter().map(|(k, _)| k).collect();
    assert_eq!(keys, vec!["main_file", "misc_files"]);
    assert_eq!(table["main_file"].as_str(), Some("2_file-b"));
    assert!(doc.to_string().starts_with(original));
    assert_eq!(doc["mods"]["100_test"]["main_file"].as_str(), Some("10_main-file"));

    let before = doc.to_string();
    assert_eq!(add_mod(&mut doc, 201, "x", &files, 5, &vec![], &vec![]), Err(ModError::SelectionCancelled));
    assert_eq!(add_mod(&mut doc, 201, "x", &files, 0, &vec![], &vec![3]), Err(ModError::SelectionCancelled));
    assert_eq!(doc.to_string(), before);
}

#[test]
fn append_after_empty_slot_goes_last() {
    let mut doc = "game = \"g\"\n[mods]\n\"1_a\" = { main_file = \"2_b\" }\n".parse::<toml_edit::Document>().unwrap();
    let _ = &mut doc["mods"]["300_third"];
    doc["mods"].as_table_mut().unwrap().insert("9_z", toml_edit::value("3_c"));
    let entry = ModEntry { main_file: "1_a".to_string(), optional_files: vec![], misc_files: vec![] };
    assert_eq!(append_entry(&mut doc, 300, "Third", &entry), Ok(()));
    let keys: Vec<String> = doc["mods"].as_table().unwrap().iter().map(|(k, _)| k.to_string()).collect();
    assert_eq!(keys, vec!["1_a", "9_z", "300_third"]);
}
