use singularity::fstree::DirTree;
use singularity::fstree::ModInfo;
use singularity::library::Library;
use singularity::library::entry_name_for;
use singularity::mxml::settings_template;
use singularity::profile::InstalledFolder;
use singularity::profile::apply_plan;
use singularity::profile::has_untracked;
use singularity::profile::profile_filenames;
use singularity::profile::save_profile;
use singularity::settings::ModRecord;
use singularity::settings::SettingsDoc;
use singularity::settings::render_list;
use singularity::EngineError;

fn strings(items: &[&str]) -> Vec<String> {
    items.iter().map(|s| s.to_string()).collect()
}

fn rec(name: &str, enabled: bool, priority: u32) -> ModRecord {
    ModRecord {
        name: name.to_string(),
        enabled,
        priority,
    }
}

fn doc(records: Vec<ModRecord>) -> SettingsDoc {
    SettingsDoc {
        disable_all: false,
        records,
    }
}

fn folder(name: &str, source: &str) -> InstalledFolder {
    InstalledFolder {
        name: name.to_string(),
        info: Some(ModInfo {
            mod_id: Some(format!("id-{}", name)),
            file_id: Some("9".to_string()),
            version: Some("2.1".to_string()),
            install_source: Some(source.to_string()),
        }),
    }
}

fn dir(name: &str, dirs: Vec<DirTree>) -> DirTree {
    DirTree {
        name: name.to_string(),
        dirs,
        files: vec![],
        sidecar: None,
    }
}

#[test]
fn reconcile_drops_orphans_and_renumbers() {
    // priority list A(0), B(1), C(2); B's folder is gone on disk
    let mut d = doc(vec![rec("A", true, 0), rec("B", true, 1), rec("C", false, 2)]);
    let removed = d.reconcile(&strings(&["A", "C"]));
    assert_eq!(removed, 1);
    assert_eq!(d.records.len(), 2);
    assert_eq!(d.records[0].name, "A");
    assert_eq!(d.records[0].priority, 0);
    assert_eq!(d.records[1].name, "C");
    assert_eq!(d.records[1].priority, 1);
    assert!(!d.records[1].enabled);
}

#[test]
fn reconcile_without_orphans_rewrites_nothing() {
    // no removal: even gappy priorities stay untouched
    let mut d = doc(vec![rec("A", true, 5), rec("B", true, 9)]);
    let removed = d.reconcile(&strings(&["a", "b"]));
    assert_eq!(removed, 0);
    assert_eq!(d.records[0].priority, 5);
    assert_eq!(d.records[1].priority, 9);
}

#[test]
fn reconcile_matches_names_case_insensitively() {
    let mut d = doc(vec![rec("CoolMod", true, 0), rec("Gone", true, 1)]);
    let removed = d.reconcile(&strings(&["COOLMOD"]));
    assert_eq!(removed, 1);
    assert_eq!(d.records.len(), 1);
    assert_eq!(d.records[0].name, "CoolMod");
}

#[test]
fn delete_entry_removes_and_renumbers() {
    let mut d = doc(vec![rec("A", true, 0), rec("B", true, 1), rec("C", true, 2)]);
    d.delete_entry("b");
    assert_eq!(d.records.len(), 2);
    assert_eq!(d.records[0].name, "A");
    assert_eq!(d.records[0].priority, 0);
    assert_eq!(d.records[1].name, "C");
    assert_eq!(d.records[1].priority, 1);
}

#[test]
fn reorder_follows_given_names_and_appends_the_rest() {
    // stored names are uppercase, as the game writes them
    let mut d = doc(vec![
        rec("ALPHA", true, 0),
        rec("BETA", true, 1),
        rec("GAMMA", true, 2),
    ]);
    d.reorder(&strings(&["gamma", "alpha"]));
    let names: Vec<&str> = d.records.iter().map(|r| r.name.as_str()).collect();
    assert_eq!(names, vec!["GAMMA", "ALPHA", "BETA"]);
    let prios: Vec<u32> = d.records.iter().map(|r| r.priority).collect();
    assert_eq!(prios, vec![0, 1, 2]);
}

#[test]
fn rename_entry_stores_uppercase() {
    let mut d = doc(vec![rec("OLDNAME", true, 0)]);
    d.rename_entry("OLDNAME", "newname").expect("entry exists");
    assert_eq!(d.records[0].name, "NEWNAME");
    assert_eq!(d.records[0].priority, 0);
}

#[test]
fn rename_missing_entry_fails_with_not_found() {
    let mut d = doc(vec![rec("SOMETHING", true, 0)]);
    let err = d
        .rename_entry("missing", "x")
        .expect_err("no such entry");
    match &err {
        EngineError::NotFound(s) => assert_eq!(s, "missing"),
        other => panic!("expected NotFound, got {:?}", other),
    }
    assert_eq!(err.message(), "not found: missing");
    assert_eq!(d.records[0].name, "SOMETHING");
}

#[test]
fn render_list_joins_sidecars_and_sorts_by_priority() {
    let d = doc(vec![rec("B", true, 7), rec("A", false, 2)]);
    let infos = vec![(
        "A".to_string(),
        ModInfo {
            mod_id: Some("77".to_string()),
            file_id: None,
            version: None,
            install_source: Some("a.zip".to_string()),
        },
    )];
    let rows = render_list(&d, &infos);
    assert_eq!(rows.len(), 2);
    assert_eq!(rows[0].folder_name, "A");
    assert_eq!(rows[0].priority, 2);
    assert_eq!(
        rows[0].local_info.as_ref().expect("A has a sidecar").mod_id,
        Some("77".to_string())
    );
    assert_eq!(rows[1].folder_name, "B");
    assert!(rows[1].local_info.is_none());
}

#[test]
fn library_extracts_once_per_archive() {
    let mut lib = Library::new();
    let (entry1, extracted1) = lib.ensure_extracted("ModA.zip");
    assert_eq!(entry1, "ModA.zip_unpacked");
    assert!(extracted1);
    let (entry2, extracted2) = lib.ensure_extracted("ModA.zip");
    assert_eq!(entry2, "ModA.zip_unpacked");
    assert!(!extracted2);
    assert_eq!(lib.entries.len(), 1);
    let (_, extracted3) = lib.ensure_extracted("Other.7z");
    assert!(extracted3);
}

#[test]
fn entry_names_are_deterministic() {
    assert_eq!(entry_name_for("Pack.zip"), "Pack.zip_unpacked");
    assert_eq!(entry_name_for(""), "_unpacked");
}

#[test]
fn save_groups_by_origin_archive_and_skips_untracked() {
    let installed = vec![
        folder("FooA", "Foo.zip"),
        InstalledFolder {
            name: "Loose".to_string(),
            info: None,
        },
        folder("BarMain", "Bar.7z"),
        folder("FooB", "Foo.zip"),
    ];
    let hashes = vec![("Foo.zip".to_string(), "abc123".to_string())];
    let p = save_profile("main", &installed, &hashes);
    assert_eq!(p.name, "main");
    assert_eq!(p.mods.len(), 2);
    assert_eq!(p.mods[0].filename, "Foo.zip");
    assert_eq!(p.mods[0].hash, "abc123");
    assert_eq!(p.mods[0].mod_id, Some("id-FooA".to_string()));
    assert_eq!(
        p.mods[0].installed_options,
        Some(strings(&["FooA", "FooB"]))
    );
    assert_eq!(p.mods[1].filename, "Bar.7z");
    assert_eq!(p.mods[1].hash, "MISSING_FILE");
    assert_eq!(p.mods[1].installed_options, Some(strings(&["BarMain"])));
    assert_eq!(profile_filenames(&p), strings(&["Foo.zip", "Bar.7z"]));
}

#[test]
fn save_then_apply_reproduces_installed_folders() {
    let installed = vec![
        folder("FooA", "Foo.zip"),
        folder("BarMain", "Bar.7z"),
        folder("FooB", "Foo.zip"),
    ];
    let p = save_profile("roundtrip", &installed, &Vec::new());
    // extracted trees still hold each recorded folder
    let trees = vec![
        (
            "Foo.zip".to_string(),
            dir("t1", vec![dir("FooA", vec![]), dir("FooB", vec![])]),
        ),
        ("Bar.7z".to_string(), dir("t2", vec![dir("BarMain", vec![])])),
    ];
    let result = apply_plan(&p, &trees);
    let mut before: Vec<String> = installed.iter().map(|f| f.name.clone()).collect();
    let mut after: Vec<String> = result.iter().map(|f| f.name.clone()).collect();
    before.sort();
    after.sort();
    assert_eq!(before, after);
    // every re-installed folder is tracked back to its archive
    for f in &result {
        let info = f.info.as_ref().expect("fresh sidecar written");
        assert!(info.install_source.is_some());
    }
}

#[test]
fn apply_skips_folders_the_tree_no_longer_holds() {
    let installed = vec![folder("FooA", "Foo.zip"), folder("FooB", "Foo.zip")];
    let p = save_profile("partial", &installed, &Vec::new());
    let trees = vec![("Foo.zip".to_string(), dir("t", vec![dir("FooB", vec![])]))];
    let result = apply_plan(&p, &trees);
    let names: Vec<String> = result.iter().map(|f| f.name.clone()).collect();
    assert_eq!(names, strings(&["FooB"]));
}

#[test]
fn apply_without_recorded_options_installs_top_level_folders() {
    let p = singularity::profile::Profile {
        name: "legacy".to_string(),
        mods: vec![singularity::profile::ProfileEntry {
            filename: "Old.rar".to_string(),
            hash: "h".to_string(),
            mod_id: Some("5".to_string()),
            file_id: None,
            version: None,
            installed_options: None,
        }],
    };
    let trees = vec![(
        "Old.rar".to_string(),
        dir("t", vec![dir("PartOne", vec![]), dir("PartTwo", vec![])]),
    )];
    let result = apply_plan(&p, &trees);
    let names: Vec<String> = result.iter().map(|f| f.name.clone()).collect();
    assert_eq!(names, strings(&["PartOne", "PartTwo"]));
    let info = result[0].info.as_ref().expect("sidecar written");
    assert_eq!(info.install_source, Some("Old.rar".to_string()));
    assert_eq!(info.mod_id, Some("5".to_string()));
}

#[test]
fn untracked_detection() {
    assert!(!has_untracked(&vec![folder("A", "a.zip")]));
    assert!(has_untracked(&vec![
        folder("A", "a.zip"),
        InstalledFolder {
            name: "B".to_string(),
            info: None,
        },
    ]));
    // an empty install source counts as untracked
    assert!(has_untracked(&vec![folder("C", "")]));
}

#[test]
fn clean_settings_template_text() {
    let text = settings_template(false);
    assert_eq!(
        text,
        "<?xml version=\"1.0\" encoding=\"utf-8\"?>\n<Data template=\"GcModSettings\">\n  <Property name=\"DisableAllMods\" value=\"false\" />\n  <Property name=\"Data\">\n  </Property>\n</Data>"
    );
    assert!(settings_template(true).contains("value=\"true\""));
}
