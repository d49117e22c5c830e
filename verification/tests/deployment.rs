use singularity::conflict::ResolveAction;
use singularity::conflict::resolve_conflict;
use singularity::deploy::InstalledModRef;
use singularity::deploy::classify_moves;
use singularity::deploy::plan_moves;
use singularity::fstree::DirTree;
use singularity::fstree::ModInfo;

fn dir(name: &str, dirs: Vec<DirTree>, files: Vec<&str>) -> DirTree {
    DirTree {
        name: name.to_string(),
        dirs,
        files: files.into_iter().map(|f| f.to_string()).collect(),
        sidecar: None,
    }
}

fn sidecar(mod_id: &str) -> ModInfo {
    ModInfo {
        mod_id: Some(mod_id.to_string()),
        file_id: Some("55".to_string()),
        version: Some("1.0".to_string()),
        install_source: Some("ModA.zip".to_string()),
    }
}

fn strings(items: &[&str]) -> Vec<String> {
    items.iter().map(|s| s.to_string()).collect()
}

#[test]
fn flatten_deploys_nested_mod_roots_under_leaf_names() {
    let root = dir(
        "Pack.zip_unpacked",
        vec![dir(
            "Wrapper",
            vec![dir("CoolMod", vec![dir("METADATA", vec![], vec![])], vec![])],
            vec![],
        )],
        vec![],
    );
    let ops = plan_moves(&root, &strings(&["Wrapper"]), true);
    assert_eq!(ops.len(), 1);
    assert_eq!(ops[0].source_rel, "Wrapper/CoolMod");
    assert_eq!(ops[0].dest_name, "CoolMod");
}

#[test]
fn flatten_of_whole_root_installs_under_entry_name() {
    // an archive that is itself a mod root deploys as <archive>_unpacked
    let root = dir(
        "ModA.zip_unpacked",
        vec![
            dir("METADATA", vec![], vec![]),
            dir("GAMEDATA", vec![], vec![]),
        ],
        vec![],
    );
    let ops = plan_moves(&root, &strings(&["."]), true);
    assert_eq!(ops.len(), 1);
    assert_eq!(ops[0].source_rel, ".");
    assert_eq!(ops[0].dest_name, "ModA.zip_unpacked");
}

#[test]
fn flatten_without_recognized_structure_falls_back_to_selection() {
    let root = dir("x", vec![dir("JustStuff", vec![], vec![])], vec![]);
    let ops = plan_moves(&root, &strings(&["JustStuff"]), true);
    assert_eq!(ops.len(), 1);
    assert_eq!(ops[0].source_rel, "JustStuff");
    assert_eq!(ops[0].dest_name, "JustStuff");
}

#[test]
fn preserve_structure_moves_top_level_component() {
    let root = dir(
        "x",
        vec![dir("Parent", vec![dir("Child", vec![], vec![])], vec![])],
        vec![],
    );
    let ops = plan_moves(&root, &strings(&["Parent/Child"]), false);
    assert_eq!(ops.len(), 1);
    assert_eq!(ops[0].source_rel, "Parent");
    assert_eq!(ops[0].dest_name, "Parent");
}

#[test]
fn empty_selection_takes_every_top_level_folder() {
    let root = dir(
        "x",
        vec![dir("A", vec![], vec![]), dir("B", vec![], vec![])],
        vec![],
    );
    let ops = plan_moves(&root, &Vec::new(), false);
    let dests: Vec<String> = ops.iter().map(|o| o.dest_name.clone()).collect();
    assert_eq!(dests, strings(&["A", "B"]));
}

#[test]
fn duplicate_destinations_deduplicate_case_insensitively() {
    let root = dir(
        "x",
        vec![
            dir("Parent", vec![dir("One", vec![], vec![])], vec![]),
            dir("PARENT", vec![], vec![]),
        ],
        vec![],
    );
    // both selections resolve to the same top-level destination name
    let ops = plan_moves(&root, &strings(&["Parent/One", "PARENT"]), false);
    assert_eq!(ops.len(), 1);
    assert_eq!(ops[0].dest_name, "Parent");
}

#[test]
fn vanished_selection_is_skipped() {
    let root = dir("x", vec![dir("Here", vec![], vec![])], vec![]);
    let ops = plan_moves(&root, &strings(&["Gone"]), true);
    assert!(ops.is_empty());
}

#[test]
fn matching_mod_id_is_conflict_never_direct_install() {
    // the staged source carries modId 123, which Foo already has installed
    let staged = DirTree {
        name: "NewMod".to_string(),
        dirs: vec![dir("METADATA", vec![], vec![])],
        files: vec![],
        sidecar: Some(sidecar("123")),
    };
    let root = dir("x", vec![staged], vec![]);
    let ops = plan_moves(&root, &strings(&["NewMod"]), false);
    let installed = vec![InstalledModRef {
        mod_id: "123".to_string(),
        folder_name: "Foo".to_string(),
    }];
    let analysis = classify_moves(&root, &ops, &installed, &strings(&[]));
    assert!(analysis.successes.is_empty());
    assert_eq!(analysis.conflicts.len(), 1);
    assert_eq!(analysis.conflicts[0].new_mod_name, "NewMod");
    assert_eq!(analysis.conflicts[0].old_mod_folder_name, "Foo");
}

#[test]
fn existing_folder_name_is_conflict() {
    let root = dir("x", vec![dir("Taken", vec![], vec![])], vec![]);
    let ops = plan_moves(&root, &strings(&["Taken"]), false);
    let analysis = classify_moves(&root, &ops, &Vec::new(), &strings(&["TAKEN"]));
    assert!(analysis.successes.is_empty());
    assert_eq!(analysis.conflicts.len(), 1);
    assert_eq!(analysis.conflicts[0].new_mod_name, "Taken");
    assert_eq!(analysis.conflicts[0].old_mod_folder_name, "Taken");
}

#[test]
fn clean_deploys_are_direct_successes() {
    let root = dir(
        "x",
        vec![dir("Fresh", vec![], vec![]), dir("Fresh2", vec![], vec![])],
        vec![],
    );
    let ops = plan_moves(&root, &Vec::new(), false);
    let analysis = classify_moves(&root, &ops, &Vec::new(), &strings(&["Other"]));
    assert_eq!(analysis.successes, strings(&["Fresh", "Fresh2"]));
    assert!(analysis.conflicts.is_empty());
}

#[test]
fn resolve_replace_deletes_old_and_installs_new() {
    // Foo held modId 123; replacing it installs the new content under the
    // new name
    let mut installed = strings(&["Foo", "Bar"]);
    let action = resolve_conflict(&mut installed, "NewMod", "Foo", true);
    match action {
        ResolveAction::Promote { delete_old } => assert!(delete_old),
        other => panic!("expected Promote, got {:?}", other),
    }
    assert_eq!(installed, strings(&["Bar", "NewMod"]));
}

#[test]
fn resolve_discard_changes_nothing() {
    let mut installed = strings(&["Foo"]);
    let action = resolve_conflict(&mut installed, "NewMod", "Foo", false);
    match action {
        ResolveAction::Discard => {}
        other => panic!("expected Discard, got {:?}", other),
    }
    assert_eq!(installed, strings(&["Foo"]));
}

#[test]
fn resolve_replace_with_old_already_gone() {
    let mut installed = strings(&["Bar"]);
    let action = resolve_conflict(&mut installed, "NewMod", "Foo", true);
    match action {
        ResolveAction::Promote { delete_old } => assert!(!delete_old),
        other => panic!("expected Promote, got {:?}", other),
    }
    assert_eq!(installed, strings(&["Bar", "NewMod"]));
}
