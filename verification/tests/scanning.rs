use singularity::analyzer::Disposition;
use singularity::analyzer::analyze;
use singularity::fstree::DirTree;
use singularity::fstree::ModInfo;
use singularity::scan::has_game_ext;
use singularity::scan::is_game_folder;
use singularity::scan::is_mod_root;
use singularity::scan::scan_tree;

fn dir(name: &str, dirs: Vec<DirTree>, files: Vec<&str>) -> DirTree {
    DirTree {
        name: name.to_string(),
        dirs,
        files: files.into_iter().map(|f| f.to_string()).collect(),
        sidecar: None,
    }
}

fn dir_with_sidecar(name: &str, dirs: Vec<DirTree>, files: Vec<&str>, info: ModInfo) -> DirTree {
    DirTree {
        name: name.to_string(),
        dirs,
        files: files.into_iter().map(|f| f.to_string()).collect(),
        sidecar: Some(info),
    }
}

#[test]
fn game_folder_names_match_case_insensitively() {
    assert!(is_game_folder("METADATA"));
    assert!(is_game_folder("metadata"));
    assert!(is_game_folder("TeXtUrEs"));
    assert!(is_game_folder("UI"));
    assert!(!is_game_folder("README"));
    assert!(!is_game_folder("METADATA2"));
}

#[test]
fn game_extensions_match_case_insensitively() {
    assert!(has_game_ext("model.MBIN"));
    assert!(has_game_ext("texture.dds"));
    assert!(has_game_ext("settings.mxml"));
    assert!(has_game_ext("old.ExMl"));
    assert!(!has_game_ext("readme.txt"));
    assert!(!has_game_ext("mbin"));
    assert!(!has_game_ext(".mbin"));
}

#[test]
fn mod_root_by_child_folder_or_file() {
    let by_folder = dir("m", vec![dir("MetaData", vec![], vec![])], vec![]);
    assert!(is_mod_root(&by_folder));
    let by_file = dir("m", vec![], vec!["a.mbin"]);
    assert!(is_mod_root(&by_file));
    let neither = dir("m", vec![dir("docs", vec![], vec![])], vec!["readme.txt"]);
    assert!(!is_mod_root(&neither));
}

#[test]
fn scan_finds_single_candidate_at_depth_two_and_stops_there() {
    // METADATA sits at depth 2; the scan reports exactly the depth-1
    // directory holding it and never descends into it.
    let root = dir(
        "root",
        vec![dir(
            "Wrapper",
            vec![dir(
                "METADATA",
                vec![dir("TEXTURES", vec![], vec![])],
                vec![],
            )],
            vec![],
        )],
        vec![],
    );
    assert_eq!(scan_tree(&root), vec!["Wrapper".to_string()]);
}

#[test]
fn scan_reports_deeper_candidates_by_relative_path() {
    let deep = dir("Inner", vec![dir("METADATA", vec![], vec![])], vec![]);
    let root = dir("root", vec![dir("Wrapper", vec![deep], vec![])], vec![]);
    assert_eq!(scan_tree(&root), vec!["Wrapper/Inner".to_string()]);
}

#[test]
fn scan_reports_dot_for_self_sufficient_root() {
    let root = dir(
        "ModA.zip_unpacked",
        vec![
            dir("METADATA", vec![], vec![]),
            dir("GAMEDATA", vec![], vec![]),
        ],
        vec![],
    );
    assert_eq!(scan_tree(&root), vec![".".to_string()]);
}

#[test]
fn scan_collects_sibling_branches_independently() {
    let root = dir(
        "Pack.zip_unpacked",
        vec![
            dir("OptionA", vec![dir("METADATA", vec![], vec![])], vec![]),
            dir("OptionB", vec![dir("METADATA", vec![], vec![])], vec![]),
        ],
        vec![],
    );
    assert_eq!(
        scan_tree(&root),
        vec!["OptionA".to_string(), "OptionB".to_string()]
    );
}

#[test]
fn scan_of_unrecognized_tree_is_empty() {
    let root = dir(
        "x",
        vec![dir("docs", vec![], vec!["readme.txt"])],
        vec!["license.txt"],
    );
    assert!(scan_tree(&root).is_empty());
}

#[test]
fn analyze_single_candidate_auto_installs_flattened() {
    let root = dir(
        "ModA.zip_unpacked",
        vec![
            dir("METADATA", vec![], vec![]),
            dir("GAMEDATA", vec![], vec![]),
        ],
        vec![],
    );
    match analyze(&root) {
        Disposition::AutoInstallFlatten { candidate } => assert_eq!(candidate, "."),
        other => panic!("expected AutoInstallFlatten, got {:?}", other),
    }
}

#[test]
fn analyze_two_candidates_needs_selection() {
    let root = dir(
        "Pack.zip_unpacked",
        vec![
            dir("OptionA", vec![dir("METADATA", vec![], vec![])], vec![]),
            dir("OptionB", vec![dir("METADATA", vec![], vec![])], vec![]),
        ],
        vec![],
    );
    match analyze(&root) {
        Disposition::NeedsSelection {
            candidates,
            flatten,
        } => {
            assert_eq!(
                candidates,
                vec!["OptionA".to_string(), "OptionB".to_string()]
            );
            assert!(flatten);
        }
        other => panic!("expected NeedsSelection, got {:?}", other),
    }
}

#[test]
fn analyze_falls_back_to_top_level_folders() {
    let root = dir(
        "x",
        vec![
            dir("FolderOne", vec![], vec![]),
            dir("FolderTwo", vec![], vec![]),
        ],
        vec![],
    );
    match analyze(&root) {
        Disposition::NeedsSelection {
            candidates,
            flatten,
        } => {
            assert_eq!(
                candidates,
                vec!["FolderOne".to_string(), "FolderTwo".to_string()]
            );
            assert!(!flatten);
        }
        other => panic!("expected NeedsSelection, got {:?}", other),
    }
}

#[test]
fn analyze_single_unrecognized_folder_installs_all() {
    let root = dir("x", vec![dir("OnlyOne", vec![], vec![])], vec![]);
    match analyze(&root) {
        Disposition::InstallAll => {}
        other => panic!("expected InstallAll, got {:?}", other),
    }
}

#[test]
fn find_dir_matches_case_insensitively_below_root() {
    let info = ModInfo {
        mod_id: Some("7".to_string()),
        file_id: None,
        version: None,
        install_source: None,
    };
    let root = dir(
        "r",
        vec![dir(
            "Outer",
            vec![dir_with_sidecar("TargetMod", vec![], vec![], info)],
            vec![],
        )],
        vec![],
    );
    let found = root.find_dir("targetmod").expect("should find the folder");
    assert_eq!(found.name, "TargetMod");
    assert!(root.find_dir("missing").is_none());
    // the root itself is never a hit
    assert!(root.find_dir("r").is_none());
}

#[test]
fn subtree_at_walks_relative_paths() {
    let root = dir(
        "r",
        vec![dir("A", vec![dir("B", vec![], vec!["f.mbin"])], vec![])],
        vec![],
    );
    assert_eq!(root.subtree_at("A/B").expect("A/B exists").name, "B");
    assert_eq!(root.subtree_at(".").expect("dot is the root").name, "r");
    assert_eq!(root.subtree_at("").expect("empty is the root").name, "r");
    assert!(root.subtree_at("A/C").is_none());
}
