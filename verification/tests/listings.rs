use singularity::fstree::DirTree;
use singularity::listing::list_entries;
use singularity::profile::order_profile_names;

fn strings(items: &[&str]) -> Vec<String> {
    items.iter().map(|s| s.to_string()).collect()
}

#[test]
fn listing_puts_directories_first_then_sorts_case_insensitively() {
    let t = DirTree {
        name: "root".to_string(),
        dirs: vec![
            DirTree {
                name: "zeta".to_string(),
                dirs: vec![],
                files: vec![],
                sidecar: None,
            },
            DirTree {
                name: "Alpha".to_string(),
                dirs: vec![],
                files: vec![],
                sidecar: None,
            },
        ],
        files: vec!["readme.TXT".to_string(), "Notes.txt".to_string()],
        sidecar: None,
    };
    let nodes = list_entries(&t);
    let listed: Vec<(String, bool)> = nodes.into_iter().map(|n| (n.name, n.is_dir)).collect();
    assert_eq!(
        listed,
        vec![
            ("Alpha".to_string(), true),
            ("zeta".to_string(), true),
            ("Notes.txt".to_string(), false),
            ("readme.TXT".to_string(), false),
        ]
    );
}

#[test]
fn listing_of_empty_directory_is_empty() {
    let t = DirTree {
        name: "empty".to_string(),
        dirs: vec![],
        files: vec![],
        sidecar: None,
    };
    assert!(list_entries(&t).is_empty());
}

#[test]
fn profile_menu_order_puts_default_first_and_sorts_the_rest() {
    let ordered = order_profile_names(strings(&["zulu", "Default", "alpha", "Beta"]));
    assert_eq!(ordered, strings(&["Default", "Beta", "alpha", "zulu"]));
}

#[test]
fn profile_menu_order_with_no_saved_profiles() {
    let ordered = order_profile_names(Vec::new());
    assert_eq!(ordered, strings(&["Default"]));
}
