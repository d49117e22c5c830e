use singularity::extract::ArchiveFormat;
use singularity::extract::archive_format_of;
use singularity::extract::zip_progress;
use singularity::fstree::ModInfo;
use singularity::hashing::archive_hash_hex;
use singularity::migrate::build_legacy_lookup;
use singularity::migrate::heal_sidecar;
use singularity::migrate::legacy_filename_for;
use singularity::profile::InstalledFolder;
use singularity::profile::Profile;
use singularity::profile::ProfileEntry;
use singularity::text::eq_ignore_case;
use singularity::text::extension_of;
use singularity::text::first_component;
use singularity::text::last_component;
use singularity::text::u32_to_dec;
use singularity::EngineError;

#[test]
fn archive_formats_dispatch_by_extension() {
    assert!(matches!(
        archive_format_of("Mod.zip"),
        Ok(ArchiveFormat::Zip)
    ));
    assert!(matches!(
        archive_format_of("Mod.RAR"),
        Ok(ArchiveFormat::Rar)
    ));
    assert!(matches!(
        archive_format_of("deep.dir.7Z"),
        Ok(ArchiveFormat::SevenZ)
    ));
}

#[test]
fn unknown_extension_is_unsupported() {
    let err = archive_format_of("Mod.tar.gz").expect_err("gz is not supported");
    match &err {
        EngineError::UnsupportedFormat(ext) => assert_eq!(ext, "gz"),
        other => panic!("expected UnsupportedFormat, got {:?}", other),
    }
    assert_eq!(err.message(), "unsupported archive format: gz");
    assert!(matches!(
        archive_format_of("no_extension"),
        Err(EngineError::UnsupportedFormat(_))
    ));
}

#[test]
fn zip_progress_is_whole_percent() {
    assert_eq!(zip_progress(0, 4), 0);
    assert_eq!(zip_progress(1, 4), 25);
    assert_eq!(zip_progress(3, 4), 75);
    assert_eq!(zip_progress(4, 4), 100);
    assert_eq!(zip_progress(1, 3), 33);
}

#[test]
fn sha256_hex_of_known_input() {
    // the standard test vector for "abc"
    let data = b"abc".to_vec();
    assert_eq!(
        archive_hash_hex(&data),
        "ba7816bf8f01cfea414140de5dae2223b00361a396177a9cb410ff61f20015ad"
    );
    let empty: Vec<u8> = Vec::new();
    assert_eq!(
        archive_hash_hex(&empty),
        "e3b0c44298fc1c149afbf4c8996fb92427ae41e4649b934ca495991b7852b855"
    );
}

#[test]
fn text_helpers() {
    assert!(eq_ignore_case("MetaData", "METADATA"));
    assert!(!eq_ignore_case("METADATA", "METADAT"));
    assert_eq!(extension_of("a.b.c"), Some("c".to_string()));
    assert_eq!(extension_of("noext"), None);
    assert_eq!(extension_of(".hidden"), None);
    assert_eq!(first_component("a/b/c"), "a");
    assert_eq!(first_component("solo"), "solo");
    assert_eq!(last_component("a/b/c"), "c");
    assert_eq!(last_component("solo"), "solo");
    assert_eq!(u32_to_dec(0), "0");
    assert_eq!(u32_to_dec(42), "42");
    assert_eq!(u32_to_dec(4294967295), "4294967295");
}

fn profile_with(filename: &str, mod_id: Option<&str>, file_id: Option<&str>) -> Profile {
    Profile {
        name: "p".to_string(),
        mods: vec![ProfileEntry {
            filename: filename.to_string(),
            hash: "h".to_string(),
            mod_id: mod_id.map(|s| s.to_string()),
            file_id: file_id.map(|s| s.to_string()),
            version: None,
            installed_options: None,
        }],
    }
}

#[test]
fn legacy_lookup_takes_the_last_matching_record() {
    let profiles = vec![
        profile_with("first.zip", Some("1"), Some("2")),
        profile_with("second.zip", Some("1"), Some("2")),
        profile_with("ignored.zip", Some("1"), None),
    ];
    let keys = build_legacy_lookup(&profiles);
    assert_eq!(keys.len(), 2);
    assert_eq!(
        legacy_filename_for(&keys, "1", "2"),
        Some("second.zip".to_string())
    );
    assert_eq!(legacy_filename_for(&keys, "1", "3"), None);
}

#[test]
fn healing_fills_missing_origin_from_profiles() {
    let profiles = vec![profile_with("origin.zip", Some("10"), Some("20"))];
    let keys = build_legacy_lookup(&profiles);
    let legacy = InstalledFolder {
        name: "OldMod".to_string(),
        info: Some(ModInfo {
            mod_id: Some("10".to_string()),
            file_id: Some("20".to_string()),
            version: Some("0.9".to_string()),
            install_source: None,
        }),
    };
    let healed = heal_sidecar(&legacy, &keys).expect("identifiers are known");
    assert_eq!(healed.install_source, Some("origin.zip".to_string()));
    assert_eq!(healed.mod_id, Some("10".to_string()));
    assert_eq!(healed.version, Some("0.9".to_string()));
}

#[test]
fn healing_leaves_tracked_and_unknown_folders_alone() {
    let profiles = vec![profile_with("origin.zip", Some("10"), Some("20"))];
    let keys = build_legacy_lookup(&profiles);
    let tracked_folder = InstalledFolder {
        name: "Fine".to_string(),
        info: Some(ModInfo {
            mod_id: Some("10".to_string()),
            file_id: Some("20".to_string()),
            version: None,
            install_source: Some("already.zip".to_string()),
        }),
    };
    assert!(heal_sidecar(&tracked_folder, &keys).is_none());
    let unknown = InstalledFolder {
        name: "Mystery".to_string(),
        info: Some(ModInfo {
            mod_id: Some("99".to_string()),
            file_id: Some("98".to_string()),
            version: None,
            install_source: None,
        }),
    };
    assert!(heal_sidecar(&unknown, &keys).is_none());
    let no_sidecar = InstalledFolder {
        name: "Bare".to_string(),
        info: None,
    };
    assert!(heal_sidecar(&no_sidecar, &keys).is_none());
}

#[test]
fn sidecar_update_overwrites_only_non_empty_fields() {
    let existing = ModInfo {
        mod_id: Some("old-id".to_string()),
        file_id: Some("old-file".to_string()),
        version: Some("1.0".to_string()),
        install_source: None,
    };
    let updated = ModInfo::updated(Some(existing), "new-id", "", "2.0", "Mod.zip");
    assert_eq!(updated.mod_id, Some("new-id".to_string()));
    assert_eq!(updated.file_id, Some("old-file".to_string()));
    assert_eq!(updated.version, Some("2.0".to_string()));
    assert_eq!(updated.install_source, Some("Mod.zip".to_string()));
    let fresh = ModInfo::updated(None, "", "", "", "Fresh.7z");
    assert_eq!(fresh.mod_id, None);
    assert_eq!(fresh.install_source, Some("Fresh.7z".to_string()));
}
