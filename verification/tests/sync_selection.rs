use athenaeum_core::api::sync::layout::{
    assign_rel_path, common_ancestor, dedup_in_dir, frame_set_name, resolve_batch_name,
    source_rel_dir, split_stem_ext, unique_rel_path, BatchNaming, FrameSetLookup, RelPathLayout,
    UsedNames,
};
use athenaeum_core::api::sync::manifest::PayloadKind;
use athenaeum_core::api::sync::rows::PackageLayout;
use athenaeum_core::api::sync::selection::{
    build_and_enqueue_selection, build_selection_package, enqueue_sync_selection, requested_ids,
    selection_entries, split_rel_path, CatalogRow, EntryFacts, EntryFrame, FileStat, PackageOrigin,
    PayloadEntry, SelectionInput,
};
use std::collections::HashMap;

#[test]
fn common_ancestor_finds_deepest_shared_dir() {
    let under_one = vec![
        "/data/M31/lights/a.fits".to_string(),
        "/data/M31/flats/b.fits".to_string(),
    ];
    assert_eq!(common_ancestor(&under_one).as_deref(), Some("/data/M31"));

    let same = vec!["/data/M31/a.fits".to_string(), "/data/M31/b.fits".to_string()];
    assert_eq!(common_ancestor(&same).as_deref(), Some("/data/M31"));

    let disjoint = vec!["/vol_a/x/a.fits".to_string(), "/vol_b/y/b.fits".to_string()];
    assert_eq!(common_ancestor(&disjoint), None);
}

#[test]
fn an_ancestor_needs_files_with_a_directory() {
    assert_eq!(common_ancestor(&vec![]), None);
    assert_eq!(common_ancestor(&vec!["a.fits".to_string()]), None);
    assert_eq!(common_ancestor(&vec!["/a.fits".to_string()]), None);
    assert_eq!(
        common_ancestor(&vec!["/d/e/a.fits".to_string()]).as_deref(),
        Some("/d/e")
    );
    // Whole names are compared, not letters.
    assert_eq!(
        common_ancestor(&vec!["/d/ab/x".to_string(), "/d/ac/x".to_string()]).as_deref(),
        Some("/d")
    );
}

#[test]
fn dedup_in_dir_suffixes_before_extension() {
    let mut used = UsedNames::new();
    assert_eq!(dedup_in_dir("d", "a.fits", &mut used), "a.fits");
    assert_eq!(dedup_in_dir("d", "a.fits", &mut used), "a_2.fits");
    assert_eq!(dedup_in_dir("d", "a.fits", &mut used), "a_3.fits");
    assert_eq!(dedup_in_dir("d", "readme", &mut used), "readme");
    assert_eq!(dedup_in_dir("d", "readme", &mut used), "readme_2");
    assert_eq!(dedup_in_dir("other", "a.fits", &mut used), "a.fits");
}

#[test]
fn a_name_that_a_number_would_give_is_passed_over() {
    let mut used = UsedNames::new();
    assert_eq!(dedup_in_dir("d", "a_2.fits", &mut used), "a_2.fits");
    assert_eq!(dedup_in_dir("d", "a.fits", &mut used), "a.fits");
    assert_eq!(dedup_in_dir("d", "a.fits", &mut used), "a_3.fits");
    assert_eq!(split_stem_ext("a.b.fits"), ("a.b".to_string(), Some("fits".to_string())));
    assert_eq!(split_stem_ext("noext"), ("noext".to_string(), None));
}

#[test]
fn source_rel_dir_is_forward_slash_relative() {
    let anc = "/data/M31";
    assert_eq!(
        source_rel_dir("/data/M31/lights/sub/a.fits", anc).as_deref(),
        Some("lights/sub")
    );
    assert_eq!(source_rel_dir("/data/M31/a.fits", anc).as_deref(), Some(""));
    assert_eq!(source_rel_dir("/elsewhere/a.fits", anc), None);
}

#[test]
fn assign_rel_path_source_relative_and_flat_collision() {
    let layout = RelPathLayout::SourceRelative(Some("/data/M31".to_string()));
    let mut used = UsedNames::new();
    assert_eq!(
        assign_rel_path(&layout, 1, "/data/M31/lights/a.fits", "a.fits", &mut used),
        "lights/a.fits"
    );
    assert_eq!(assign_rel_path(&layout, 2, "/data/M31/b.fits", "b.fits", &mut used), "b.fits");

    let flat = RelPathLayout::SourceRelative(None);
    let mut used2 = UsedNames::new();
    assert_eq!(
        assign_rel_path(&flat, 1, "/vol_a/x/dup.fits", "dup.fits", &mut used2),
        "dup.fits"
    );
    assert_eq!(
        assign_rel_path(&flat, 2, "/vol_b/y/dup.fits", "dup.fits", &mut used2),
        "dup_2.fits"
    );
}

#[test]
fn assign_rel_path_wbpp_subdir_collision() {
    let mut map = HashMap::new();
    map.insert(1i64, "camera_asi/lights".to_string());
    map.insert(2i64, "camera_asi/lights".to_string());
    let layout = RelPathLayout::Wbpp(map);
    let mut used = UsedNames::new();
    assert_eq!(
        assign_rel_path(&layout, 1, "/a/x.fits", "x.fits", &mut used),
        "camera_asi/lights/x.fits"
    );
    assert_eq!(
        assign_rel_path(&layout, 2, "/b/x.fits", "x.fits", &mut used),
        "camera_asi/lights/x_2.fits"
    );
    assert_eq!(assign_rel_path(&layout, 3, "/c/y.fits", " ", &mut used), "frame_3.fits");
}

fn naming(user: Option<&str>, set: bool) -> BatchNaming {
    BatchNaming {
        user: user.map(str::to_string),
        frame_set: if set {
            Some(FrameSetLookup { id: 7, row: Some(Some("Andromeda Core".into())) })
        } else {
            None
        },
        now: "2026-07-20 21:15".into(),
    }
}

#[test]
fn resolve_batch_name_all_rules() {
    assert_eq!(
        resolve_batch_name(&naming(Some("  My Send  "), true), &None, 3),
        "  My Send  "
    );
    assert_eq!(resolve_batch_name(&naming(Some("   "), true), &None, 3), "Andromeda Core");
    assert_eq!(resolve_batch_name(&naming(None, true), &None, 3), "Andromeda Core");
    assert_eq!(
        resolve_batch_name(&naming(None, false), &Some("/data/M31_lights".into()), 4),
        "M31_lights"
    );
    let loose = resolve_batch_name(&naming(None, false), &None, 5);
    assert!(loose.starts_with("5 files — "), "got {loose}");
    assert_eq!(loose, "5 files — 2026-07-20 21:15");
}

#[test]
fn a_frame_set_without_a_name_gets_one() {
    let lookup = |row| FrameSetLookup { id: 7, row };
    assert_eq!(frame_set_name(&lookup(Some(None))).as_deref(), Some("Frame Set 7"));
    assert_eq!(frame_set_name(&lookup(Some(Some("  ".into())))).as_deref(), Some("Frame Set 7"));
    assert_eq!(frame_set_name(&lookup(None)), None);
}

#[test]
fn a_flat_name_is_told_apart_by_its_frame() {
    let mut used: Vec<String> = vec![];
    let tags = vec!["t1".to_string(), "t2".to_string()];
    assert_eq!(unique_rel_path("a.fits", 5, &mut used, &tags).as_deref(), Some("a.fits"));
    assert_eq!(unique_rel_path("a.fits", 5, &mut used, &tags).as_deref(), Some("5_a.fits"));
    assert_eq!(unique_rel_path("a.fits", 5, &mut used, &tags).as_deref(), Some("t1_a.fits"));
    assert_eq!(unique_rel_path("a.fits", 5, &mut used, &tags).as_deref(), Some("t2_a.fits"));
    assert_eq!(unique_rel_path("a.fits", 5, &mut used, &tags), None);
    assert_eq!(unique_rel_path("", 5, &mut used, &tags).as_deref(), Some("frame_5.fits"));
    assert_eq!(used.len(), 5);
}

fn catalog_row(id: i64, path: &str, filename: &str) -> CatalogRow {
    CatalogRow {
        frame_id: Some(id),
        path: path.into(),
        filename: filename.into(),
        is_master: false,
        type_is_master: false,
    }
}

fn facts(file_id: i64, path: &str) -> EntryFacts {
    EntryFacts {
        frame: Some(EntryFrame {
            file_id,
            path: path.into(),
            uuid: Some(format!("uuid-{file_id}")),
        }),
        exists: true,
        stat: Ok(FileStat { byte_size: 100 + file_id as u64, mtime_ms: 5 }),
        hash: Ok(format!("hash-{file_id}")),
        disk_matches: true,
        frame_meta: Ok(format!("{{\"object\":\"M42\",\"id\":{file_id}}}")),
        analysis: None,
        fresh_uuid: format!("fresh-{file_id}"),
    }
}

fn origin() -> PackageOrigin {
    PackageOrigin {
        manifest_version: 1,
        origin_device: "origin-dev".into(),
        app_version: "0.1.0".into(),
        packages_dir: "/data/sync/packages".into(),
        package_uuid: "fresh-package".into(),
    }
}

/// A selection makes one package of exactly its frames, each with what the
/// catalog knows of it, and with its analysis where it has one.
#[test]
fn enqueue_selection_builds_exact_package() {
    let rows = vec![
        catalog_row(1, "/d/light-0001.fits", "light-0001.fits"),
        catalog_row(2, "/d/light-0002.fits", "light-0002.fits"),
    ];
    let input = selection_entries(&requested_ids(&vec![1, 2]), &rows, None);
    let mut analyzed = facts(1, "/d/light-0001.fits");
    analyzed.analysis = Some("{\"stars\":123}".into());
    let built = build_selection_package(
        &origin(),
        input,
        &vec![analyzed, facts(2, "/d/light-0002.fits")],
        &naming(None, false),
    );
    assert_eq!(built.eligible.len(), 2);
    assert!(built.ineligible.is_empty());
    assert_eq!(built.total, 2);
    assert_eq!(built.records.len(), 2, "exactly the selection");
    for r in &built.records {
        let meta: serde_json::Value = serde_json::from_str(&r.record.frame_meta).unwrap();
        assert_eq!(meta["object"], "M42");
    }
    let with: Vec<&str> = built
        .records
        .iter()
        .filter(|r| r.record.analysis.is_some())
        .map(|r| r.record.frame_uuid.as_str())
        .collect();
    assert_eq!(with, vec!["uuid-1"], "analysis included only when present");
    assert_eq!(built.display_name.as_deref(), Some("d"));
    assert_eq!(built.files[1].rel_path, "light-0002.fits");
    assert_eq!(built.files[1].byte_size, 102);

    let (order, result) = build_and_enqueue_selection(built);
    let order = order.expect("a package was written");
    assert_eq!(order.dir, "/data/sync/packages/fresh-package");
    assert_eq!(order.files.len(), 2);
    assert_eq!(order.layout, PackageLayout::Batch);
    assert_eq!(
        (result.enqueued_count, result.eligible_count, result.total_count),
        (2, 2, 2)
    );
}

#[test]
fn ineligible_files_reported_not_dropped() {
    let rows = vec![
        catalog_row(1, "/d/a.fits", "a.fits"),
        catalog_row(2, "/d/b.fits", "b.fits"),
        catalog_row(3, "/d/c.fits", "c.fits"),
        catalog_row(4, "/d/d.fits", "d.fits"),
        catalog_row(5, "/d/e.fits", "e.fits"),
        catalog_row(6, "/d/f.fits", "f.fits"),
    ];
    let asked = requested_ids(&vec![1, 2, 99, 3, 1, 4, 5, 6]);
    assert_eq!(asked, vec![1, 2, 99, 3, 4, 5, 6]);
    let input = selection_entries(&asked, &rows, None);
    assert_eq!(input.total, 7);
    let mut gone = facts(2, "/d/b.fits");
    gone.exists = false;
    let mut unknown = facts(3, "/d/c.fits");
    unknown.frame = None;
    let mut no_stat = facts(4, "/d/d.fits");
    no_stat.stat = Err("denied".into());
    let mut no_hash = facts(5, "/d/e.fits");
    no_hash.hash = Err("broken".into());
    let mut no_meta = facts(6, "/d/f.fits");
    no_meta.frame_meta = Err("bad".into());
    let built = build_selection_package(
        &origin(),
        input,
        &vec![facts(1, "/d/a.fits"), gone, unknown, no_stat, no_hash, no_meta],
        &naming(Some("Batch"), false),
    );
    assert_eq!(built.eligible, vec![1]);
    let told: Vec<(i64, &str)> =
        built.ineligible.iter().map(|f| (f.frame_id, f.reason.as_str())).collect();
    assert_eq!(
        told,
        vec![
            (99, "frame not found in catalog"),
            (2, "file missing on disk"),
            (3, "frame not found in catalog"),
            (4, "cannot stat file: denied"),
            (5, "cannot read file: broken"),
            (6, "serialize frame_meta: bad"),
        ]
    );
    // The file was read before its frame could not be written down.
    let banked: Vec<i64> = built.bank.iter().map(|b| b.file_id).collect();
    assert_eq!(banked, vec![1, 6]);
}

#[test]
fn nothing_to_send_makes_no_package() {
    let input = SelectionInput { entries: vec![], ineligible: vec![], ancestor: None, total: 0 };
    let built = build_selection_package(&origin(), input, &vec![], &naming(Some("x"), false));
    assert!(built.records.is_empty());
    assert!(built.pkg_dir.is_none());
    assert!(built.display_name.is_none());
    assert!(built.files.is_empty());
}

#[test]
fn enqueue_with_empty_selection_returns_zero_result_without_starting_engine() {
    let done = enqueue_sync_selection(&vec![]).unwrap();
    assert_eq!((done.enqueued_count, done.eligible_count, done.total_count), (0, 0, 0));
    assert!(done.ineligible.is_empty());
    assert!(enqueue_sync_selection(&vec![1]).is_none());
}

#[test]
fn build_selection_package_honours_payload_kinds() {
    let entry = |frame_id: i64, path: &str, rel: &str, kind: PayloadKind| PayloadEntry {
        frame_id,
        source_path: path.into(),
        rel_path: rel.into(),
        kind,
    };
    let input = SelectionInput {
        entries: vec![
            entry(10, "/d/L_10.fits", "camera_X/lights/L_10.fits", PayloadKind::RawFrame),
            entry(
                20,
                "/d/master_dark.fits",
                "camera_X/DARKS_5/master_dark.fits",
                PayloadKind::Master,
            ),
            entry(10, "/d/c_L_10.fits", "camera_X/lights/c_L_10.fits", PayloadKind::CalibratedLight),
        ],
        ineligible: vec![],
        ancestor: None,
        total: 3,
    };
    let mut light = facts(1, "/d/L_10.fits");
    light.frame.as_mut().unwrap().uuid = Some("uuid-10".into());
    light.analysis = Some("{}".into());
    let mut artifact = facts(1, "/d/L_10.fits");
    artifact.frame.as_mut().unwrap().uuid = Some("uuid-10".into());
    artifact.frame_meta = Ok("{\"uuid\":\"uuid-10\"}".into());
    artifact.analysis = Some("{}".into());
    let built = build_selection_package(
        &origin(),
        input,
        &vec![light, facts(2, "/d/master_dark.fits"), artifact],
        &naming(Some("Test batch"), false),
    );
    assert_eq!(built.eligible.len(), 3);
    assert!(built.ineligible.is_empty());
    let by_rel = |rel: &str| {
        &built.records.iter().find(|r| r.record.rel_path == rel).expect("record").record
    };
    assert_eq!(by_rel("camera_X/lights/L_10.fits").payload_kind, PayloadKind::RawFrame);
    assert_eq!(by_rel("camera_X/lights/L_10.fits").frame_uuid, "uuid-10");
    assert_eq!(by_rel("camera_X/DARKS_5/master_dark.fits").payload_kind, PayloadKind::Master);
    let cal = by_rel("camera_X/lights/c_L_10.fits");
    assert_eq!(cal.payload_kind, PayloadKind::CalibratedLight);
    assert_ne!(cal.frame_uuid, "uuid-10", "artifact carries its own identity");
    let meta: serde_json::Value = serde_json::from_str(&cal.frame_meta).unwrap();
    assert_eq!(meta["uuid"], "uuid-10", "frame_meta is the SOURCE light's snapshot");
    assert!(cal.analysis.is_none());
    let linked: Vec<i64> = built.source_links.iter().map(|l| l.file_id).collect();
    assert_eq!(linked, vec![1], "masters and artifacts are never linked");
    assert_eq!(built.bank.len(), 2, "hashes are kept for catalog files only");
    assert_eq!(built.display_name.as_deref(), Some("Test batch"));
}

#[test]
fn a_stale_row_keeps_its_hash() {
    let rows = vec![catalog_row(1, "/d/a.fits", "a.fits"), catalog_row(2, "/d/b.fits", "b.fits")];
    let input = selection_entries(&vec![1, 2], &rows, None);
    let mut stale = facts(2, "/d/b.fits");
    stale.disk_matches = false;
    let built = build_selection_package(
        &origin(),
        input,
        &vec![facts(1, "/d/a.fits"), stale],
        &naming(None, false),
    );
    assert_eq!(built.bank.len(), 1);
    assert_eq!(built.bank[0].hash, "hash-1");
    assert_eq!(built.source_links.len(), 2);
    assert_eq!(built.source_links[1].byte_size, 102);
    assert_eq!(built.source_links[1].mtime_ms, 5);
}

#[test]
fn selection_entries_labels_masters_by_the_catalog_signal() {
    let mut header = catalog_row(20, "/d/master_bias.fits", "master_bias.fits");
    header.type_is_master = true;
    let mut by_name = catalog_row(30, "/d/master_dark_300s.fits", "master_dark_300s.fits");
    by_name.is_master = true;
    let rows = vec![catalog_row(10, "/d/L_10.fits", "L_10.fits"), header, by_name];
    let input = selection_entries(&vec![10, 20, 30], &rows, None);
    assert_eq!(input.total, 3);
    assert!(input.ineligible.is_empty());
    let kinds: Vec<(i64, PayloadKind)> =
        input.entries.iter().map(|e| (e.frame_id, e.kind)).collect();
    assert_eq!(
        kinds,
        vec![
            (10, PayloadKind::RawFrame),
            (20, PayloadKind::Master),
            (30, PayloadKind::Master)
        ]
    );
    let built = build_selection_package(
        &origin(),
        input,
        &vec![
            facts(1, "/d/L_10.fits"),
            facts(2, "/d/master_bias.fits"),
            facts(3, "/d/master_dark_300s.fits"),
        ],
        &naming(None, false),
    );
    let linked: Vec<i64> = built.source_links.iter().map(|l| l.file_id).collect();
    assert_eq!(linked, vec![1], "only the raw light is reclaimable");
}

#[test]
fn placements_win_over_the_disk() {
    let mut map = HashMap::new();
    map.insert(1i64, "lights".to_string());
    let rows = vec![catalog_row(1, "/d/x/a.fits", "a.fits"), catalog_row(2, "/d/y/a.fits", "a.fits")];
    let input = selection_entries(&vec![1, 2], &rows, Some(map));
    assert_eq!(input.entries[0].rel_path, "lights/a.fits");
    assert_eq!(input.entries[1].rel_path, "a.fits");
    let input = selection_entries(&vec![1, 2], &rows, None);
    assert_eq!(input.entries[0].rel_path, "x/a.fits");
    assert_eq!(input.entries[1].rel_path, "y/a.fits");
    assert_eq!(input.ancestor.as_deref(), Some("/d"));
}

#[test]
fn no_file_of_a_package_overwrites_another() {
    let entry = |rel: &str| PayloadEntry {
        frame_id: 1,
        source_path: "/d/a.fits".into(),
        rel_path: rel.into(),
        kind: PayloadKind::RawFrame,
    };
    let input = SelectionInput {
        entries: vec![entry("l/a.fits"), entry("l/a.fits"), entry("a.fits"), entry("l/a_2.fits")],
        ineligible: vec![],
        ancestor: None,
        total: 4,
    };
    let fs: Vec<EntryFacts> = (0..4).map(|_| facts(1, "/d/a.fits")).collect();
    let built = build_selection_package(&origin(), input, &fs, &naming(None, false));
    let rels: Vec<&str> = built.records.iter().map(|r| r.record.rel_path.as_str()).collect();
    assert_eq!(rels, vec!["l/a.fits", "l/a_2.fits", "a.fits", "l/a_2_2.fits"]);
    assert_eq!(split_rel_path("l/m/a.fits"), ("l/m".to_string(), "a.fits".to_string()));
    assert_eq!(split_rel_path("a.fits"), (String::new(), "a.fits".to_string()));
}

#[test]
fn names_handed_out_in_turn_never_repeat() {
    let mut used = UsedNames::new();
    let asks = ["a.fits", "a_2.fits", "a.fits", "a_2.fits", "a.fits", "a_3.fits"];
    let given: Vec<String> = asks.iter().map(|f| dedup_in_dir("d", f, &mut used)).collect();
    assert_eq!(
        given,
        vec!["a.fits", "a_2.fits", "a_3.fits", "a_2_2.fits", "a_4.fits", "a_3_2.fits"]
    );
    assert!(!used.contains("e", "a.fits"));
    assert_eq!(dedup_in_dir("e", "a.fits", &mut used), "a.fits");
    assert!(used.contains("d", "a_4.fits"));
}

#[test]
fn entries_stand_apart_even_where_their_files_are_missing() {
    let rows = vec![
        catalog_row(1, "/v/x/dup.fits", "dup.fits"),
        catalog_row(2, "/w/y/dup.fits", "dup.fits"),
        catalog_row(3, "/u/dup_2.fits", "dup_2.fits"),
        catalog_row(4, "/u/nameless", " "),
    ];
    let mut map = HashMap::new();
    map.insert(4, "l".to_string());
    let input = selection_entries(&vec![1, 2, 3, 4], &rows, Some(map));
    let rels: Vec<&str> = input.entries.iter().map(|e| e.rel_path.as_str()).collect();
    assert_eq!(rels, vec!["dup.fits", "dup_2.fits", "dup_2_2.fits", "l/frame_4.fits"]);
}

#[test]
fn build_selection_banks_strong_hash_into_current_rows() {
    let rows = vec![
        catalog_row(1, "/d/current.fits", "current.fits"),
        catalog_row(2, "/d/stale.fits", "stale.fits"),
    ];
    let input = selection_entries(&vec![1, 2], &rows, None);
    let mut stale = facts(2, "/d/stale.fits");
    stale.disk_matches = false;
    let built = build_selection_package(
        &origin(),
        input,
        &vec![facts(1, "/d/current.fits"), stale],
        &naming(None, false),
    );
    assert_eq!(built.eligible.len(), 2, "both files exist on disk, both are packaged");
    assert_eq!(built.bank.len(), 1, "a row the disk does not vouch for is never written");
    assert_eq!(built.bank[0].file_id, 1);
    assert_eq!(
        built.bank[0].hash, built.records[0].record.xxh3,
        "current row banks the manifest hash"
    );
}

#[test]
fn build_selection_writes_sync_sources_linkage() {
    let rows = vec![
        catalog_row(1, "/d/light-0001.fits", "light-0001.fits"),
        catalog_row(2, "/d/light-0002.fits", "light-0002.fits"),
    ];
    let input = selection_entries(&vec![1, 2], &rows, None);
    let mut missing = facts(2, "/d/light-0002.fits");
    missing.exists = false;
    let built = build_selection_package(
        &origin(),
        input,
        &vec![facts(1, "/d/light-0001.fits"), missing],
        &naming(None, false),
    );
    assert!(built.pkg_dir.is_some(), "a package was written");
    assert_eq!(
        built.source_links.len(),
        1,
        "one linkage row for the single eligible frame (f2 was missing)"
    );
    let link = &built.source_links[0];
    assert_eq!(link.path, "/d/light-0001.fits", "linkage points at the source path");
    assert_eq!(link.file_id, 1, "the catalog file_id is recorded for a catalog-consistent delete");
    assert_eq!(link.byte_size, 101, "recorded size matches disk");
}

#[test]
fn source_relative_enqueue_writes_files_and_name() {
    let rows = vec![
        catalog_row(1, "/x/M31_data/lights/light1.fits", "light1.fits"),
        catalog_row(2, "/x/M31_data/flats/flat1.fits", "flat1.fits"),
    ];
    let input = selection_entries(&vec![1, 2], &rows, None);
    let built = build_selection_package(
        &origin(),
        input,
        &vec![
            facts(1, "/x/M31_data/lights/light1.fits"),
            facts(2, "/x/M31_data/flats/flat1.fits"),
        ],
        &naming(None, false),
    );
    let order = build_and_enqueue_selection(built).0.expect("an outbound row exists");
    assert_eq!(
        order.display_name.as_deref(),
        Some("M31_data"),
        "auto name = ancestor basename"
    );
    assert_eq!(order.files.len(), 2, "one row per manifest record");
    let rel: Vec<&str> = order.files.iter().map(|f| f.rel_path.as_str()).collect();
    assert!(rel.contains(&"lights/light1.fits"), "subdir preserved: {rel:?}");
    assert!(rel.contains(&"flats/flat1.fits"), "subdir preserved: {rel:?}");
    assert!(order.files.iter().all(|f| f.byte_size > 0), "byte_size carried from the manifest");
}

#[test]
fn user_batch_name_is_persisted_verbatim() {
    let rows = vec![catalog_row(1, "/d/a.fits", "a.fits")];
    let input = selection_entries(&vec![1], &rows, None);
    let built = build_selection_package(
        &origin(),
        input,
        &vec![facts(1, "/d/a.fits")],
        &naming(Some("Trip to M42"), false),
    );
    let order = build_and_enqueue_selection(built).0.unwrap();
    assert_eq!(order.display_name.as_deref(), Some("Trip to M42"));
}
