use athenaeum_core::archive::commit::{commit_plan, free_path, zip_can_be_named};
use athenaeum_core::archive::db::insert_operation;
use athenaeum_core::archive::models::{
    ArchiveCompression, ArchiveDisposition, ArchiveOperationFile, ConflictResolution, Dispositions,
    FrameRole, SharedCalibrationWarning,
};
use athenaeum_core::archive::path_layout::zip_filename;
use athenaeum_core::archive::plan_error::PlanError;
use athenaeum_core::archive::planner::{
    admit_calibration_set, build_calibration_set_plan, build_plan, ensure_unique_in_zip,
    plan_candidates, role_zip_filename, CalibrationSetRequest, CatalogFile, DiskFacts,
    FoundSource, FrameSetFiles, FrameSetMetadata, FrameSetRequest, MemberFile,
};
use athenaeum_core::host_paths::Host;

/// Without a known room on disk no margin is taken.
#[test]
fn sizes_up_to_the_limit_are_planned_where_the_room_is_not_known() {
    let (mut q, disk) = fixture(darks(ArchiveDisposition::Skip));
    q.files.lights[0].size = i64::MAX;
    q.files.lights[1].size = i64::MAX;
    let plan = build_plan(&q, &disk, vec![]).unwrap();
    assert_eq!(plan.total_size_bytes, u64::MAX - 1);
}

#[test]
fn a_plan_on_windows_has_native_zip_paths() {
    let (mut q, mut disk) = fixture(darks(ArchiveDisposition::Skip));
    q.host = Host::Windows;
    q.archive_root_path = r"D:\arch".into();
    q.scan_roots = vec![r"C:\Scan".into()];
    q.files.lights.truncate(1);
    q.files.lights[0].path = r"c:\scan\M31\L_001.fits".into();
    disk.found[0].path = q.files.lights[0].path.clone();
    let plan = build_plan(&q, &disk, vec![]).unwrap();
    assert_eq!(plan.files[0].target_path_in_zip, "Scan/M31/L_001.fits");
    let zip = r"D:\arch\M31_2025-10-12_2025-10-12_RedCat_51_ASI2600MM_Lights.zip";
    assert_eq!(plan.zips[0].zip_path, zip);
    let taken = vec![zip.to_string()];
    assert!(zip_can_be_named(&plan.zips[0], &taken, Host::Windows));
    let done = commit_plan(&plan, ConflictResolution::AddSuffix, &taken, Host::Windows).unwrap();
    assert_eq!(done.zips[0].zip_path, zip.replace(".zip", " (2).zip"));
    assert_eq!(
        done.zips[0].zip_filename,
        "M31_2025-10-12_2025-10-12_RedCat_51_ASI2600MM_Lights (2).zip"
    );
}

fn op_file(source_path: &str, zip: &str, in_zip: &str) -> ArchiveOperationFile {
    ArchiveOperationFile {
        id: 0,
        operation_id: 0,
        file_id: None,
        source_path: source_path.to_string(),
        target_zip_path: zip.to_string(),
        target_path_in_zip: in_zip.to_string(),
        expected_hash: String::new(),
        disposition: "move".to_string(),
        frame_role: "light".to_string(),
        file_size_bytes: 0,
    }
}

/// Two files with one path in the zip clash even in different zips, for they
/// are staged side by side.
#[test]
fn unique_in_zip_guard_ignores_the_zip_a_file_belongs_to() {
    let files = vec![
        op_file("/a/Root/x.fits", "/arch/Lights.zip", "Root/x.fits"),
        op_file("/b/Root/x.fits", "/arch/Darks.zip", "Root/x.fits"),
    ];
    let err = ensure_unique_in_zip(&files).unwrap_err().to_string();
    assert!(err.contains("/a/Root/x.fits"), "missing first source: {err}");
    assert!(err.contains("/b/Root/x.fits"), "missing second source: {err}");

    let ok = vec![
        op_file("/a/Root/x.fits", "/arch/Lights.zip", "Root/x.fits"),
        op_file("/a/Root/y.fits", "/arch/Darks.zip", "Root/y.fits"),
    ];
    assert!(ensure_unique_in_zip(&ok).is_ok());
}

/// A frame set with two lights, and one dark that both use.
fn fixture(dispositions: Dispositions) -> (FrameSetRequest, DiskFacts) {
    let l1 = "/scan/M31/2025-10-12/L_001.fits".to_string();
    let l2 = "/scan/M31/2025-10-12/L_002.fits".to_string();
    let d1 = "/scan/Cal/MasterDark.fits".to_string();
    let request = FrameSetRequest {
        frames_set_id: 1,
        is_archived: true,
        archived_at: None,
        metadata: FrameSetMetadata {
            object: Some("M31".into()),
            start_date: Some("2025-10-12".into()),
            end_date: Some("2025-10-12".into()),
            telescope: Some("RedCat 51".into()),
            camera: Some("ASI2600MM".into()),
        },
        files: FrameSetFiles {
            lights: vec![
                CatalogFile { file_id: 1000, path: l1.clone(), size: 15 },
                CatalogFile { file_id: 1001, path: l2.clone(), size: 15 },
            ],
            flats: vec![],
            darks: vec![CatalogFile { file_id: 2000, path: d1.clone(), size: 12 }],
            bias: vec![],
            darkflats: vec![],
        },
        scan_roots: vec!["/scan".to_string()],
        archive_root_path: "/arch".to_string(),
        dispositions,
        compression: ArchiveCompression::Store,
        host: Host::Linux,
    };
    let disk = DiskFacts {
        found: vec![
            FoundSource { path: l1, hash: Ok("hash-1".into()) },
            FoundSource { path: l2, hash: Ok("hash-2".into()) },
            FoundSource { path: d1, hash: Ok("hash-d".into()) },
        ],
        existing: vec![],
        available: None,
    };
    (request, disk)
}

fn darks(d: ArchiveDisposition) -> Dispositions {
    Dispositions { flats: None, darks: Some(d), bias: None, darkflats: None }
}

#[test]
fn build_plan_lights_only() {
    let (q, disk) = fixture(darks(ArchiveDisposition::Skip));
    let plan = build_plan(&q, &disk, vec![]).unwrap();
    assert_eq!(plan.files.len(), 2, "two light files");
    assert!(plan.files.iter().all(|f| f.frame_role == "light"));
    assert!(plan.files.iter().all(|f| f.disposition == "move"));
    assert_eq!(plan.zips.len(), 1, "one Lights.zip");
    assert!(plan.zips[0].zip_filename.contains("Lights.zip"));
    assert_eq!(plan.files[0].target_path_in_zip, "scan/M31/2025-10-12/L_001.fits");
    assert_eq!(plan.files[0].expected_hash, "hash-1");
    assert_eq!(plan.total_size_bytes, 30);
    assert_eq!(plan.zips[0].file_count, 2);
    assert_eq!(plan.zips[0].total_size_bytes, 30);
    assert_eq!(
        plan.zips[0].zip_path,
        "/arch/M31_2025-10-12_2025-10-12_RedCat_51_ASI2600MM_Lights.zip"
    );
}

#[test]
fn build_plan_with_dark_copy() {
    let (q, disk) = fixture(darks(ArchiveDisposition::Copy));
    let plan = build_plan(&q, &disk, vec![]).unwrap();
    assert_eq!(plan.files.len(), 3, "two lights + one dark");
    let dark = plan.files.iter().find(|f| f.frame_role == "dark").unwrap();
    assert_eq!(dark.disposition, "copy");
    assert_eq!(plan.zips.len(), 2, "Lights.zip + Darks.zip");
}

#[test]
fn build_plan_skip_excludes_calibration() {
    let (q, disk) = fixture(darks(ArchiveDisposition::Skip));
    let plan = build_plan(&q, &disk, vec![]).unwrap();
    assert!(plan.files.iter().all(|f| f.frame_role != "dark"));
}

#[test]
fn build_plan_detects_existing_zip_conflict() {
    let (q, mut disk) = fixture(darks(ArchiveDisposition::Skip));
    let predicted = zip_filename(
        Some("M31"),
        Some("2025-10-12"),
        Some("2025-10-12"),
        Some("RedCat 51"),
        Some("ASI2600MM"),
        FrameRole::Light,
    );
    assert_eq!(predicted, role_zip_filename(&q.metadata, FrameRole::Light));
    disk.existing.push(format!("/arch/{predicted}"));
    let plan = build_plan(&q, &disk, vec![]).unwrap();
    assert_eq!(plan.conflicts.len(), 1);
    assert!(plan.conflicts[0].zip_filename.ends_with("_Lights.zip"));
}

#[test]
fn build_plan_carries_the_warnings() {
    let (q, disk) = fixture(darks(ArchiveDisposition::Move));
    let warning = SharedCalibrationWarning {
        frame_role: FrameRole::Dark,
        calibration_set_id: 500,
        other_frames_set_ids: vec![2, 3],
    };
    let plan = build_plan(&q, &disk, vec![warning]).unwrap();
    assert_eq!(plan.shared_calibrations.len(), 1);
    assert_eq!(plan.shared_calibrations[0].calibration_set_id, 500);
}

#[test]
fn each_file_is_planned_once_in_its_best_role() {
    let (mut q, disk) = fixture(Dispositions {
        flats: Some(ArchiveDisposition::Move),
        darks: Some(ArchiveDisposition::Move),
        bias: None,
        darkflats: None,
    });
    q.files.flats.push(CatalogFile {
        file_id: 2000,
        path: "/scan/Cal/MasterDark.fits".into(),
        size: 12,
    });
    let candidates = plan_candidates(&q.files, &q.dispositions);
    let shared: Vec<FrameRole> =
        candidates.iter().filter(|c| c.file_id == 2000).map(|c| c.role).collect();
    assert_eq!(shared, vec![FrameRole::Flat]);
    assert!(build_plan(&q, &disk, vec![]).is_ok());
}

#[test]
fn a_plan_fails_for_the_first_thing_wrong() {
    let d = darks(ArchiveDisposition::Skip);

    let (mut q, disk) = fixture(d);
    q.is_archived = false;
    assert!(matches!(build_plan(&q, &disk, vec![]), Err(PlanError::NotInArchiveSection)));

    let (mut q, disk) = fixture(d);
    q.archived_at = Some("2026-01-01".into());
    assert!(matches!(build_plan(&q, &disk, vec![]), Err(PlanError::AlreadyZipped)));

    let (q, mut disk) = fixture(d);
    disk.found.remove(1);
    match build_plan(&q, &disk, vec![]) {
        Err(PlanError::SourceMissing(p)) => assert_eq!(p, "/scan/M31/2025-10-12/L_002.fits"),
        other => panic!("{other:?}"),
    }

    let (q, mut disk) = fixture(d);
    disk.found[0].hash = Err("no read".into());
    match build_plan(&q, &disk, vec![]) {
        Err(PlanError::HashFailed(p, why)) => {
            assert_eq!(p, "/scan/M31/2025-10-12/L_001.fits");
            assert_eq!(why, "no read");
        }
        other => panic!("{other:?}"),
    }

    let (q, mut disk) = fixture(d);
    disk.available = Some(1);
    assert!(matches!(build_plan(&q, &disk, vec![]), Err(PlanError::NoSpace(_, 1))));

    // Two files outside of the roots, alike in name and directory: one place for two.
    let (mut q, mut disk) = fixture(d);
    q.files.lights[0].path = "/p/x/same.fits".into();
    q.files.lights[1].path = "/q/x/same.fits".into();
    disk.found.push(FoundSource { path: "/p/x/same.fits".into(), hash: Ok("a".into()) });
    disk.found.push(FoundSource { path: "/q/x/same.fits".into(), hash: Ok("b".into()) });
    match build_plan(&q, &disk, vec![]) {
        Err(PlanError::SamePlace(_, a, b)) => {
            assert_eq!(a, "/p/x/same.fits");
            assert_eq!(b, "/q/x/same.fits");
        }
        other => panic!("{other:?}"),
    }
}

#[test]
fn commit_plan_writes_rows_and_can_apply_suffix() {
    let (q, disk) = fixture(darks(ArchiveDisposition::Copy));
    let plan = build_plan(&q, &disk, vec![]).unwrap();
    let done = commit_plan(&plan, ConflictResolution::Overwrite, &vec![], Host::Linux).unwrap();
    let files = done.files.len();
    let op = insert_operation(7, done.operation, "2026-07-01T00:00:00Z");
    assert_eq!(op.frames_set_id, Some(1));
    assert!(op.calibration_set_id.is_none());
    assert_eq!(files, 3);

    // With a number behind the name where the zip is there already.
    let taken = vec![plan.zips[0].zip_path.clone()];
    let done = commit_plan(&plan, ConflictResolution::AddSuffix, &taken, Host::Linux).unwrap();
    let expected = plan.zips[0].zip_path.replace("_Lights.zip", "_Lights (2).zip");
    assert_eq!(done.zips[0].zip_path, expected);
    assert_eq!(done.zips[1].zip_path, plan.zips[1].zip_path);
    let light = done.files.iter().find(|f| f.frame_role == "light").unwrap();
    assert_eq!(light.target_zip_path, expected);
}

#[test]
fn a_free_path_is_found_behind_those_that_are_taken() {
    let taken: Vec<String> =
        vec!["/a/z.zip".into(), "/a/z (2).zip".into(), "/a/z (3).zip".into()];
    assert_eq!(free_path("/a/z.zip", &taken, Host::Linux), "/a/z (4).zip");
    assert_eq!(free_path("/a/y.zip", &taken, Host::Linux), "/a/y.zip");
}

fn calibration(imagetyp: &str, superseded: Option<i64>) -> CalibrationSetRequest {
    CalibrationSetRequest {
        calibration_set_id: 42,
        imagetyp: imagetyp.into(),
        instrume: Some("Test Cam".into()),
        gain: Some(100),
        exptime: Some("300".into()),
        date_start: Some("2026-06-28T20:00:00Z".into()),
        date_end: Some("2026-06-28T21:00:00Z".into()),
        superseded_by_set_id: superseded,
        members: vec![MemberFile {
            file_id: 1,
            path: "/lib/d1.fits".into(),
            size: 4,
            archived_in_operation: None,
        }],
        scan_roots: vec!["/lib".into()],
        archive_root_path: "/lib".into(),
        compression: ArchiveCompression::Store,
        host: Host::Linux,
    }
}

fn calibration_disk() -> DiskFacts {
    DiskFacts {
        found: vec![FoundSource { path: "/lib/d1.fits".into(), hash: Ok("h".into()) }],
        existing: vec![],
        available: None,
    }
}

#[test]
fn calibration_plan_requires_superseded_set() {
    let r = build_calibration_set_plan(&calibration("Dark", None), &calibration_disk());
    assert!(r.is_err(), "non-superseded set must be rejected");
    assert!(matches!(r, Err(PlanError::NotSuperseded(42))));
}

#[test]
fn calibration_plan_layout() {
    let plan =
        build_calibration_set_plan(&calibration("Dark", Some(999)), &calibration_disk()).unwrap();
    assert_eq!(plan.calibration_set_id, Some(42));
    assert_eq!(plan.files.len(), 1);
    assert_eq!(plan.zips.len(), 1);
    let zp = &plan.zips[0].zip_path;
    assert!(zp.contains("Calibration_Archive"), "{zp}");
    assert!(zp.contains("2026-06-28"), "date dir: {zp}");
    assert!(plan.files.iter().all(|f| f.disposition == "move"));
    assert_eq!(
        zp,
        "/lib/Calibration_Archive/Test_Cam/2026-06-28/Test_Cam_Dark_g100_300s_2026-06-28_2026-06-28.zip"
    );
}

#[test]
fn calibration_plan_rejects_already_archived_member() {
    let mut q = calibration("Bias", Some(999));
    q.members[0].archived_in_operation = Some(777);
    let err = build_calibration_set_plan(&q, &calibration_disk()).unwrap_err();
    assert!(err.to_string().contains("already has archived member"), "{}", err.to_string());
}

#[test]
fn calibration_plan_rejects_other_types_and_empty_sets() {
    let q = calibration("Light", Some(999));
    assert!(matches!(
        build_calibration_set_plan(&q, &calibration_disk()),
        Err(PlanError::UnsupportedType(42, _))
    ));
    let mut q = calibration("Dark", Some(999));
    q.members.clear();
    assert!(matches!(
        build_calibration_set_plan(&q, &calibration_disk()),
        Err(PlanError::NoMembers(42))
    ));
}

#[test]
fn a_refused_calibration_set_may_be_of_any_size() {
    let mut q = calibration("Dark", None);
    q.members = (0..3)
        .map(|i| MemberFile {
            file_id: i,
            path: format!("/lib/d{i}.fits"),
            size: i64::MAX,
            archived_in_operation: None,
        })
        .collect();
    assert!(matches!(admit_calibration_set(&q), Err(PlanError::NotSuperseded(42))));
    assert!(matches!(
        build_calibration_set_plan(&q, &calibration_disk()),
        Err(PlanError::NotSuperseded(42))
    ));
    assert_eq!(
        admit_calibration_set(&calibration("Flat", Some(999))).unwrap(),
        FrameRole::Flat
    );
}

#[test]
fn a_plan_without_a_subject_is_not_committed() {
    let (q, disk) = fixture(darks(ArchiveDisposition::Skip));
    let mut plan = build_plan(&q, &disk, vec![]).unwrap();
    plan.frames_set_id = 0;
    assert!(matches!(
        commit_plan(&plan, ConflictResolution::Overwrite, &vec![], Host::Linux),
        Err(PlanError::SubjectUnclear(0, None))
    ));
}
