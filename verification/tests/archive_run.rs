use athenaeum_core::archive::commit::NewOperation;
use athenaeum_core::archive::db::{
    insert_operation, insert_operation_file, insert_step, list_unfinished_operations,
    mark_file_archived, mark_frame_set_archived, unmark_file_archived, unmark_frame_set_archived,
    update_operation_status, update_step, FileMarks,
};
use athenaeum_core::archive::executor::{
    archived_marks, check_cancel, copy_verdict, delete_verdict, existing_done_steps,
    finalize_progress, group_by_zip, group_entries, holds_id, pending_in_group,
    source_needs_removal, stop_status, verify_copy_verdict, verify_zip_verdict, was_cancelled, zip_verdict,
    Removal, RunError, StepVerdict,
};
use athenaeum_core::archive::models::{
    ArchiveCompression, ArchiveOperationFile, ArchiveOperationStep, ArchiveOperationSummary,
    ArchiveStage, ArchiveStatus, ConflictResolution, StepStatus,
};
use athenaeum_core::archive::commit::commit_plan;
use athenaeum_core::archive::path_layout::{dest_under_root, original_parent_for_restore};
use athenaeum_core::archive::planner::{
    build_calibration_set_plan, CalibrationSetRequest, DiskFacts, FoundSource, MemberFile,
};
use athenaeum_core::archive::run::{run_operation, ArchiveRun, Outcome, RunPhase, RunTurn, Task, Work};
use athenaeum_core::host_paths::Host;

const NOW: &str = "2026-07-01T00:00:00Z";

fn operation(root: &str, flats: Option<&str>, darks: Option<&str>) -> NewOperation {
    NewOperation {
        frames_set_id: Some(1),
        calibration_set_id: None,
        archive_root_path: root.into(),
        flats_disposition: flats.map(str::to_string),
        darks_disposition: darks.map(str::to_string),
        bias_disposition: None,
        darkflats_disposition: None,
        compression: "store".into(),
    }
}

fn file(id: i64, source: &str, zip: &str, in_zip: &str, disposition: &str) -> ArchiveOperationFile {
    ArchiveOperationFile {
        id,
        operation_id: 1,
        file_id: Some(id * 10),
        source_path: source.into(),
        target_zip_path: zip.into(),
        target_path_in_zip: in_zip.into(),
        expected_hash: "deadbeefdeadbeef".into(),
        disposition: disposition.into(),
        frame_role: "light".into(),
        file_size_bytes: 1024,
    }
}

#[test]
fn insert_and_get_operation() {
    let op = insert_operation(5, operation("/tmp/arch", Some("move"), Some("copy")), NOW);
    assert_eq!(op.frames_set_id, Some(1));
    assert_eq!(op.archive_root_path, "/tmp/arch");
    assert_eq!(op.status, "planning");
    assert_eq!(op.flats_disposition.as_deref(), Some("move"));
    assert_eq!(op.darks_disposition.as_deref(), Some("copy"));
    assert!(op.bias_disposition.is_none());
}

#[test]
fn update_operation_status_sets_finished_at_on_terminal() {
    let mut op = insert_operation(5, operation("/tmp", None, None), NOW);
    update_operation_status(&mut op, ArchiveStatus::Copying, None, NOW);
    assert!(op.finished_at.is_none());
    update_operation_status(&mut op, ArchiveStatus::Completed, None, NOW);
    assert!(op.finished_at.is_some());
    assert_eq!(op.status, "completed");
}

#[test]
fn insert_files_and_steps() {
    let planned = file(0, "/src/a.fits", "/tmp/A.zip", "Lights/a.fits", "move");
    let f = insert_operation_file(3, 5, &planned);
    assert_eq!(f.source_path, "/src/a.fits");
    assert_eq!((f.id, f.operation_id), (3, 5));

    let mut step = insert_step(9, 5, Some(f.id), ArchiveStage::Copy);
    update_step(&mut step, StepStatus::Done, None, None, NOW);
    assert_eq!(step.status, "done");
    assert!(step.completed_at.is_some());
}

#[test]
fn list_unfinished_excludes_terminal_states() {
    let summary = |id: i64, status: &str| ArchiveOperationSummary {
        id,
        frames_set_id: Some(1),
        frame_set_name: None,
        status: status.into(),
        started_at: NOW.into(),
        finished_at: None,
        error_message: None,
    };
    let all = vec![summary(1, "completed"), summary(2, "copying"), summary(3, "failed")];
    let unfinished = list_unfinished_operations(&all);
    assert_eq!(unfinished.len(), 1);
    assert_eq!(unfinished[0].id, 2);
}

#[test]
fn mark_unmark_frame_set() {
    let marks = mark_frame_set_archived(7, NOW);
    assert!(marks.archived_at.is_some());
    assert_eq!(marks.archive_operation_id, Some(7));
    assert!(marks.is_archived);

    let marks = unmark_frame_set_archived();
    assert!(marks.archived_at.is_none());
    assert!(marks.archive_operation_id.is_none());
    assert!(!marks.is_archived);
}

#[test]
fn mark_unmark_file() {
    let mut marks = FileMarks {
        path: "/a/x.fits".into(),
        archived_in_operation: None,
        archive_zip_path: None,
        archive_path_in_zip: None,
    };
    mark_file_archived(&mut marks, 7, "/arch/L.zip", "Root/x.fits");
    assert_eq!(marks.archived_in_operation, Some(7));
    assert_eq!(marks.archive_zip_path.as_deref(), Some("/arch/L.zip"));
    assert_eq!(marks.path, "/a/x.fits");
    unmark_file_archived(&mut marks, Some("/b/x.fits"));
    assert_eq!(marks.path, "/b/x.fits");
    assert!(marks.archived_in_operation.is_none());
    assert!(marks.archive_zip_path.is_none());
    assert!(marks.archive_path_in_zip.is_none());
}

#[test]
fn cancel_is_recognised() {
    assert!(check_cancel(false).is_ok());
    let err = check_cancel(true).unwrap_err();
    assert!(was_cancelled(&err));
    let inner = RunError { message: format!("while copying: {}", err.message) };
    assert!(was_cancelled(&inner));
    assert!(!was_cancelled(&RunError { message: "disk full".into() }));
}

fn step(id: i64, file: i64, stage: &str, status: &str) -> ArchiveOperationStep {
    ArchiveOperationStep {
        id,
        operation_id: 1,
        operation_file_id: Some(file),
        stage: stage.into(),
        status: status.into(),
        actual_hash: None,
        error_message: None,
        started_at: None,
        completed_at: None,
    }
}

#[test]
fn steps_on_record_are_found() {
    let steps = vec![
        step(1, 10, "copy", "done"),
        step(2, 11, "copy", "failed"),
        step(3, 12, "zip_add", "done"),
        step(4, 10, "copy", "done"),
    ];
    let done = existing_done_steps(&steps, ArchiveStage::Copy);
    assert_eq!(done, vec![10]);
    assert!(holds_id(&done, 10));
    assert!(!holds_id(&done, 11), "a failed copy is made again");
    assert!(!holds_id(&done, 12));
    assert_eq!(existing_done_steps(&steps, ArchiveStage::ZipAdd), vec![12]);
}

/// The copies that are done are not made again.
#[test]
fn resume_skips_already_done_copies() {
    let record = |steps: &mut Vec<ArchiveOperationStep>, w: &Work, v: &StepVerdict| {
        for file in &w.step_files {
            let mut s = insert_step(steps.len() as i64 + 1, 9, *file, w.stage);
            update_step(&mut s, v.status, v.actual_hash.as_deref(), None, NOW);
            steps.push(s);
        }
    };
    let copies = |steps: &Vec<ArchiveOperationStep>| {
        steps.iter().filter(|s| s.stage == "copy").count()
    };
    // Only the copy phase runs.
    let mut steps = vec![];
    let mut run = begun(&steps);
    while run.phase == RunPhase::Copying {
        if let RunTurn::Do(_, w) = run.turn(false) {
            let v = run.finish(success(w.task));
            record(&mut steps, &w, &v);
        }
    }
    let before_count = copies(&steps);
    assert_eq!(before_count, 3);
    // Now the whole operation runs.
    let mut run = begun(&steps);
    loop {
        match run.turn(false) {
            RunTurn::Do(_, w) => {
                let v = run.finish(success(w.task));
                record(&mut steps, &w, &v);
            }
            RunTurn::Over => break,
            RunTurn::Stopped(e) => panic!("{e:?}"),
            RunTurn::Status(_) | RunTurn::Skip(_) => {}
        }
    }
    assert_eq!(run.phase, RunPhase::Completed);
    assert_eq!(before_count, copies(&steps), "copy steps should not be duplicated on resume");
}

#[test]
fn files_are_grouped_by_their_zip() {
    let files = vec![
        file(1, "/a/1", "/z/L.zip", "R/1", "move"),
        file(2, "/a/2", "/z/D.zip", "R/2", "copy"),
        file(3, "/a/3", "/z/L.zip", "R/3", "move"),
    ];
    let groups = group_by_zip(&files);
    assert_eq!(groups.len(), 2);
    let lights = groups.iter().find(|g| g.zip_path == "/z/L.zip").unwrap();
    assert_eq!(lights.members, vec![0, 2]);
    assert_eq!(pending_in_group(lights, &files, &vec![1]), vec![2]);
    assert_eq!(group_entries(lights, &files), vec!["R/1", "R/3"]);
}

#[test]
fn verdicts_of_the_steps() {
    let f = file(1, "/a/1", "/z/L.zip", "R/1", "move");
    assert_eq!(copy_verdict(&f, &Ok(())).status, StepStatus::Done);
    let v = copy_verdict(&f, &Err("disk full".into()));
    assert_eq!(v.status, StepStatus::Failed);
    assert_eq!(v.stop.unwrap().message, "copy failed for /a/1: disk full");

    let v = verify_copy_verdict(&f, "/s/1", &Ok("deadbeefdeadbeef".into()));
    assert_eq!(v.status, StepStatus::Done);
    assert_eq!(v.actual_hash.as_deref(), Some("deadbeefdeadbeef"));
    let v = verify_copy_verdict(&f, "/s/1", &Ok("cafe".into()));
    assert_eq!(v.status, StepStatus::Failed);
    assert!(v.stop.is_some());
    assert!(verify_copy_verdict(&f, "/s/1", &Err("gone".into())).stop.is_some());

    assert!(zip_verdict("/z/L.zip", &Ok(())).stop.is_none());
    assert_eq!(
        zip_verdict("/z/L.zip", &Err("boom".into())).stop.unwrap().message,
        "zip build failed for /z/L.zip: boom"
    );
    assert_eq!(
        verify_zip_verdict("/z/L.zip", &Err("bad".into())).stop.unwrap().message,
        "zip verification failed for /z/L.zip: bad"
    );

    assert!(source_needs_removal(&f, true));
    assert!(!source_needs_removal(&f, false));
    assert!(!source_needs_removal(&file(2, "/a/2", "/z", "R", "copy"), true));
    assert_eq!(delete_verdict(&f, &Removal::NotFound).status, StepStatus::Done);
    assert_eq!(delete_verdict(&f, &Removal::Removed).status, StepStatus::Done);
    assert_eq!(
        delete_verdict(&f, &Removal::Failed("locked".into())).stop.unwrap().message,
        "delete failed for /a/1: locked"
    );
}

fn steps_done(stage: &str, files: &[i64]) -> Vec<ArchiveOperationStep> {
    files.iter().map(|f| step(*f, *f, stage, "done")).collect()
}

fn fixture() -> Vec<ArchiveOperationFile> {
    vec![
        file(1, "/scan/M31/L_001.fits", "/arch/L.zip", "scan/M31/L_001.fits", "move"),
        file(2, "/scan/M31/L_002.fits", "/arch/L.zip", "scan/M31/L_002.fits", "move"),
        file(3, "/scan/F_001.fits", "/arch/F.zip", "scan/F_001.fits", "copy"),
    ]
}

fn begun(steps: &Vec<ArchiveOperationStep>) -> ArchiveRun {
    let op = insert_operation(9, operation("/arch", None, None), NOW);
    run_operation(&op, fixture(), steps).unwrap()
}

fn success(task: Task) -> Outcome {
    match task {
        Task::Copy(_) => Outcome::Copied(Ok(())),
        Task::Hash(_) => Outcome::Hashed("/s".into(), Ok("deadbeefdeadbeef".into())),
        Task::BuildZip(_) => Outcome::Zipped(Ok(())),
        Task::VerifyZip(_) => Outcome::ZipVerified(Ok(())),
        Task::RemoveSource(_) => Outcome::SourceDone(Removal::Removed),
        Task::KeepSource(_) => Outcome::SourceDone(Removal::Kept),
        Task::Finalize => Outcome::Finalized(Ok(())),
    }
}

/// Drives a run in which all goes well; gives the statuses and the tasks.
fn drive(run: &mut ArchiveRun) -> (Vec<ArchiveStatus>, Vec<Task>) {
    let mut statuses = vec![];
    let mut tasks = vec![];
    loop {
        match run.turn(false) {
            RunTurn::Status(s) => statuses.push(s),
            RunTurn::Skip(_) => {}
            RunTurn::Do(_, w) => {
                tasks.push(w.task);
                assert!(run.finish(success(w.task)).stop.is_none());
            }
            RunTurn::Stopped(e) => panic!("{e:?}"),
            RunTurn::Over => return (statuses, tasks),
        }
    }
}

#[test]
fn run_operation_completes_full_cycle() {
    let mut run = begun(&vec![]);
    let (statuses, tasks) = drive(&mut run);
    assert_eq!(statuses.last().unwrap().as_str(), "completed");
    assert_eq!(
        statuses,
        vec![
            ArchiveStatus::Copying,
            ArchiveStatus::Verifying,
            ArchiveStatus::Zipping,
            ArchiveStatus::ZipVerifying,
            ArchiveStatus::DeletingSources,
            ArchiveStatus::Finalizing,
            ArchiveStatus::Completed,
        ]
    );
    assert_eq!(
        tasks,
        vec![
            Task::Copy(0),
            Task::Copy(1),
            Task::Copy(2),
            Task::Hash(0),
            Task::Hash(1),
            Task::Hash(2),
            Task::BuildZip(0),
            Task::BuildZip(1),
            Task::VerifyZip(0),
            Task::VerifyZip(1),
            Task::RemoveSource(0),
            Task::RemoveSource(1),
            Task::KeepSource(2),
            Task::Finalize,
        ],
        "source lights are deleted at the end, the copied flat stays"
    );
    assert_eq!(run.phase, RunPhase::Completed);
}

#[test]
fn cancel_during_copy_aborts_with_cancel_signal() {
    let mut run = begun(&vec![]);
    assert!(matches!(run.turn(true), RunTurn::Status(ArchiveStatus::Copying)));
    match run.turn(true) {
        RunTurn::Stopped(err) => {
            assert!(was_cancelled(&err), "expected cancel sentinel, got: {}", err.message)
        }
        other => panic!("{other:?}"),
    }
    let mut op = insert_operation(9, operation("/arch", None, None), NOW);
    match run.turn(false) {
        RunTurn::Status(status) => update_operation_status(&mut op, status, None, NOW),
        other => panic!("{other:?}"),
    }
    assert_eq!(op.status, "cancelled");
    assert!(op.finished_at.is_some());
    assert!(matches!(run.turn(false), RunTurn::Over), "a stopped run does not go on");
}

#[test]
fn what_is_on_record_is_not_done_again() {
    let mut steps = steps_done("copy", &[1, 2]);
    steps.extend(steps_done("zip_add", &[1, 2]));
    steps.extend(steps_done("delete_source", &[2]));
    let (_, tasks) = drive(&mut begun(&steps));
    assert_eq!(
        tasks,
        vec![
            Task::Copy(2),
            Task::Hash(0),
            Task::Hash(1),
            Task::Hash(2),
            Task::BuildZip(1),
            Task::VerifyZip(0),
            Task::VerifyZip(1),
            Task::RemoveSource(0),
            Task::KeepSource(2),
            Task::Finalize,
        ]
    );
}

#[test]
fn a_zip_is_built_whole_with_steps_for_the_rest() {
    let mut steps = steps_done("copy", &[1, 2, 3]);
    steps.extend(steps_done("verify_copy", &[1, 2, 3]));
    steps.extend(steps_done("zip_add", &[1]));
    let mut run = begun(&steps);
    loop {
        if let RunTurn::Do(p, w) = run.turn(false) {
            assert_eq!(w.task, Task::BuildZip(0));
            assert_eq!(w.stage, ArchiveStage::ZipAdd);
            assert_eq!(w.step_files, vec![Some(2)]);
            assert_eq!(p.message, "Building zip 1/2");
            assert_eq!((p.operation_id, p.current, p.total), (9, 1, 2));
            assert_eq!(p.stage, "zipping");
            break;
        }
    }
}

#[test]
fn a_failed_item_stops_the_run_for_good() {
    let mut run = begun(&vec![]);
    run.turn(false);
    for task in [Task::Copy(0), Task::Copy(1), Task::Copy(2)] {
        assert!(matches!(run.turn(false), RunTurn::Do(_, w) if w.task == task));
        run.finish(success(task));
    }
    assert!(matches!(run.turn(false), RunTurn::Status(ArchiveStatus::Verifying)));
    let v = run.finish(Outcome::Hashed("/s/1".into(), Ok("cafe".into())));
    assert_eq!(v.status, StepStatus::Failed);
    assert_eq!(
        v.stop.unwrap().message,
        "hash mismatch for /scan/M31/L_001.fits: expected deadbeefdeadbeef, got cafe"
    );
    assert_eq!(run.phase, RunPhase::Failed);
    assert!(matches!(run.turn(false), RunTurn::Status(ArchiveStatus::Failed)));
    assert!(matches!(run.turn(false), RunTurn::Over));
}

#[test]
fn a_run_without_a_place_for_its_zip_stops() {
    let mut steps = steps_done("copy", &[1, 2, 3]);
    steps.extend(steps_done("verify_copy", &[1, 2, 3]));
    let mut run = begun(&steps);
    while !matches!(run.turn(false), RunTurn::Do(_, _)) {}
    let v = run.finish(Outcome::NoZipDir("/arch".into()));
    assert_eq!(v.status, StepStatus::Pending);
    assert_eq!(v.stop.unwrap().message, "failed to create zip dir /arch");
}

#[test]
fn a_run_needs_a_known_compression() {
    let mut op = insert_operation(9, operation("/arch", None, None), NOW);
    op.compression = "lzma".into();
    let err = run_operation(&op, fixture(), &vec![]).unwrap_err();
    assert_eq!(err.message, "invalid compression value: lzma");
    assert_eq!(stop_status(&err), ArchiveStatus::Failed);
}

#[test]
fn a_run_is_not_stopped_once_the_sources_are_gone() {
    let mut steps = steps_done("copy", &[1, 2, 3]);
    steps.extend(steps_done("verify_copy", &[1, 2, 3]));
    steps.extend(steps_done("zip_add", &[1, 2, 3]));
    steps.extend(steps_done("delete_source", &[1, 2, 3]));
    let mut run = begun(&steps);
    while run.phase != RunPhase::Finalizing {
        if let RunTurn::Do(_, w) = run.turn(false) {
            run.finish(success(w.task));
        }
    }
    assert!(matches!(run.turn(true), RunTurn::Do(p, w)
        if w.task == Task::Finalize && w.step_files == vec![None] && p.message == "Finalizing"));
    let v = run.finish(Outcome::Finalized(Err("locked".into())));
    assert_eq!((v.status, v.stop.unwrap().message.as_str()), (StepStatus::InProgress, "locked"));
}

#[test]
fn the_end_is_told() {
    let begin = finalize_progress(3, false);
    let end = finalize_progress(3, true);
    assert_eq!((begin.current, begin.total), (0, 1));
    assert_eq!((end.current, end.total), (1, 1));
    assert_eq!(end.stage, "finalizing");
}

#[test]
fn only_moved_files_are_marked() {
    let mut unknown = file(3, "/a/3", "/z/L.zip", "R/3", "move");
    unknown.file_id = None;
    let files = vec![
        file(1, "/a/1", "/z/L.zip", "R/1", "move"),
        file(2, "/a/2", "/z/D.zip", "R/2", "copy"),
        unknown,
    ];
    let marks = archived_marks(&files);
    assert_eq!(marks.len(), 1);
    assert_eq!(marks[0].file_id, 10);
    assert_eq!(marks[0].archive_zip_path, "/z/L.zip");
    assert_eq!(marks[0].archive_path_in_zip, "R/1");
}

/// The files of a calibration set go into their zip and come back; no frame set
/// has a part in it.
#[test]
fn calibration_archive_executor_and_restore_round_trip() {
    let source = "/data/lib/d1.fits";
    let request = CalibrationSetRequest {
        calibration_set_id: 42,
        imagetyp: "Dark".into(),
        instrume: Some("Test Cam".into()),
        gain: Some(100),
        exptime: Some("300".into()),
        date_start: Some("2026-06-28T20:00:00Z".into()),
        date_end: Some("2026-06-28T21:00:00Z".into()),
        superseded_by_set_id: Some(999),
        members: vec![MemberFile {
            file_id: 7,
            path: source.into(),
            size: 4,
            archived_in_operation: None,
        }],
        scan_roots: vec!["/data/lib".into()],
        archive_root_path: "/data/lib".into(),
        compression: ArchiveCompression::Store,
        host: Host::Linux,
    };
    let disk = DiskFacts {
        found: vec![FoundSource { path: source.into(), hash: Ok("deadbeefdeadbeef".into()) }],
        existing: vec![],
        available: None,
    };
    let plan = build_calibration_set_plan(&request, &disk).unwrap();
    let committed = commit_plan(&plan, ConflictResolution::Overwrite, &vec![], Host::Linux).unwrap();
    let op_id = 5;
    let mut op = insert_operation(op_id, committed.operation, NOW);
    let files: Vec<ArchiveOperationFile> = committed
        .files
        .iter()
        .zip(1..)
        .map(|(f, id)| insert_operation_file(id, op_id, f))
        .collect();
    let marks = archived_marks(&files);
    let in_zip = files[0].target_path_in_zip.clone();

    let mut run = run_operation(&op, files, &vec![]).unwrap();
    let (statuses, tasks) = drive(&mut run);
    for status in statuses {
        update_operation_status(&mut op, status, None, NOW);
    }
    assert!(tasks.contains(&Task::RemoveSource(0)), "source should have been moved into the zip");
    assert!(op.frames_set_id.is_none());
    assert_eq!(op.calibration_set_id, Some(42));
    assert_eq!(op.status, "completed");

    let mut file = FileMarks {
        path: source.into(),
        archived_in_operation: None,
        archive_zip_path: None,
        archive_path_in_zip: None,
    };
    assert_eq!((marks.len(), marks[0].file_id), (1, 7));
    mark_file_archived(
        &mut file,
        op_id,
        &marks[0].archive_zip_path,
        &marks[0].archive_path_in_zip,
    );
    assert_eq!(file.archived_in_operation, Some(op_id));
    assert_eq!(file.archive_zip_path.as_ref(), Some(&plan.zips[0].zip_path));

    let parent = original_parent_for_restore(source, &in_zip).unwrap();
    assert_eq!(
        dest_under_root(&parent, &in_zip, Host::Linux),
        source,
        "file should be restored to its original path"
    );
    unmark_file_archived(&mut file, None);
    assert_eq!(file.path, source);
    assert!(file.archive_zip_path.is_none(), "archive markers must be cleared after restore");
    assert!(file.archived_in_operation.is_none());
}
