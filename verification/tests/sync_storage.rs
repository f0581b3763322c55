use athenaeum_core::api::sync::manifest::{ManifestRecord, PayloadKind};
use athenaeum_core::api::sync::rows::{
    Direction, InboundRow, InboundState, OutboundRow, OutboundState, PackageLayout,
};
use athenaeum_core::api::sync::storage::{
    cleanup_finished_transfers, dir_age, dir_size_bytes, get_transfer_storage, package_has_payload,
    reclaimed, referenced_package_keys, release_orphan_in_flight_tags,
    remove_terminal_payload_dirs, remove_terminal_staging_dirs, sender_packages_dir,
    sweep_orphan_payload_dirs, sweep_transfer_orphans, DirAge, DirFact, PackageEntry, Reclaimed,
    RefState, Removal, SizedDir, WalkedEntry, ORPHAN_SWEEP_MIN_AGE,
};
use athenaeum_core::api::sync::status::list_terminal_transfers;
use athenaeum_core::api::sync::summaries::RowFacts;
use athenaeum_core::api::sync_prepare::{
    bank_prepared_hashes, generate_payload, handover, heal_interrupted_preparations,
    needs_generation, open_generation, prepared_detail, promote_row, spawn_prepare,
    stage_records, still_preparing, terminalize, BankCandidate, Calibration, Ending,
    GenerationFacts, Handover, PlannedRecord, PrepareError, PrepareOutcome, PrepareSource,
    PrepareStats, PrepareVerdict, StageFault, StagedFile, StagingAction,
};
use athenaeum_core::text_map::TextMap;
use std::collections::HashMap;

fn rows(list: &[(&str, OutboundState)]) -> Vec<RefState> {
    list.iter()
        .map(|(r, s)| RefState { package_ref: r.to_string(), state: *s })
        .collect()
}

fn dir(path: &str, age: DirAge) -> DirFact {
    DirFact {
        path: path.into(),
        is_dir: true,
        name: path.rsplit('/').next().map(str::to_string),
        age,
    }
}

fn inbound(wire: &str, state: InboundState) -> InboundRow {
    InboundRow {
        id: 1,
        peer: "aa".repeat(32),
        package_id: wire.into(),
        state,
        frame_count: 1,
        byte_size: 10,
        bytes_done: 0,
        last_error: None,
        created_at: "t".into(),
        finished_at: None,
        display_name: None,
        landing_dir: None,
        batch_uuid: None,
        project_id: None,
        generation: 1,
        declined_at: None,
        peer_capability: None,
    }
}

#[test]
fn sweep_removes_only_rowless_orphans() {
    let keys = referenced_package_keys(&rows(&[
        ("/s/packages/kept", OutboundState::Failed),
        ("/s/packages/live", OutboundState::Queued),
    ]));
    assert_eq!(keys, vec!["kept", "live"]);
    let mut file = dir("/s/packages/file", DirAge::Old);
    file.is_dir = false;
    let dirs = vec![
        dir("/s/packages/kept", DirAge::Old),
        dir("/s/packages/live", DirAge::Old),
        dir("/s/packages/orphan", DirAge::Old),
        dir("/s/packages/fresh", DirAge::Young),
        dir("/s/packages/odd", DirAge::Unknown),
        file,
    ];
    assert_eq!(sweep_orphan_payload_dirs(&dirs, &keys), vec!["/s/packages/orphan"]);
}

#[test]
fn sweep_keeps_a_dir_whose_top_level_mtime_is_old_but_has_a_fresh_file() {
    let entry = |changed_at: Option<i128>| WalkedEntry { is_file: true, size: Some(1), changed_at };
    let now: i128 = 10 * ORPHAN_SWEEP_MIN_AGE;
    assert_eq!(dir_age(&vec![entry(Some(0)), entry(Some(now - 1))], now), DirAge::Young);
    assert_eq!(dir_age(&vec![entry(Some(0))], now), DirAge::Old);
    assert_eq!(dir_age(&vec![entry(Some(now - ORPHAN_SWEEP_MIN_AGE))], now), DirAge::Old);
    assert_eq!(dir_age(&vec![entry(None)], now), DirAge::Unknown);
    assert_eq!(dir_age(&vec![entry(Some(now + 1))], now), DirAge::Unknown);
    assert_eq!(dir_age(&vec![], now), DirAge::Unknown);
}

#[test]
fn sizes_are_those_of_the_files() {
    let walk = vec![
        WalkedEntry { is_file: true, size: Some(10), changed_at: None },
        WalkedEntry { is_file: false, size: Some(4096), changed_at: None },
        WalkedEntry { is_file: true, size: None, changed_at: None },
        WalkedEntry { is_file: true, size: Some(5), changed_at: None },
    ];
    assert_eq!(dir_size_bytes(&walk), 15);
    let r = reclaimed(&vec![
        Removal { size: 7, done: true },
        Removal { size: 100, done: false },
        Removal { size: 8, done: true },
    ]);
    assert_eq!((r.dirs, r.bytes), (2, 15));
    let s = get_transfer_storage(
        &vec![
            SizedDir { is_dir: true, size: 3 },
            SizedDir { is_dir: false, size: 9 },
            SizedDir { is_dir: true, size: 4 },
        ],
        11,
        12,
    );
    assert_eq!(
        (s.packages_count, s.packages_bytes, s.blobs_bytes, s.staging_bytes),
        (2, 7, 11, 12)
    );
    assert_eq!(sender_packages_dir("/data/sync"), "/data/sync/packages");
}

#[test]
fn cleanup_removes_terminal_payloads() {
    let all = rows(&[
        ("/p/done", OutboundState::Confirmed),
        ("/p/shared", OutboundState::Failed),
        ("/p/shared", OutboundState::Queued),
        ("/p/done", OutboundState::Cancelled),
        ("/p/live", OutboundState::Transferring),
    ]);
    assert_eq!(remove_terminal_payload_dirs(&all), vec!["/p/done"]);
}

#[test]
fn cleanup_removes_terminal_staging_trees_and_keeps_live_ones() {
    let inbound_rows = vec![
        inbound("w-done", InboundState::Done),
        inbound("w-fetch", InboundState::Fetching),
        inbound("w-wait", InboundState::Waiting),
    ];
    let dirs = vec![
        dir("/s/staging/w-done", DirAge::Young),
        dir("/s/staging/w-fetch", DirAge::Old),
        dir("/s/staging/w-wait", DirAge::Old),
        dir("/s/staging/w-none", DirAge::Unknown),
    ];
    assert_eq!(
        remove_terminal_staging_dirs(&dirs, &inbound_rows),
        vec!["/s/staging/w-done", "/s/staging/w-none"]
    );
}

#[test]
fn the_orphan_sweep_releases_a_waiting_rows_tag_but_keeps_a_live_ones() {
    let inbound_rows = vec![
        inbound("w-fetch", InboundState::Fetching),
        inbound("w-wait", InboundState::Waiting),
        inbound("w-done", InboundState::Done),
    ];
    let tags: Vec<String> =
        ["w-fetch", "w-wait", "w-done", "w-none"].iter().map(|s| s.to_string()).collect();
    assert_eq!(
        release_orphan_in_flight_tags(&tags, &inbound_rows),
        vec!["w-wait", "w-done", "w-none"]
    );
}

#[test]
fn sweeps_and_cleanups_tell_what_they_gave_back() {
    let some = Reclaimed { dirs: 1, bytes: 2 };
    let none = Reclaimed { dirs: 0, bytes: 0 };
    assert!(sweep_transfer_orphans(Ok(none), Ok(0)).is_none());
    assert!(sweep_transfer_orphans(Err("x".into()), Err("y".into())).is_none());
    let told = sweep_transfer_orphans(Ok(some), Err("y".into())).unwrap();
    assert_eq!((told.payload_dirs, told.bytes_reclaimed, told.tags_released), (1, 2, 0));
    let c = cleanup_finished_transfers(some, Reclaimed { dirs: 3, bytes: 4 }, 5);
    assert_eq!(
        (c.payload_dirs, c.payload_bytes, c.staging_dirs, c.staging_bytes, c.tags_released),
        (1, 2, 3, 4, 5)
    );
}

#[test]
fn a_package_needs_its_manifest_and_a_file() {
    let entry = |name: &str, is_file: Option<bool>| PackageEntry {
        rel_path: name.into(),
        is_file,
    };
    let has = |es: Vec<PackageEntry>| package_has_payload(&Some(es), "manifest.ndjson");
    assert!(has(vec![entry("manifest.ndjson", Some(true)), entry("a.fits", Some(true))]));
    assert!(!has(vec![entry("manifest.ndjson", Some(true))]));
    assert!(!has(vec![entry("a.fits", Some(true))]));
    assert!(!has(vec![entry("manifest.ndjson", Some(true)), entry("sub", Some(false))]));
    assert!(!has(vec![entry("manifest.ndjson", Some(true)), entry("a.fits", None)]));
    assert!(!package_has_payload(&None, "manifest.ndjson"));
    // The payload may lie in a directory of the package, the manifest may not.
    let lights = || entry("lights", Some(false));
    assert!(has(vec![
        entry("manifest.ndjson", Some(true)),
        lights(),
        entry("lights/a.fits", Some(true)),
    ]));
    assert!(!has(vec![
        lights(),
        entry("lights/manifest.ndjson", Some(true)),
        entry("lights/a.fits", Some(true)),
    ]));
}

fn planned(source: PrepareSource, rel: &str, size: u64) -> PlannedRecord {
    PlannedRecord {
        source,
        record: ManifestRecord {
            v: 1,
            frame_uuid: "artifact-uuid".into(),
            origin_catalog_uuid: "artifact-uuid".into(),
            origin_device: "ab".repeat(32),
            payload_kind: PayloadKind::CalibratedLight,
            rel_path: rel.into(),
            byte_size: size,
            xxh3: String::new(),
            frame_meta: "{}".into(),
            analysis: None,
            app_version: "test".into(),
            project: None,
        },
    }
}

fn ready(plans: Vec<Result<(), String>>) -> GenerationFacts {
    GenerationFacts { admitted: true, catalog: Ok(()), plans }
}

fn staged(hash: &str, size: u64) -> Result<StagedFile, StageFault> {
    Ok(StagedFile { xxh3: hash.into(), byte_size: size })
}

/// A file that is made gets the hash and the size that it really has; a copy
/// keeps its planned size.
#[test]
fn stage_records_generates_into_package() {
    let records = vec![
        planned(PrepareSource::Copy("/d/a.fits".into()), "a.fits", 10),
        planned(PrepareSource::Generate { frame_id: 10 }, "lights/c_L_10.fits", 20),
    ];
    assert!(needs_generation(&records));
    let mut run =
        stage_records("/pkg", Ok(()), records, &Some("{}".into()), &ready(vec![Ok(())])).unwrap();
    assert_eq!(run.total(), 30);
    match run.next_action() {
        StagingAction::Copy { path, rel_path, size } => {
            assert_eq!((path.as_str(), rel_path.as_str(), size), ("/d/a.fits", "a.fits", 10))
        }
        other => panic!("{other:?}"),
    }
    run.file_done(staged("h1", 10)).unwrap();
    assert_eq!(run.bytes_done(), 10);
    assert!(matches!(run.next_action(), StagingAction::Generate { frame_id: 10, size: 20, .. }));
    let made = generate_payload(10, true, Calibration::Done { byte_size: 99 }, Ok("h2".into()));
    run.file_done(Ok(made.unwrap())).unwrap();
    assert_eq!(run.bytes_done(), run.total(), "the bar ends full");
    assert!(matches!(run.next_action(), StagingAction::WriteManifest));
    let done = run.finish(Ok(())).unwrap();
    assert_eq!(done.records[0].record.xxh3, "h1");
    assert_eq!(done.records[0].record.byte_size, 10);
    assert_eq!(done.records[1].record.xxh3, "h2");
    assert_eq!(done.records[1].record.byte_size, 99);
    assert_eq!(done.generated_sizes.len(), 1);
    assert_eq!(done.generated_sizes[0].size, 99);
    assert_eq!((done.stats.files, done.stats.bytes), (2, 109));
    assert_eq!(prepared_detail(&done.stats, 7), "files=2 bytes=109 duration_ms=7");
}

#[test]
fn stage_records_generation_honours_a_cancel() {
    let records = vec![planned(PrepareSource::Generate { frame_id: 10 }, "c.fits", 20)];
    let mut facts = ready(vec![]);
    facts.admitted = false;
    let err = stage_records("/pkg", Ok(()), records, &Some("{}".into()), &facts)
        .err()
        .expect("a cancelled preparation does not stage");
    assert!(matches!(err, PrepareError::Cancelled), "{}", err.describe());
    assert_eq!(err.describe(), "cancelled");
}

#[test]
fn stage_records_refuses_to_generate_without_options() {
    let records = vec![planned(PrepareSource::Generate { frame_id: 10 }, "c.fits", 20)];
    let err = stage_records("/pkg", Ok(()), records, &None, &ready(vec![]))
        .err()
        .expect("no options, no generation");
    assert!(err.describe().contains("options missing"), "{}", err.describe());
}

#[test]
fn a_preparation_fails_for_a_reason() {
    let light = || vec![planned(PrepareSource::Generate { frame_id: 10 }, "c.fits", 20)];
    let opts = Some("{}".to_string());
    let err = stage_records("/pkg", Err("denied".into()), light(), &opts, &ready(vec![]));
    assert_eq!(err.unwrap_err().describe(), "create /pkg: denied");
    let mut facts = ready(vec![]);
    facts.catalog = Err("locked".into());
    assert_eq!(
        open_generation(&light(), &opts, &facts).unwrap_err().describe(),
        "catalog unavailable: locked"
    );
    match open_generation(&light(), &opts, &ready(vec![Err("no dark".into())])) {
        Err(PrepareError::Failed { reason, culprit: Some(c) }) => {
            assert_eq!(reason, "c.fits: no dark");
            assert_eq!((c.rel_path.as_str(), c.error.as_str()), ("c.fits", "no dark"));
        }
        other => panic!("{other:?}"),
    }
    assert_eq!(open_generation(&light(), &opts, &ready(vec![Ok(())])).unwrap(), vec![10]);

    let mut run =
        stage_records("/pkg", Ok(()), light(), &opts, &ready(vec![Ok(())])).unwrap();
    match run.file_done(Err(StageFault::Failed("disk full".into()))) {
        Err(PrepareError::Failed { reason, culprit: Some(_) }) => {
            assert_eq!(reason, "c.fits: disk full")
        }
        other => panic!("{other:?}"),
    }
    assert!(matches!(run.file_done(Err(StageFault::Cancelled)), Err(PrepareError::Cancelled)));
    run.file_done(staged("h", 1)).unwrap();
    assert_eq!(run.finish(Err("full".into())).unwrap_err().describe(), "manifest: full");

    let made = |planned: bool, c: Calibration, h: Result<String, String>| {
        generate_payload(10, planned, c, h).unwrap_err().describe()
    };
    let done = || Calibration::Done { byte_size: 1 };
    assert_eq!(
        made(false, done(), Ok("h".into())),
        "no calibration plan resolved for frame 10"
    );
    assert_eq!(made(true, Calibration::Cancelled, Ok("h".into())), "cancelled");
    assert_eq!(made(true, Calibration::Failed("nan".into()), Ok("h".into())), "nan");
    assert_eq!(made(true, done(), Err("gone".into())), "hash generated payload: gone");
}

fn out_row(id: i64, state: OutboundState) -> OutboundRow {
    OutboundRow {
        id,
        package_ref: format!("/p/{id}"),
        peer: [0xaa; 32],
        state,
        attempts: 0,
        next_retry_at: None,
        last_error: None,
        created_at: "t".into(),
        confirmed_at: None,
        display_name: None,
        wire_package_id: None,
        generation: 1,
        layout: PackageLayout::Batch,
    }
}

#[test]
fn what_becomes_of_a_preparation() {
    let stats = PrepareStats { files: 1, bytes: 2 };
    assert!(matches!(
        spawn_prepare(false, false, PrepareOutcome::Staged(stats)),
        PrepareVerdict::Discard
    ));
    assert!(matches!(
        spawn_prepare(true, false, PrepareOutcome::Staged(stats)),
        PrepareVerdict::Promote(s) if s == stats
    ));
    let end = |cancel: bool, outcome: PrepareOutcome| match spawn_prepare(true, cancel, outcome) {
        PrepareVerdict::End(e) => e,
        other => panic!("{other:?}"),
    };
    let e = end(true, PrepareOutcome::Staged(stats));
    assert_eq!((e.state, e.outcome.as_str()), (OutboundState::Cancelled, "cancelled"));
    let e = end(false, PrepareOutcome::SlotClosed);
    assert_eq!(e.last_error.as_deref(), Some("preparation failed: preparation slot closed"));
    let e = end(false, PrepareOutcome::Panicked("boom".into()));
    assert_eq!(e.last_error.as_deref(), Some("preparation failed: worker panicked: boom"));
    let e = end(false, PrepareOutcome::Stopped(PrepareError::Cancelled));
    assert_eq!(e.state, OutboundState::Cancelled);
    let failed = PrepareError::Failed { reason: "a: b".into(), culprit: None };
    let e = end(false, PrepareOutcome::Stopped(failed));
    assert_eq!((e.state, e.outcome.as_str()), (OutboundState::Failed, "failed"));
    assert_eq!(e.last_error.as_deref(), Some("preparation failed: a: b"));
}

#[test]
fn a_settled_transfer_is_not_promoted() {
    let mut row = out_row(1, OutboundState::Preparing);
    assert_eq!(promote_row(&mut row), Handover::Drive);
    assert_eq!(row.state, OutboundState::Queued);
    assert_eq!(promote_row(&mut row), Handover::Discard);
    assert_eq!(handover(Ok(true)), Handover::Drive);
    assert_eq!(handover(Ok(false)), Handover::Discard);
    assert_eq!(handover(Err("x".into())), Handover::GiveUp);
    assert!(still_preparing(&Ok(Some(out_row(1, OutboundState::Preparing)))));
    assert!(!still_preparing(&Ok(Some(out_row(1, OutboundState::Cancelled)))));
    assert!(!still_preparing(&Ok(None)));
    assert!(!still_preparing(&Err("db".into())));
}

#[test]
fn the_end_of_a_preparation_goes_on_record() {
    let mut row = out_row(4, OutboundState::Preparing);
    let end = Ending {
        state: OutboundState::Cancelled,
        last_error: None,
        outcome: "cancelled".into(),
        culprit: None,
    };
    let (event, note) = terminalize(&mut row, &end, "now");
    assert_eq!(row.state, OutboundState::Cancelled);
    assert_eq!((event.batch_key.as_str(), event.kind.as_str()), ("4", "cancelled"));
    assert_eq!(event.direction, Direction::Sent);
    assert_eq!(note.outcome, "cancelled");
    assert_eq!(note.peer_device, "aa".repeat(32));
}

#[test]
fn interrupted_preparations_are_healed() {
    let mut rows = vec![
        out_row(1, OutboundState::Queued),
        out_row(2, OutboundState::Preparing),
        out_row(3, OutboundState::Preparing),
    ];
    let healed = heal_interrupted_preparations(&mut rows, "now");
    assert_eq!(healed.len(), 2);
    assert_eq!(healed[0].pkg_dir, "/p/2");
    assert_eq!(healed[1].event.kind, "prepare_failed");
    assert_eq!(rows[0].state, OutboundState::Queued);
    assert_eq!(rows[1].state, OutboundState::Failed);
    assert_eq!(
        rows[2].last_error.as_deref(),
        Some("preparation interrupted by a restart — send again")
    );
    assert!(heal_interrupted_preparations(&mut rows, "now").is_empty());
}

#[test]
fn hashes_are_kept_of_what_the_disk_vouches_for() {
    let mut a = planned(PrepareSource::Copy("/d/a".into()), "a.fits", 1);
    a.record.xxh3 = "ha".into();
    let mut b = planned(PrepareSource::Copy("/d/b".into()), "b.fits", 1);
    b.record.xxh3 = "hb".into();
    let candidate = |file_id: i64, rel: &str| BankCandidate {
        file_id,
        path: format!("/d/{rel}"),
        size: 1,
        modified_at: "t".into(),
        rel_path: rel.into(),
    };
    let cs = vec![candidate(1, "a.fits"), candidate(2, "b.fits"), candidate(3, "c.fits")];
    let kept = bank_prepared_hashes(&vec![a, b], &cs, &vec![true, false, true]);
    assert_eq!(kept.len(), 1);
    assert_eq!((kept[0].file_id, kept[0].hash.as_str()), (1, "ha"));
}

#[test]
fn sweep_removes_only_rowless_orphans_and_orphan_tags() {
    let keys = referenced_package_keys(&rows(&[
        ("/sync/packages/terminal-uuid", OutboundState::Confirmed),
        ("/sync/packages/live-uuid", OutboundState::Announced),
    ]));
    let dirs = vec![
        dir("/sync/packages/orphan-uuid", DirAge::Old),
        dir("/sync/packages/terminal-uuid", DirAge::Old),
        dir("/sync/packages/live-uuid", DirAge::Old),
    ];
    assert_eq!(
        sweep_orphan_payload_dirs(&dirs, &keys),
        vec!["/sync/packages/orphan-uuid"],
        "a terminal-row payload dir is kept for Resend, a live one for its attempt"
    );
    let tags = vec!["orphan-wire".to_string(), "live-wire".to_string()];
    assert_eq!(
        release_orphan_in_flight_tags(&tags, &vec![inbound("live-wire", InboundState::Announced)]),
        vec!["orphan-wire"],
        "a tag whose wire id still has a non-terminal inbound row is kept"
    );
}

#[test]
fn sweep_age_gates_rowless_dirs_never_racing_a_concurrent_enqueue() {
    let now: i128 = 10 * ORPHAN_SWEEP_MIN_AGE;
    let written = |ago: i128| {
        vec![WalkedEntry { is_file: true, size: Some(7), changed_at: Some(now - ago) }]
    };
    let minute: i128 = 60_000_000_000;
    let dirs = vec![
        dir("/sync/packages/fresh-uuid", dir_age(&written(0), now)),
        dir("/sync/packages/old-uuid", dir_age(&written(ORPHAN_SWEEP_MIN_AGE + minute), now)),
    ];
    assert_eq!(
        sweep_orphan_payload_dirs(&dirs, &vec![]),
        vec!["/sync/packages/old-uuid"],
        "a fresh row-less dir survives the sweep — never raced as a concurrent enqueue"
    );
}

#[test]
fn cleanup_removes_terminal_payloads_and_flips_resendable() {
    let refs = rows(&[
        ("/sync/packages/failed-uuid", OutboundState::Failed),
        ("/sync/packages/live-uuid", OutboundState::Queued),
    ]);
    let gone = remove_terminal_payload_dirs(&refs);
    assert_eq!(gone, vec!["/sync/packages/failed-uuid"], "the non-terminal payload dir is kept");

    let entries = || {
        Some(vec![
            PackageEntry { rel_path: "manifest.ndjson".into(), is_file: Some(true) },
            PackageEntry { rel_path: "frame.fits".into(), is_file: Some(true) },
        ])
    };
    let shown = |entries: &Option<Vec<PackageEntry>>| {
        let mut row = out_row(1, OutboundState::Failed);
        row.package_ref = "/sync/packages/failed-uuid".into();
        let facts = vec![RowFacts {
            file_count: 1,
            byte_size: 13,
            display_state: "failed".into(),
            has_payload: package_has_payload(entries, "manifest.ndjson"),
        }];
        let terminal = list_terminal_transfers(
            &vec![row],
            &facts,
            &vec![],
            None,
            &TextMap::new(),
            &TextMap::new(),
            &HashMap::new(),
            &HashMap::new(),
        );
        terminal.sent.into_iter().find(|s| s.batch_uuid == "failed-uuid").expect("it is listed")
    };
    assert!(shown(&entries()).resendable, "a failed row with payload is resendable before cleanup");
    assert!(!shown(&None).resendable, "resendable honestly flips false once it is reclaimed");

    let sized = |n: usize| (0..n).map(|_| SizedDir { is_dir: true, size: 13 }).collect::<Vec<_>>();
    let before = get_transfer_storage(&sized(2), 0, 0);
    assert_eq!(before.packages_count, 2, "two package dirs before cleanup");
    let result = cleanup_finished_transfers(
        reclaimed(&vec![Removal { size: 13, done: true }]),
        Reclaimed { dirs: 0, bytes: 0 },
        0,
    );
    assert_eq!(result.payload_dirs, 1, "one terminal payload dir reclaimed");
    assert!(result.payload_bytes > 0, "reclaimed some bytes");
    assert_eq!(result.tags_released, 0, "no transport started → no tags released");
    let after = get_transfer_storage(&sized(1), 0, 0);
    assert_eq!(after.packages_count, 1, "one package dir remains after cleanup");
    assert!(after.packages_bytes < before.packages_bytes);
}
