use athenaeum_core::api::error::ApiError;
use athenaeum_core::api::sync::deletion::{
    delete_transfer_history, ReceivedRecord, Reclaim, SentRecord, TransferRecords,
};
use athenaeum_core::api::sync::manifest::{ManifestRecord, PayloadKind};
use athenaeum_core::api::sync::node_id::{node_id_hex, NodeId};
use athenaeum_core::api::sync::rows::{
    Direction, HistoryRow, InboundRow, InboundState, OutboundRow, OutboundState, PackageLayout,
    TransferFileCounts,
};
use athenaeum_core::api::sync::settings::{
    configured_max_concurrent_receives, get_sync_auto_mode, set_sync_auto_mode,
    set_sync_max_concurrent_receives, set_sync_upload_limit, validate_max_concurrent_receives,
    validate_upload_limit,
};
use athenaeum_core::api::sync::settings_text::{read_lines, read_text_map, write_lines, write_text_map};
use athenaeum_core::api::sync::status::{
    active_inbound_summaries, build_sender_status, derive_transport_health, get_status,
    list_history, list_terminal_transfers, queued_inbound_summaries, sender_rows, terminal_limit,
    EndedCounts, EngineReport, QueuedAnnounce, ReceiverControl, ReceiverSources, StatusSettings,
    SyncHistoryQuery, TransportHealth,
};
use athenaeum_core::api::sync::summaries::{
    inbound_summary, outbound_package_key, outbound_summary, package_totals,
    row_count, row_receiver_busy, short_id, short_pkg, RowFacts,
};
use athenaeum_core::api::sync::transfer_files::{
    detail_filename, list_transfer_events, list_transfer_files, ReceivedSources, SentSources,
    SyncEventRow, TransferFileRow,
};
use athenaeum_core::api::sync::transfers::{
    active_engine_for_row, answer_command, cancel_incoming_package, cancel_sync_package,
    reset_row, resend_declined_as_new_transfer, resend_step, resend_transfer, retry_sync_package,
    send_now_sync_package, stamp_cancelled, stamp_declined, ActiveRow, PackageRef, Resend, ResendAction,
    ResendEvent, ResendPhase, RunningSender, SenderCommand,
};
use athenaeum_core::text_map::TextMap;
use std::collections::HashMap;

const NOW: &str = "2026-07-20T00:00:00Z";
const DECLINED: &str = "cancelled by receiver";

fn out_row(id: i64, package_ref: &str, state: OutboundState) -> OutboundRow {
    OutboundRow {
        id,
        package_ref: package_ref.into(),
        peer: [0xaa; 32],
        state,
        attempts: 1,
        next_retry_at: None,
        last_error: None,
        created_at: NOW.into(),
        confirmed_at: None,
        display_name: None,
        wire_package_id: None,
        generation: 2,
        layout: PackageLayout::Mirror,
    }
}

fn in_row(id: i64, package_id: &str, state: InboundState) -> InboundRow {
    InboundRow {
        id,
        peer: "aa".repeat(32),
        package_id: package_id.into(),
        state,
        frame_count: 1,
        byte_size: 10,
        bytes_done: 0,
        last_error: None,
        created_at: NOW.into(),
        finished_at: None,
        display_name: None,
        landing_dir: None,
        batch_uuid: None,
        project_id: None,
        generation: 1,
        declined_at: None,
        peer_capability: None,
    }
}

fn facts(display_state: &str, has_payload: bool) -> RowFacts {
    RowFacts {
        file_count: 3,
        byte_size: 300,
        display_state: display_state.into(),
        has_payload,
    }
}

fn history(uuid: &str, direction: Direction, peer: &str, package: Option<&str>) -> HistoryRow {
    HistoryRow {
        frame_uuid: uuid.into(),
        filename: format!("{uuid}.fits"),
        object: Some("M42".into()),
        peer_device: peer.into(),
        direction,
        bytes: 100,
        started_at: NOW.into(),
        finished_at: None,
        outcome: "sent".into(),
        project: None,
        package_id: package.map(str::to_string),
        batch_name: None,
    }
}

fn file_row(rel: &str, size: u64, state: &str) -> TransferFileRow {
    TransferFileRow {
        rel_path: rel.into(),
        byte_size: size,
        frame_uuid: format!("u-{rel}"),
        state: state.into(),
        bytes_done: 0,
        outcome: None,
        error: None,
    }
}

fn record(rel: &str, uuid: &str) -> ManifestRecord {
    ManifestRecord {
        v: 1,
        frame_uuid: uuid.into(),
        origin_catalog_uuid: uuid.into(),
        origin_device: "o".into(),
        payload_kind: PayloadKind::RawFrame,
        rel_path: rel.into(),
        byte_size: 77,
        xxh3: "h".into(),
        frame_meta: "{}".into(),
        analysis: None,
        app_version: "t".into(),
        project: None,
    }
}

fn nothing_sent() -> SentSources {
    SentSources { row: None, file_rows: vec![], manifest: Ok(vec![]), log: vec![] }
}

fn nothing_received() -> ReceivedSources {
    ReceivedSources { row: None, file_rows: vec![], staged: None, log: vec![] }
}

fn received(direction_log: Vec<HistoryRow>, row: InboundRow, rows: Vec<TransferFileRow>) -> ReceivedSources {
    ReceivedSources { row: Some(row), file_rows: rows, staged: None, log: direction_log }
}

#[test]
fn inbound_summary_resolves_peer_kind_stamp_then_cache_then_none() {
    let peer = "cc".repeat(32);
    let row = |peer_capability: Option<&str>| {
        let mut r = in_row(1, "wire-1", InboundState::Done);
        r.peer = peer.clone();
        r.batch_uuid = Some("batch-1".into());
        r.bytes_done = 10;
        r.peer_capability = peer_capability.map(str::to_string);
        r
    };
    let names = TextMap::new();
    let counts: HashMap<i64, TransferFileCounts> = HashMap::new();
    let mut kinds = TextMap::new();
    kinds.insert(peer.clone(), "athenaeum".to_string());
    let s = inbound_summary(row(Some("perseus")), &names, &kinds, &counts, &vec![]);
    assert_eq!(s.peer_kind.as_deref(), Some("perseus"), "stamped capability wins over cache");
    let s = inbound_summary(row(None), &names, &kinds, &counts, &vec![]);
    assert_eq!(s.peer_kind.as_deref(), Some("athenaeum"), "NULL stamp falls back to the cache");
    let empty = TextMap::new();
    let s = inbound_summary(row(None), &names, &empty, &counts, &vec![]);
    assert_eq!(s.peer_kind, None, "neither stamp nor cache → None");
}

#[test]
fn only_the_siblings_of_the_served_package_are_queued_at_the_receiver() {
    assert!(
        !row_receiver_busy(7, Some(7)),
        "the moving package must never read as queued behind itself"
    );
    assert!(row_receiver_busy(8, Some(7)));
    assert!(!row_receiver_busy(8, None));
}

#[test]
fn inbound_states_as_they_are_shown() {
    let names = TextMap::new();
    let kinds = TextMap::new();
    let counts = HashMap::new();
    let mut waiting = in_row(1, "wire-parked", InboundState::Waiting);
    waiting.last_error = Some("peer gone: connection lost".into());
    let rows = vec![
        waiting,
        in_row(2, "wire-live", InboundState::Fetching),
        in_row(3, "wire-slot", InboundState::Announced),
    ];
    let active =
        active_inbound_summaries(&rows, &names, &kinds, &counts, &vec!["wire-slot".to_string()]);
    assert_eq!(active[0].display_state, "waiting_peer");
    assert_eq!(active[0].state, InboundState::Waiting);
    assert_eq!(active[0].last_error.as_deref(), Some("peer gone: connection lost"));
    assert_eq!(active[1].display_state, "fetching");
    assert_eq!(active[2].display_state, "queued");
}

#[test]
fn queued_announces_of_a_live_batch_are_not_shown_twice() {
    let names = TextMap::new();
    let mut row = in_row(1, "wire-1", InboundState::Fetching);
    row.batch_uuid = Some("batch-live".into());
    let active = active_inbound_summaries(
        &vec![row],
        &names,
        &TextMap::new(),
        &HashMap::new(),
        &vec![],
    );
    let announce = |batch: &str| QueuedAnnounce {
        peer: [0xaa; 32],
        batch_uuid: batch.into(),
        batch_name: Some("Night".into()),
        frame_count: 4,
        byte_size: 40,
    };
    let queued = queued_inbound_summaries(
        &vec![announce("batch-live"), announce("batch-next")],
        &active,
        &names,
    );
    assert_eq!(queued.len(), 1);
    assert_eq!(queued[0].batch_uuid, "batch-next");
    assert_eq!(queued[0].frame_count, 4);
}

fn engine(peer: u8, rows: Vec<OutboundRow>, serving: Option<i64>) -> EngineReport {
    EngineReport { peer: [peer; 32], rows: Ok(rows), serving }
}

#[test]
fn sender_status_dedupes_active_rows_across_peers() {
    let rows = || {
        let mut two = out_row(2, "/pkgs/two", OutboundState::Transferring);
        two.peer = [0xbb; 32];
        vec![out_row(1, "/pkgs/one", OutboundState::Queued), two]
    };
    let from = sender_rows(&vec![engine(0xaa, rows(), None), engine(0xbb, rows(), None)]).unwrap();
    let status = build_sender_status(
        &from,
        &vec![facts("queued", true), facts("transferring", true)],
        &TextMap::new(),
        &HashMap::new(),
        EndedCounts { confirmed: 5, failed: -1, cancelled: 2 },
    );
    assert!(status.started);
    assert_eq!(status.active.len(), 2, "2 distinct rows, not 4 (deduped across the 2 peers)");
    assert_eq!(
        status.active.iter().map(|a| a.id).collect::<Vec<_>>(),
        vec![1, 2],
        "deduped rows stay ordered ascending by id"
    );
    assert_eq!(status.queued, 1, "one Queued row, counted once");
    assert_eq!(status.transferring, 1, "one Transferring row, counted once");
    assert_eq!((status.confirmed_total, status.failed_total, status.cancelled_total), (5, 0, 2));
    assert_eq!(row_count(-3), 0);
    assert_eq!(row_count(3), 3);
}

#[test]
fn a_transfer_waits_behind_the_one_its_receiver_takes() {
    let rows = vec![
        out_row(1, "/p/a", OutboundState::Transferring),
        out_row(2, "/p/b", OutboundState::Queued),
    ];
    let from = sender_rows(&vec![engine(0xaa, rows, Some(1)), engine(0xbb, vec![], Some(7))]);
    assert_eq!(from.unwrap().receiver_busy, vec![false, true]);
    let none = sender_rows(&vec![]).unwrap();
    assert!(!none.started && none.rows.is_empty());
    let broken = EngineReport { peer: [1; 32], rows: Err("locked".into()), serving: None };
    match sender_rows(&vec![broken]) {
        Err(ApiError::Internal(m)) => assert_eq!(m, "sender status snapshot: locked"),
        other => panic!("{other:?}"),
    }
}

#[test]
fn get_status_surfaces_queued_inbound_and_drops_row_duplicates() {
    let peer_hex = "aa".repeat(32);
    let mut row = in_row(1, "wire-live", InboundState::Fetching);
    row.batch_uuid = Some("batch-live".into());
    let announce = |batch: &str, name: &str| QueuedAnnounce {
        peer: [0xaa; 32],
        batch_uuid: batch.into(),
        batch_name: Some(name.into()),
        frame_count: 3,
        byte_size: 500,
    };
    let settings = StatusSettings {
        dev_flag: "false".into(),
        device_id: Some("device-1".into()),
        relays: None,
        device_names: None,
        device_kinds: Some(format!("{{\"{peer_hex}\":\"perseus\"}}")),
    };
    let sender = || {
        build_sender_status(
            &sender_rows(&vec![]).unwrap(),
            &vec![],
            &TextMap::new(),
            &HashMap::new(),
            EndedCounts { confirmed: 0, failed: 0, cancelled: 0 },
        )
    };
    let mut receiver = ReceiverSources {
        rows: vec![row],
        file_counts: HashMap::new(),
        control: Some(ReceiverControl {
            parked_for_slot: vec![],
            announces: vec![
                announce("batch-live", "Live Batch"),
                announce("batch-next", "Next Batch"),
            ],
        }),
    };
    let status = get_status(&settings, true, None, 4, sender(), &receiver, None);
    assert_eq!(status.receiver.active.len(), 1, "the live row is where it always was");
    assert_eq!(status.receiver.active[0].peer_kind.as_deref(), Some("perseus"));
    assert_eq!(
        status.receiver.queued.len(),
        1,
        "the re-announce of the batch that already has a row is dropped, got: {:?}",
        status.receiver.queued
    );
    let ghost = &status.receiver.queued[0];
    assert_eq!(ghost.batch_uuid, "batch-next");
    assert_eq!(ghost.batch_name.as_deref(), Some("Next Batch"));
    assert_eq!((ghost.frame_count, ghost.byte_size), (3, 500));
    assert_eq!(
        ghost.peer_short, status.receiver.active[0].peer_short,
        "the ghost carries the same short peer handle a real row would"
    );
    assert_eq!(ghost.device_name, None, "no cached device name for this peer");
    assert_eq!((status.received_total, status.receiver.received_total), (4, 4));
    assert_eq!(status.transport.status, "no_relay_map");
    assert!(!status.dev_pairing_enabled);

    receiver.control = None;
    let cold = get_status(&settings, false, None, 0, sender(), &receiver, None);
    assert!(cold.receiver.queued.is_empty(), "an unstarted receiver has no queued announces");
}

#[test]
fn summaries_carry_generation_and_batch_uuid() {
    let mut names = TextMap::new();
    names.insert("aa".repeat(32), "My Mac".into());
    let mut counts = HashMap::new();
    counts.insert(4i64, TransferFileCounts { total: 3, done: 1, failed: 1 });
    let s = outbound_summary(
        out_row(4, "/sync/packages/0123456789abcdef", OutboundState::Queued),
        facts("queued", true),
        &names,
        &counts,
    );
    assert_eq!(s.generation, 2);
    assert_eq!(s.batch_uuid, "0123456789abcdef");
    assert_eq!(s.package_short, "0123456789");
    assert_eq!(s.device_name.as_deref(), Some("My Mac"));
    assert_eq!(s.file_counts.total, 3);
    assert!(!s.resendable);
    assert_eq!(outbound_package_key("/a/b/c"), "c");
    assert_eq!(short_id(" abc "), "abc");
    assert_eq!(short_pkg("/x/0123456789abcdef"), "0123456789");
    assert_eq!(package_totals(Some(&vec![1, 2, 3])), (3, 6));
    assert_eq!(package_totals(None), (0, 0));
}

#[test]
fn transport_health_without_a_node() {
    assert_eq!(derive_transport_health(None, None, None).status, "not_started");
    assert_eq!(derive_transport_health(None, Some("dev"), None).status, "no_relay_map");
    assert_eq!(derive_transport_health(None, Some("dev"), Some("https://r")).status, "not_started");
    let online = TransportHealth { status: "online".into() };
    assert_eq!(derive_transport_health(Some(online), Some("dev"), None).status, "online");
}

#[test]
fn list_transfer_files_v2_rows_then_legacy_fallback() {
    // As they are on record: ordered by their place in the package.
    let rows = vec![
        file_row("cam/lights/a.fits", 100, "announced"),
        file_row("cam/lights/b.fits", 200, "announced"),
    ];
    let source = received(vec![], in_row(1, "pkg-v2", InboundState::Announced), rows);
    let files =
        list_transfer_files(Direction::Received, 1, &nothing_sent(), &source).unwrap();
    assert_eq!(files.len(), 2, "both announced rows surface before any fetch");
    assert_eq!(files[0].rel_path, "cam/lights/a.fits");
    assert_eq!(files[0].name, "a.fits");
    assert_eq!(files[0].state.as_deref(), Some("announced"));
    assert_eq!(files[0].bytes_done, Some(0));
    assert!(files[0].outcome.is_none());
    assert!(files[0].error.is_none());

    let mut old = history("legacy-uuid", Direction::Received, &"aa".repeat(32), Some("pkg-legacy"));
    old.filename = "old.fits".into();
    old.bytes = 50;
    old.finished_at = Some("2026-01-01T00:00:01.000Z".into());
    old.outcome = "ingested".into();
    let source = received(vec![old], in_row(2, "pkg-legacy", InboundState::Done), vec![]);
    let legacy =
        list_transfer_files(Direction::Received, 2, &nothing_sent(), &source).unwrap();
    assert_eq!(legacy.len(), 1, "falls back to received history");
    assert_eq!(legacy[0].name, "old.fits");
    assert_eq!(legacy[0].rel_path, "old.fits", "no rel_path in history → basename");
    assert_eq!(legacy[0].outcome.as_deref(), Some("ingested"));
    assert!(legacy[0].state.is_none(), "legacy fallback has no per-file state");
}

fn event(key: &str, kind: &str, detail: Option<&str>) -> SyncEventRow {
    SyncEventRow {
        direction: Direction::Sent,
        batch_key: key.into(),
        ts: NOW.into(),
        kind: kind.into(),
        detail: detail.map(str::to_string),
    }
}

#[test]
fn list_transfer_events_returns_newest_first() {
    let journal = vec![
        event("7", "enqueued", Some("frames=2")),
        event("7", "announce_sent", None),
        event("7", "uploaded", Some("bytes=300")),
        event("8", "enqueued", None),
    ];
    let events = list_transfer_events(&journal, Direction::Sent, 7);
    assert_eq!(events.len(), 3, "only batch 7's events");
    assert_eq!(events[0].kind, "uploaded", "newest first");
    assert_eq!(events[0].detail.as_deref(), Some("bytes=300"));
    assert_eq!(events[2].kind, "enqueued", "oldest last");
    assert!(list_transfer_events(&journal, Direction::Received, 7).is_empty());
}

#[test]
fn list_history_filters_by_direction_and_peer() {
    let mut r1 = history("r1", Direction::Received, "peerB", None);
    r1.outcome = "ingested".into();
    let mut s2 = history("s2", Direction::Sent, "peerB", None);
    s2.outcome = "confirmed".into();
    // Newest first.
    let log = vec![s2, r1, history("s1", Direction::Sent, "peerA", None)];
    let q = |direction: Option<Direction>, peer: Option<&str>| SyncHistoryQuery {
        filename: None,
        object: None,
        direction,
        peer: peer.map(str::to_string),
        project: None,
        limit: 0,
    };
    let sent = list_history(&log, &q(Some(Direction::Sent), None));
    assert_eq!(sent.len(), 2);
    assert!(sent.iter().all(|h| h.direction == Direction::Sent));
    let peer_b = list_history(&log, &q(None, Some("peerB")));
    assert_eq!(peer_b.len(), 2);
    assert!(peer_b.iter().all(|h| h.peer_device == "peerB"));
    let combined = list_history(&log, &q(Some(Direction::Sent), Some("peerB")));
    assert_eq!(combined.len(), 1);
    assert_eq!(combined[0].frame_uuid, "s2");
    let mut one = q(None, None);
    one.limit = 1;
    assert_eq!(list_history(&log, &one).len(), 1);
}

#[test]
fn list_transfer_files_sent_in_flight_lists_files_without_outcome() {
    let source = SentSources {
        row: Some(out_row(3, "/pkgs/batch-1", OutboundState::Queued)),
        file_rows: vec![],
        manifest: Ok(vec![record("light-0001.fits", "u1")]),
        log: vec![],
    };
    let files = list_transfer_files(Direction::Sent, 3, &source, &nothing_received()).unwrap();
    assert_eq!(files.len(), 1, "manifest lists the one frame even with no ack yet");
    assert_eq!(files[0].name, "light-0001.fits");
    assert!(files[0].outcome.is_none(), "no verdict while the send is in flight");
}

/// A confirmed transfer tells the outcome of each file, from the log entries
/// of that transfer alone.
#[test]
fn sent_files_get_their_outcome_from_the_log() {
    let mut done = history("u1", Direction::Sent, "p", Some("batch-1"));
    done.finished_at = Some(NOW.into());
    done.outcome = "ingested".into();
    let open = history("u1", Direction::Sent, "p", Some("batch-1"));
    let mut other = history("u2", Direction::Sent, "p", Some("batch-2"));
    other.finished_at = Some(NOW.into());
    let source = SentSources {
        row: Some(out_row(3, "/pkgs/batch-1", OutboundState::Confirmed)),
        file_rows: vec![],
        manifest: Ok(vec![record("x/a.fits", "u1"), record("b.fits", "u2")]),
        log: vec![open, done, other],
    };
    let files = list_transfer_files(Direction::Sent, 3, &source, &nothing_received()).unwrap();
    assert_eq!(files[0].outcome.as_deref(), Some("ingested"));
    assert_eq!(files[0].name, "a.fits");
    assert_eq!(files[0].bytes_done, None);
    assert_eq!(files[1].outcome, None);
}

#[test]
fn list_transfer_files_received_terminal_reads_from_history() {
    let pkg = "wire-pkg-77";
    let entry = |uuid: &str, name: &str, bytes: u64| {
        let mut h = history(uuid, Direction::Received, &"aa".repeat(32), Some(pkg));
        h.filename = name.into();
        h.bytes = bytes;
        h.finished_at = Some(NOW.into());
        h.outcome = "ingested".into();
        h
    };
    let log = vec![entry("u-2", "b.fits", 200), entry("u-1", "a.fits", 100), entry("u-1", "a.fits", 1)];
    let source = received(log, in_row(9, pkg, InboundState::Done), vec![]);
    let files = list_transfer_files(Direction::Received, 9, &nothing_sent(), &source).unwrap();
    assert_eq!(files.len(), 2, "one entry per received frame from history");
    assert!(files.iter().all(|f| f.outcome.as_deref() == Some("ingested")));
    let a = files.iter().find(|f| f.name == "a.fits").expect("a.fits present");
    assert_eq!(a.bytes_total, 100);
    assert_eq!(a.bytes_done, Some(100), "terminal received: bytes_done reflects received bytes");
}

#[test]
fn list_transfer_files_unknown_id_is_not_found() {
    assert!(matches!(
        list_transfer_files(Direction::Sent, 4242, &nothing_sent(), &nothing_received()),
        Err(ApiError::NotFound(_))
    ));
    match list_transfer_files(Direction::Received, 4242, &nothing_sent(), &nothing_received()) {
        Err(ApiError::NotFound(m)) => assert_eq!(m, "inbound package 4242 not found"),
        other => panic!("{other:?}"),
    }
}

#[test]
fn an_unreadable_manifest_is_told() {
    let mut source = nothing_sent();
    source.row = Some(out_row(3, "/pkgs/x", OutboundState::Queued));
    source.manifest = Err("no such file".into());
    match list_transfer_files(Direction::Sent, 3, &source, &nothing_received()) {
        Err(ApiError::Internal(m)) => assert_eq!(m, "read manifest /pkgs/x: no such file"),
        other => panic!("{other:?}"),
    }
    let mut source = nothing_received();
    source.row = Some(in_row(1, "w", InboundState::Fetching));
    assert!(list_transfer_files(Direction::Received, 1, &nothing_sent(), &source)
        .unwrap()
        .is_empty());
    source.staged = Some(vec![record("l/s.fits", "u")]);
    let staged = list_transfer_files(Direction::Received, 1, &nothing_sent(), &source).unwrap();
    assert_eq!(staged[0].name, "s.fits");
    assert_eq!(detail_filename("a/b/c.fits"), "c.fits");
}

#[test]
fn list_terminal_transfers_returns_only_terminal_rows_newest_first() {
    let (queued_id, confirmed_id, failed_id, cancelled_id) = (1, 2, 3, 4);
    let mut cancelled = out_row(cancelled_id, "/pkg/cancelled", OutboundState::Cancelled);
    cancelled.display_name = Some("Nightly batch".into());
    // Newest first, as the catalog hands them out.
    let sent = vec![
        cancelled,
        out_row(failed_id, "/pkg/failed", OutboundState::Failed),
        out_row(confirmed_id, "/pkg/confirmed", OutboundState::Confirmed),
        out_row(queued_id, "/pkg/queued", OutboundState::Queued),
    ];
    let sent_facts = vec![
        facts("cancelled", true),
        facts("failed", false),
        facts("confirmed", true),
        facts("queued", true),
    ];
    let received = vec![
        in_row(13, "in-cancelled", InboundState::Cancelled),
        in_row(12, "in-failed", InboundState::Failed),
        in_row(11, "in-done", InboundState::Done),
        in_row(10, "in-announced", InboundState::Announced),
    ];
    let mut counts = HashMap::new();
    counts.insert(cancelled_id, TransferFileCounts { total: 2, done: 0, failed: 0 });
    let list = |limit: Option<u32>| {
        list_terminal_transfers(
            &sent,
            &sent_facts,
            &received,
            limit,
            &TextMap::new(),
            &TextMap::new(),
            &counts,
            &HashMap::new(),
        )
    };
    let terminal = list(None);
    let sent_ids: Vec<i64> = terminal.sent.iter().map(|s| s.id).collect();
    assert_eq!(
        sent_ids,
        vec![cancelled_id, failed_id, confirmed_id],
        "sent: terminal only, newest-first"
    );
    assert!(!sent_ids.contains(&queued_id), "a non-terminal queued row must be excluded");
    let recv_states: Vec<&str> =
        terminal.received.iter().map(|r| r.display_state.as_str()).collect();
    assert_eq!(
        recv_states,
        vec!["cancelled", "failed", "done"],
        "received: terminal only, newest-first"
    );
    assert!(!terminal.received.iter().any(|r| r.package_id == "in-announced"));
    let cancelled = terminal.sent.iter().find(|s| s.id == cancelled_id).unwrap();
    assert_eq!(cancelled.display_name.as_deref(), Some("Nightly batch"));
    assert_eq!(cancelled.display_state, "cancelled");
    assert_eq!(cancelled.file_counts.total, 2, "per-file rows counted into the summary");
    assert!(cancelled.resendable);
    assert!(!terminal.sent[1].resendable, "its files are gone");
    assert!(!terminal.sent[2].resendable, "a confirmed transfer is not sent again");

    let one = list(Some(1));
    assert_eq!(one.sent.len(), 1);
    assert_eq!(one.sent[0].id, cancelled_id, "limit keeps the newest terminal row");
    assert_eq!(one.received.len(), 1);
    assert_eq!(terminal_limit(Some(u32::MAX)), terminal_limit(Some(u32::MAX - 1)));

    let source = SentSources {
        row: Some(sent[0].clone()),
        file_rows: vec![
            file_row("cam/a.fits", 100, "pending"),
            file_row("cam/b.fits", 200, "pending"),
        ],
        manifest: Ok(vec![]),
        log: vec![],
    };
    let files =
        list_transfer_files(Direction::Sent, cancelled_id, &source, &nothing_received()).unwrap();
    assert_eq!(files.len(), 2, "the cancelled batch's per-file rows survive as detail");
}

#[test]
fn validate_upload_limit_rejects_sub_floor_nonzero() {
    assert!(validate_upload_limit(0).is_ok(), "0 = unlimited");
    assert!(matches!(validate_upload_limit(1), Err(ApiError::Invalid(_))));
    assert!(matches!(validate_upload_limit(99_999), Err(ApiError::Invalid(_))));
    assert!(validate_upload_limit(100_000).is_ok(), "the floor itself");
    assert!(validate_upload_limit(5_000_000).is_ok());
    assert_eq!(set_sync_upload_limit(250_000).unwrap(), "250000");
    assert!(set_sync_upload_limit(7).is_err());
}

#[test]
fn validate_max_concurrent_receives_rejects_out_of_range() {
    assert!(matches!(validate_max_concurrent_receives(0), Err(ApiError::Invalid(_))));
    assert!(validate_max_concurrent_receives(1).is_ok(), "the floor");
    assert!(validate_max_concurrent_receives(8).is_ok(), "the ceiling");
    assert!(matches!(validate_max_concurrent_receives(9), Err(ApiError::Invalid(_))));
    assert_eq!(set_sync_max_concurrent_receives(5).unwrap(), "5");
    assert!(set_sync_max_concurrent_receives(0).is_err());
}

#[test]
fn configured_max_concurrent_receives_reads_the_persisted_value() {
    assert_eq!(
        configured_max_concurrent_receives(Ok(5)),
        Some(5),
        "a receiver started fresh picks the persisted cap up"
    );
    assert_eq!(configured_max_concurrent_receives(Err("no catalog".into())), None);
}

#[test]
fn auto_mode_round_trips() {
    assert!(get_sync_auto_mode(&set_sync_auto_mode(true)));
    assert!(!get_sync_auto_mode(&set_sync_auto_mode(false)));
    assert!(get_sync_auto_mode("True"));
    assert!(!get_sync_auto_mode("yes"));
}

#[test]
fn kept_texts_round_trip() {
    let lines = vec!["a".to_string(), "b c".to_string()];
    assert_eq!(read_lines(Some(&write_lines(&lines))), lines);
    assert_eq!(read_lines(Some(" x \n\n\t\ny")), vec!["x".to_string(), "y".to_string()]);
    let mut map = TextMap::new();
    map.insert("k\"1".into(), "v\\1".into());
    map.insert("ä".into(), "".into());
    map.insert("k\"1".into(), "v2".into());
    let back = read_text_map(write_text_map(&map).as_deref());
    assert_eq!(back.len(), 2);
    assert_eq!(back.get("k\"1").map(String::as_str), Some("v2"));
    assert_eq!(back.get("ä").map(String::as_str), Some(""));
    assert!(read_text_map(Some("[1]")).is_empty());
    assert!(read_text_map(Some("{\"a\":1}")).is_empty());
}

#[test]
fn a_transfer_is_active_only_with_a_running_sender() {
    let a: NodeId = [0xaa; 32];
    let b: NodeId = [0xbb; 32];
    let running = |peer: NodeId, rows: Vec<(i64, NodeId)>| RunningSender {
        peer,
        rows: Ok(rows.into_iter().map(|(id, peer)| ActiveRow { id, peer }).collect()),
    };
    let all = vec![(1, a), (2, b)];
    let both = vec![running(a, all.clone()), running(b, all.clone())];
    assert_eq!(active_engine_for_row(&both, 2).unwrap(), b);
    assert_eq!(send_now_sync_package(&both, 1).unwrap(), a);
    assert_eq!(cancel_sync_package(&both, 2).unwrap(), b);
    assert!(answer_command(SenderCommand::Cancel, 2, Ok(())).is_ok());
    match answer_command(SenderCommand::SendNow, 2, Err("busy".into())) {
        Err(ApiError::Internal(m)) => assert_eq!(m, "send-now package 2: busy"),
        other => panic!("{other:?}"),
    }
    let one = vec![running(a, all)];
    match active_engine_for_row(&one, 2) {
        Err(ApiError::Invalid(m)) => assert_eq!(m, "package is not active"),
        other => panic!("{other:?}"),
    }
    assert!(active_engine_for_row(&both, 3).is_err());
    let broken = vec![RunningSender { peer: a, rows: Err("locked".into()) }];
    match active_engine_for_row(&broken, 1) {
        Err(ApiError::Internal(m)) => assert_eq!(m, "sender status snapshot: locked"),
        other => panic!("{other:?}"),
    }
}

#[test]
fn only_failed_or_cancelled_transfers_are_sent_again() {
    let row = |state: OutboundState, error: Option<&str>| {
        let mut r = out_row(5, "/p/x", state);
        r.last_error = error.map(str::to_string);
        Some(r)
    };
    let refused = |r: Result<Resend, ApiError>| match r {
        Err(ApiError::Invalid(m)) => m,
        other => panic!("{other:?}"),
    };
    assert_eq!(refused(resend_transfer(5, &None, true, DECLINED)), "unknown package id 5");
    assert_eq!(refused(retry_sync_package(5, &None, true, DECLINED)), "unknown package id 5");
    assert_eq!(
        refused(resend_transfer(5, &row(OutboundState::Confirmed, None), true, DECLINED)),
        "package 5 is confirmed — only failed or cancelled packages can be resent"
    );
    assert_eq!(
        refused(resend_transfer(5, &row(OutboundState::Failed, None), false, DECLINED)),
        "package 5 data is missing on disk; cannot resend"
    );
    assert_eq!(
        resend_transfer(5, &row(OutboundState::Failed, Some(DECLINED)), true, DECLINED).unwrap(),
        Resend::SameTransfer
    );
    assert_eq!(
        resend_transfer(5, &row(OutboundState::Cancelled, None), true, DECLINED).unwrap(),
        Resend::SameTransfer
    );
    assert_eq!(
        resend_transfer(5, &row(OutboundState::Cancelled, Some(DECLINED)), true, DECLINED)
            .unwrap(),
        Resend::NewTransfer
    );
}

#[test]
fn resend_of_declined_mints_new_transfer() {
    let mut row = out_row(5, "/sync/packages/old", OutboundState::Cancelled);
    row.display_name = Some("Night".into());
    let refs = vec![
        PackageRef { id: 5, package_ref: "/sync/packages/old".into() },
        PackageRef { id: 6, package_ref: "/sync/packages/other".into() },
    ];
    let files = vec![file_row("a.fits", 10, "cancelled")];
    let plan = resend_declined_as_new_transfer(&row, &refs, &files, "fresh").unwrap();
    assert_eq!(plan.new_ref, "/sync/packages/fresh");
    assert_eq!(plan.old_ref, "/sync/packages/old");
    assert_eq!(plan.files[0].rel_path, "a.fits");
    assert_eq!(plan.display_name.as_deref(), Some("Night"));
    assert_eq!(plan.layout, PackageLayout::Mirror);

    let (phase, action) = resend_step(&plan, ResendPhase::Resolving, ResendEvent::SenderReady);
    assert!(matches!(action, ResendAction::Rename));
    let (phase, action) = resend_step(&plan, phase, ResendEvent::Renamed);
    assert!(matches!(action, ResendAction::Rekey));
    let (phase, action) = resend_step(&plan, phase, ResendEvent::Rekeyed);
    assert!(matches!(action, ResendAction::Enqueue));
    let (phase, action) = resend_step(&plan, phase, ResendEvent::Enqueued(77));
    match action {
        ResendAction::Journal { of_old, of_new } => {
            assert_eq!(of_old, "as_new_transfer=77");
            assert_eq!(of_new, "of_declined=5");
        }
        other => panic!("{other:?}"),
    }
    let (phase, action) = resend_step(&plan, phase, ResendEvent::Journaled);
    assert!(matches!(phase, ResendPhase::Ended));
    assert!(matches!(action, ResendAction::Finish(Ok(77))));
}

#[test]
fn a_declined_transfer_that_is_not_taken_gets_its_directory_back() {
    let row = out_row(5, "/sync/packages/old", OutboundState::Cancelled);
    let plan = resend_declined_as_new_transfer(&row, &vec![], &vec![], "fresh").unwrap();
    assert_eq!(plan.display_name, None);
    let (phase, action) =
        resend_step(&plan, ResendPhase::Enqueuing, ResendEvent::EnqueueFailed("full".into()));
    assert!(matches!(action, ResendAction::RenameBack));
    let (phase, action) = resend_step(&plan, phase, ResendEvent::RenamedBack(true));
    assert!(matches!(action, ResendAction::RekeyBack));
    let (_, action) = resend_step(&plan, phase, ResendEvent::RekeyedBack);
    match action {
        ResendAction::Finish(Err(ApiError::Internal(m))) => {
            assert_eq!(m, "enqueue resent transfer: full")
        }
        other => panic!("{other:?}"),
    }
    let failed = |not_found: bool| {
        let event = ResendEvent::RenameFailed { not_found, why: "denied".into() };
        match resend_step(&plan, ResendPhase::Renaming, event).1 {
            ResendAction::Finish(Err(e)) => e,
            other => panic!("{other:?}"),
        }
    };
    assert!(matches!(failed(true), ApiError::Invalid(m) if m.contains("missing on disk")));
    assert!(matches!(failed(false), ApiError::Internal(m) if m.ends_with("): denied")));
}

#[test]
fn a_shared_directory_is_not_moved() {
    let row = out_row(5, "/sync/packages/old", OutboundState::Cancelled);
    let refs = vec![PackageRef { id: 6, package_ref: "/sync/packages/old".into() }];
    assert!(matches!(
        resend_declined_as_new_transfer(&row, &refs, &vec![], "f"),
        Err(ApiError::Invalid(_))
    ));
    let root = out_row(5, "/", OutboundState::Cancelled);
    assert!(matches!(
        resend_declined_as_new_transfer(&root, &vec![], &vec![], "f"),
        Err(ApiError::Internal(_))
    ));
}

#[test]
fn cancelling_a_waiting_inbound_row_terminalizes_it_immediately() {
    let mut row = in_row(1, "wire-1", InboundState::Waiting);
    row.last_error = Some("peer gone".into());
    let seeded = Some(row);
    let todo = cancel_incoming_package(&seeded, false).unwrap();
    let mut row = seeded.unwrap();
    if todo.stamp_declined {
        stamp_declined(&mut row, NOW);
    }
    if todo.stamp_cancelled {
        stamp_cancelled(&mut row, NOW);
    }
    assert_eq!(
        row.state,
        InboundState::Cancelled,
        "closed on the spot — nothing else would ever close it"
    );
    assert!(row.declined_at.is_some(), "and the decline is final");
    assert!(row.finished_at.is_some(), "a terminal stamps finished_at");

    let cancel = |state: InboundState, live: bool| {
        cancel_incoming_package(&Some(in_row(1, "w", state)), live)
    };
    let c = cancel(InboundState::Waiting, true).unwrap();
    assert!(c.stamp_declined && c.signal && c.stamp_cancelled);
    let c = cancel(InboundState::Fetching, true).unwrap();
    assert!(c.stamp_declined && c.signal && !c.stamp_cancelled, "the fetch closes itself");
    let c = cancel(InboundState::Fetching, false).unwrap();
    assert!(c.stamp_cancelled && !c.signal);
    let c = cancel(InboundState::Failed, true).unwrap();
    assert!(c.stamp_declined && !c.signal && !c.stamp_cancelled);
    let c = cancel(InboundState::Done, true).unwrap();
    assert!(!c.stamp_declined && !c.signal && !c.stamp_cancelled);
    match cancel(InboundState::Ingesting, true) {
        Err(ApiError::Invalid(m)) => assert_eq!(m, "too late: ingest in progress"),
        other => panic!("{other:?}"),
    }
    let c = cancel_incoming_package(&None, true).unwrap();
    assert!(!c.stamp_declined && c.signal && !c.stamp_cancelled);
}

#[test]
fn the_first_decline_counts() {
    let mut row = in_row(1, "w", InboundState::Fetching);
    stamp_declined(&mut row, "first");
    stamp_declined(&mut row, "second");
    assert_eq!(row.declined_at.as_deref(), Some("first"));
    let mut row = in_row(1, "w", InboundState::Done);
    stamp_declined(&mut row, "late");
    assert_eq!(row.declined_at, None, "what has arrived is never declined");
}

fn sent_record(id: i64, package_ref: &str, state: OutboundState, peer: &str) -> SentRecord {
    SentRecord { id, package_ref: package_ref.into(), state, peer_hex: peer.into() }
}

fn records(sent: Vec<SentRecord>, authorized: &[&str]) -> TransferRecords {
    TransferRecords {
        sent,
        received: vec![],
        log: vec![
            history("u1", Direction::Sent, "p", Some("k1")),
            history("u2", Direction::Sent, "p", Some("k1")),
            history("u3", Direction::Received, "p", Some("k1")),
            history("u4", Direction::Sent, "p", Some("k2")),
        ],
        authorized: authorized.iter().map(|s| s.to_string()).collect(),
    }
}

#[test]
fn delete_sent_batch_removes_all_records_and_leaves_siblings() {
    let rs = records(
        vec![
            sent_record(1, "/p/k1", OutboundState::Failed, "aa"),
            sent_record(2, "/p/k1", OutboundState::Confirmed, "aa"),
            sent_record(3, "/p/k2", OutboundState::Transferring, "aa"),
        ],
        &["aa"],
    );
    let d = delete_transfer_history(&rs, Direction::Sent, "k1").unwrap();
    assert_eq!((d.record.rows, d.record.history), (2, 2));
    assert_eq!(d.removed, vec![1, 2]);
    assert_eq!(d.log_keys, vec!["k1"]);
    assert!(d.cancelled.is_empty());
    match d.reclaim {
        Reclaim::Payloads(dirs) => assert_eq!(dirs, vec!["/p/k1"]),
        other => panic!("{other:?}"),
    }
    let d = delete_transfer_history(&rs, Direction::Sent, "nothing").unwrap();
    assert_eq!((d.record.rows, d.record.history), (0, 0));
}

#[test]
fn delete_sent_batch_cancels_and_removes_dead_peer_orphan() {
    let rs = records(vec![sent_record(1, "/p/k1", OutboundState::Queued, "dead")], &["aa"]);
    let d = delete_transfer_history(&rs, Direction::Sent, "k1").unwrap();
    assert_eq!(d.cancelled, vec![1]);
    assert_eq!(d.removed, vec![1]);
}

#[test]
fn delete_sent_batch_refuses_when_peer_still_in_account() {
    let rs = records(vec![sent_record(1, "/p/k1", OutboundState::Transferring, "aa")], &["aa"]);
    match delete_transfer_history(&rs, Direction::Sent, "k1") {
        Err(ApiError::Invalid(m)) => assert_eq!(
            m,
            "batch has an active attempt (transferring) — cancel it in Sending/Waiting first"
        ),
        other => panic!("{other:?}"),
    }
}

#[test]
fn delete_sent_batch_refuses_when_device_cache_cold() {
    let rs = records(vec![sent_record(1, "/p/k1", OutboundState::Queued, "dead")], &[]);
    match delete_transfer_history(&rs, Direction::Sent, "k1") {
        Err(ApiError::Invalid(m)) => {
            assert_eq!(m, "device list unavailable — retry after the account refreshes")
        }
        other => panic!("{other:?}"),
    }
}

#[test]
fn delete_received_batch_by_batch_uuid_removes_all_attempts_history() {
    let rec = |id: i64, state: InboundState, batch: Option<&str>, wire: &str| ReceivedRecord {
        id,
        state,
        batch_uuid: batch.map(str::to_string),
        package_id: wire.into(),
    };
    let mut rs = records(vec![], &[]);
    rs.received = vec![
        rec(1, InboundState::Failed, Some("b1"), "w1"),
        rec(2, InboundState::Done, Some("b1"), "w2"),
        rec(3, InboundState::Done, None, "w3"),
        rec(4, InboundState::Waiting, Some("b2"), "w4"),
    ];
    rs.log = vec![
        history("u1", Direction::Received, "p", Some("b1")),
        history("u2", Direction::Received, "p", Some("w1")),
        history("u3", Direction::Received, "p", Some("w3")),
        history("u4", Direction::Sent, "p", Some("b1")),
    ];
    let d = delete_transfer_history(&rs, Direction::Received, "b1").unwrap();
    assert_eq!((d.record.rows, d.record.history), (2, 2));
    assert_eq!(d.log_keys, vec!["b1", "w1", "w2"]);
    match d.reclaim {
        Reclaim::Tags(wires) => assert_eq!(wires, vec!["w1", "w2"]),
        other => panic!("{other:?}"),
    }
    let d = delete_transfer_history(&rs, Direction::Received, "w3").unwrap();
    assert_eq!((d.removed, d.record.history), (vec![3], 1));
    assert_eq!(d.log_keys, vec!["w3"], "the id on the wire is the key");
    assert!(delete_transfer_history(&rs, Direction::Received, "b2").is_err(), "it still waits");
    assert_eq!(node_id_hex(&[0xaa; 32]), "aa".repeat(32));
}

#[test]
fn delete_transfer_history_refuses_a_waiting_received_batch() {
    let mut rs = records(vec![], &[]);
    rs.received = vec![ReceivedRecord {
        id: 1,
        state: InboundState::Waiting,
        batch_uuid: Some("batch-1".into()),
        package_id: "wire-1".into(),
    }];
    let err = delete_transfer_history(&rs, Direction::Received, "batch-1")
        .expect_err("a non-terminal row refuses deletion");
    let text = format!("{err:?}").to_lowercase();
    assert!(
        text.contains("active") || text.contains("progress"),
        "the refusal names the live attempt: {err:?}"
    );
}

#[test]
fn delete_batch_refuses_when_an_attempt_is_active() {
    let peer = "bb".repeat(32);
    let mut rs = records(
        vec![
            sent_record(1, "/pkgs/live", OutboundState::Cancelled, &peer),
            sent_record(2, "/pkgs/live", OutboundState::Transferring, &peer),
        ],
        &[],
    );
    rs.log = vec![history("x", Direction::Sent, &peer, Some("live"))];
    let err = delete_transfer_history(&rs, Direction::Sent, "live").unwrap_err();
    assert!(matches!(err, ApiError::Invalid(_)), "active attempt refuses with Invalid");
}

#[test]
fn delete_received_batch_removes_all_records() {
    let peer = "cc".repeat(32);
    let mut rs = records(vec![], &[]);
    rs.received = vec![ReceivedRecord {
        id: 7,
        state: InboundState::Cancelled,
        batch_uuid: None,
        package_id: "pkg-uuid-1".into(),
    }];
    rs.log = vec![history("r", Direction::Received, &peer, Some("pkg-uuid-1"))];
    let d = delete_transfer_history(&rs, Direction::Received, "pkg-uuid-1").expect("delete ok");
    assert_eq!(d.record.rows, 1, "the inbound row deleted");
    assert_eq!(d.record.history, 1, "the received history row deleted");
    assert_eq!(d.removed, vec![7]);
}

#[test]
fn delete_sent_batch_reclaims_payload_dir() {
    let peer = "aa".repeat(32);
    let rs = records(
        vec![sent_record(1, "/sync/packages/batchZ", OutboundState::Confirmed, &peer)],
        &[],
    );
    let d = delete_transfer_history(&rs, Direction::Sent, "batchZ").expect("delete + reclaim ok");
    assert_eq!(d.record.rows, 1, "the outbound row deleted");
    match d.reclaim {
        Reclaim::Payloads(dirs) => assert_eq!(dirs, vec!["/sync/packages/batchZ"]),
        other => panic!("{other:?}"),
    }
}

#[test]
fn delete_received_batch_releases_blob_tags() {
    let wire = "wire-recv-reclaim";
    let mut rs = records(vec![], &[]);
    rs.received = vec![ReceivedRecord {
        id: 1,
        state: InboundState::Failed,
        batch_uuid: None,
        package_id: wire.into(),
    }];
    let d = delete_transfer_history(&rs, Direction::Received, wire).expect("delete + reclaim ok");
    assert_eq!(d.record.rows, 1, "the inbound row deleted");
    match d.reclaim {
        Reclaim::Tags(wires) => assert_eq!(wires, vec![wire]),
        other => panic!("{other:?}"),
    }
}

#[test]
fn inbound_summary_exposes_last_error() {
    let mut row = in_row(1, "wire-rev", InboundState::Cancelled);
    row.last_error = Some("by sender".into());
    let terminal = list_terminal_transfers(
        &vec![],
        &vec![],
        &vec![row],
        None,
        &TextMap::new(),
        &TextMap::new(),
        &HashMap::new(),
        &HashMap::new(),
    );
    let recv = terminal
        .received
        .iter()
        .find(|r| r.package_id == "wire-rev")
        .expect("received summary present");
    assert_eq!(recv.state, InboundState::Cancelled);
    assert_eq!(
        recv.last_error.as_deref(),
        Some("by sender"),
        "the sender-revoke reason surfaces on the inbound summary"
    );
}

#[test]
fn a_waiting_inbound_row_displays_as_waiting_peer() {
    let mut waiting = in_row(1, "wire-wait", InboundState::Waiting);
    waiting.last_error = Some("peer gone: connection lost".into());
    let rows = vec![waiting, in_row(2, "wire-live", InboundState::Fetching)];
    let active = active_inbound_summaries(
        &rows,
        &TextMap::new(),
        &TextMap::new(),
        &HashMap::new(),
        &vec![],
    );
    let parked = active.iter().find(|r| r.package_id == "wire-wait").expect("it is active");
    assert_eq!(parked.display_state, "waiting_peer", "one chip for both directions");
    assert_eq!(parked.state, InboundState::Waiting);
    assert_eq!(parked.last_error.as_deref(), Some("peer gone: connection lost"));
    let live = active.iter().find(|r| r.package_id == "wire-live").expect("the fetching row");
    assert_eq!(live.display_state, "fetching", "every other state still echoes raw");
}

#[test]
fn a_parked_inbound_row_displays_queued() {
    let rows = vec![
        in_row(1, "wire-parked", InboundState::Announced),
        in_row(2, "wire-fresh", InboundState::Announced),
        in_row(3, "wire-moved", InboundState::Fetching),
    ];
    let shown = |parked: Vec<String>| {
        active_inbound_summaries(
            &rows,
            &TextMap::new(),
            &TextMap::new(),
            &HashMap::new(),
            &parked,
        )
    };
    let active = shown(vec!["wire-parked".into(), "wire-moved".into()]);
    let row = |wire: &str| active.iter().find(|r| r.package_id == wire).expect("it is active");
    assert_eq!(
        row("wire-parked").display_state,
        "queued",
        "a transfer waiting for a receive slot says so"
    );
    assert_eq!(row("wire-parked").state, InboundState::Announced);
    assert_eq!(row("wire-fresh").display_state, "announced");
    assert_eq!(row("wire-moved").display_state, "fetching");
    assert!(shown(vec![]).iter().all(|r| r.display_state != "queued"));
}

#[test]
fn transport_health_no_node_is_not_started() {
    assert_eq!(derive_transport_health(None, None, None).status, "not_started");
}

#[test]
fn transport_health_signed_in_empty_relays_is_no_relay_map() {
    assert_eq!(derive_transport_health(None, Some("device-1"), None).status, "no_relay_map");
}

#[test]
fn resend_resets_same_terminal_row_in_place() {
    let display = "M42 — resend batch";
    let mut before = out_row(5, "/sync/packages/p", OutboundState::Cancelled);
    before.display_name = Some(display.into());
    before.wire_package_id = Some("wire-old".into());
    before.attempts = 3;
    before.last_error = Some("stopped".into());
    before.next_retry_at = Some(NOW.into());
    before.confirmed_at = Some(NOW.into());
    let way = resend_transfer(5, &Some(before.clone()), true, DECLINED).unwrap();
    assert_eq!(way, Resend::SameTransfer, "no new row is minted");

    let file = |rel_path: &str, state: &str, outcome: Option<&str>, error: Option<&str>| {
        TransferFileRow {
            rel_path: rel_path.into(),
            byte_size: 7,
            frame_uuid: format!("uuid of {rel_path}"),
            state: state.into(),
            bytes_done: 4,
            outcome: outcome.map(Into::into),
            error: error.map(Into::into),
        }
    };
    let files = vec![
        file("l/a.fits", "sent", Some("cancelled"), None),
        file("l/b.fits", "failed", None, Some("gone")),
    ];
    let (after, files) = reset_row(before.clone(), files, "wire-new");
    assert_eq!(after.id, 5, "resend returns the SAME transfer id (no new row)");
    assert_eq!(after.state, OutboundState::Queued);
    assert!(!after.state.is_terminal(), "resend un-terminalizes the SAME row");
    assert_eq!(after.wire_package_id.as_deref(), Some("wire-new"));
    assert_eq!(after.attempts, before.attempts + 1);
    assert_eq!(after.display_name.as_deref(), Some(display), "the row keeps its display_name");
    assert_eq!(after.package_ref, before.package_ref);
    assert_eq!(after.peer, before.peer);
    assert_eq!(after.created_at, before.created_at);
    assert_eq!(after.generation, before.generation);
    assert_eq!(after.layout, before.layout);
    assert!(after.last_error.is_none());
    assert!(after.next_retry_at.is_none());
    assert!(after.confirmed_at.is_none());
    assert_eq!(files.len(), 2, "every file has a row");
    assert!(files.iter().all(|f| f.state == "pending" && f.outcome.is_none()));
    assert!(files.iter().all(|f| f.error.is_none() && f.bytes_done == 0 && f.byte_size == 7));
    assert_eq!(files[0].rel_path, "l/a.fits");
    assert_eq!(files[1].rel_path, "l/b.fits");
    assert_eq!(files[1].frame_uuid, "uuid of l/b.fits");
    assert!(
        resend_transfer(5, &Some(after), true, DECLINED).is_err(),
        "a transfer under way is not sent again"
    );
}

#[test]
fn finished_inbound_rows_are_not_shown_as_active() {
    let rows = vec![
        in_row(1, "wire-done", InboundState::Done),
        in_row(2, "wire-live", InboundState::Fetching),
        in_row(3, "wire-failed", InboundState::Failed),
        in_row(4, "wire-gone", InboundState::Cancelled),
        in_row(5, "wire-next", InboundState::Announced),
    ];
    let active = active_inbound_summaries(
        &rows,
        &TextMap::new(),
        &TextMap::new(),
        &HashMap::new(),
        &vec![],
    );
    let shown: Vec<&str> = active.iter().map(|s| s.package_id.as_str()).collect();
    assert_eq!(shown, vec!["wire-live", "wire-next"]);
}

#[test]
fn resend_rejects_non_terminal_package() {
    for state in [OutboundState::Queued, OutboundState::Announced] {
        let row = Some(out_row(5, "/sync/packages/p", state));
        let err = resend_transfer(5, &row, true, DECLINED).unwrap_err();
        assert!(
            matches!(err, ApiError::Invalid(_)),
            "resend rejects a pending (non-terminal) package, got {err:?}"
        );
    }
}

#[test]
fn set_max_concurrent_receives_rejects_without_touching_gate_or_row() {
    assert!(matches!(set_sync_max_concurrent_receives(0), Err(ApiError::Invalid(_))));
}

#[test]
fn set_max_concurrent_receives_persists_without_a_started_receiver() {
    let kept = set_sync_max_concurrent_receives(3).expect("no receiver is not a failure");
    assert_eq!(
        configured_max_concurrent_receives(Ok(kept.parse().unwrap())),
        Some(3),
        "the next start reads it back"
    );
}
