//! The files of a transfer, one by one, and what happened to it.

use crate::api::error::{ApiError, Refusal};
use crate::api::sync::manifest::ManifestRecord;
use crate::api::sync::node_id::NodeId;
use crate::api::sync::peers::{
    account_device_capabilities, account_device_names, base64_bytes, device_capabilities,
    device_names, is_opt_text, key_bytes, AccountDevice, DeviceCapability,
};
use crate::api::sync::rows::{copy_opt, Direction, HistoryRow, InboundRow, OutboundRow};
use crate::api::sync::summaries::{outbound_package_key, package_key};
use crate::text::{
    chars_of, same_text, signed_decimal, signed_decimal_text, slice_text,
};
use crate::text_map::TextMap;
use vstd::prelude::*;
use vstd::string::*;

verus! {

/// A file of a transfer, as it is shown.
#[derive(Debug, Clone)]
pub struct TransferFileEntry {
    pub rel_path: String,
    pub name: String,
    pub bytes_total: u64,
    pub bytes_done: Option<u64>,
    pub state: Option<String>,
    pub outcome: Option<String>,
    pub error: Option<String>,
}

/// A file of a transfer, on record.
#[derive(Debug, Clone)]
pub struct TransferFileRow {
    pub rel_path: String,
    pub byte_size: u64,
    pub frame_uuid: String,
    /// The word for how far the file has come.
    pub state: String,
    pub bytes_done: u64,
    pub outcome: Option<String>,
    pub error: Option<String>,
}

/// How many entries of the log are looked at for one transfer.
pub const DETAIL_HISTORY_LIMIT: u32 = 100_000;

/// The last slash among the first `n` characters.
pub open spec fn last_slash(s: Seq<char>, n: int) -> Option<int>
    decreases n,
{
    if n <= 0 {
        None
    } else if s[n - 1] == '/' {
        Some(n - 1)
    } else {
        last_slash(s, n - 1)
    }
}

/// The name of a file without its directories.
pub open spec fn base_name(rel_path: Seq<char>) -> Seq<char> {
    match last_slash(rel_path, rel_path.len() as int) {
        Some(i) => rel_path.skip(i + 1),
        None => rel_path,
    }
}

/// The name of a file without its directories.
pub fn detail_filename(rel_path: &str) -> (r: String)
    ensures
        r@ == base_name(rel_path@),
{
    let v = chars_of(rel_path);
    let mut n: usize = v.len();
    while n > 0 && v[n - 1] != '/'
        invariant
            n <= v@.len(),
            last_slash(v@, v@.len() as int) == last_slash(v@, n as int),
        decreases n,
    {
        n = n - 1;
    }
    assert(v@.subrange(n as int, v@.len() as int) =~= v@.skip(n as int));
    assert(v@.skip(0) =~= v@);
    slice_text(&v, n, v.len())
}

/// Whether `e` shows a file that is on record.
pub open spec fn shows_row(e: TransferFileEntry, f: TransferFileRow) -> bool {
    &&& e.rel_path == f.rel_path
    &&& e.name@ == base_name(f.rel_path@)
    &&& e.bytes_total == f.byte_size
    &&& e.bytes_done == Some(f.bytes_done)
    &&& e.state == Some(f.state)
    &&& e.outcome == f.outcome
    &&& e.error == f.error
}

/// Whether the entries show the files that are on record, one each.
pub open spec fn show_rows(es: Seq<TransferFileEntry>, fs: Seq<TransferFileRow>) -> bool {
    es.len() == fs.len() && forall|i: int|
        0 <= i < es.len() ==> shows_row(#[trigger] es[i], fs[i])
}

fn row_entries(fs: &Vec<TransferFileRow>) -> (r: Vec<TransferFileEntry>)
    ensures
        show_rows(r@, fs@),
{
    let mut out: Vec<TransferFileEntry> = Vec::new();
    let mut i: usize = 0;
    while i < fs.len()
        invariant
            i <= fs@.len(),
            out@.len() == i,
            forall|k: int| 0 <= k < i ==> shows_row(#[trigger] out@[k], fs@[k]),
        decreases fs@.len() - i,
    {
        let f = &fs[i];
        out.push(
            TransferFileEntry {
                rel_path: f.rel_path.clone(),
                name: detail_filename(f.rel_path.as_str()),
                bytes_total: f.byte_size,
                bytes_done: Some(f.bytes_done),
                state: Some(f.state.clone()),
                outcome: copy_opt(&f.outcome),
                error: copy_opt(&f.error),
            },
        );
        i = i + 1;
    }
    out
}

/// Whether an entry of the log belongs to a transfer.
pub open spec fn of_batch(h: HistoryRow, direction: Direction, key: Seq<char>) -> bool {
    h.direction == direction && (h.package_id matches Some(p) && p@ == key)
}

/// The entries of the log that belong to a transfer, among the first `n`; no
/// more than are looked at for one transfer.
pub open spec fn batch_log(
    log: Seq<HistoryRow>,
    direction: Direction,
    key: Seq<char>,
    n: int,
) -> Seq<HistoryRow>
    decreases n,
{
    if n <= 0 {
        Seq::empty()
    } else {
        let before = batch_log(log, direction, key, n - 1);
        if of_batch(log[n - 1], direction, key) && before.len() < DETAIL_HISTORY_LIMIT {
            before.push(log[n - 1])
        } else {
            before
        }
    }
}

fn find_batch_log(log: &Vec<HistoryRow>, direction: Direction, key: &str) -> (r: Vec<HistoryRow>)
    ensures
        r@ == batch_log(log@, direction, key@, log@.len() as int),
{
    let mut out: Vec<HistoryRow> = Vec::new();
    let mut i: usize = 0;
    while i < log.len()
        invariant
            i <= log@.len(),
            out@ == batch_log(log@, direction, key@, i as int),
        decreases log@.len() - i,
    {
        let h = &log[i];
        let mine = match &h.package_id {
            Some(p) => same_text(p.as_str(), key),
            None => false,
        };
        if h.direction == direction && mine && out.len() < DETAIL_HISTORY_LIMIT as usize {
            out.push(h.clone());
        }
        i = i + 1;
    }
    out
}

/// The outcome of a file: that of its first finished entry at or behind `i`.
pub open spec fn settled_outcome(log: Seq<HistoryRow>, frame: Seq<char>, i: int) -> Option<Seq<char>>
    decreases log.len() - i,
{
    if i >= log.len() {
        None
    } else if log[i].finished_at is Some && log[i].frame_uuid@ == frame {
        Some(log[i].outcome@)
    } else {
        settled_outcome(log, frame, i + 1)
    }
}

fn find_outcome(log: &Vec<HistoryRow>, frame: &str) -> (r: Option<String>)
    ensures
        is_opt_text(r, settled_outcome(log@, frame@, 0)),
{
    let mut i: usize = 0;
    while i < log.len()
        invariant
            i <= log@.len(),
            settled_outcome(log@, frame@, 0) == settled_outcome(log@, frame@, i as int),
        decreases log@.len() - i,
    {
        if log[i].finished_at.is_some() && same_text(log[i].frame_uuid.as_str(), frame) {
            return Some(log[i].outcome.clone());
        }
        i = i + 1;
    }
    None
}

/// Whether `e` shows a file of a manifest, with an outcome if it has one.
pub open spec fn shows_record(
    e: TransferFileEntry,
    r: ManifestRecord,
    outcome: Option<Seq<char>>,
) -> bool {
    &&& e.rel_path@ == r.rel_path@
    &&& e.name@ == base_name(r.rel_path@)
    &&& e.bytes_total == r.byte_size
    &&& e.bytes_done is None
    &&& e.state is None
    &&& is_opt_text(e.outcome, outcome)
    &&& e.error is None
}

/// Whether the entries show the files of a manifest, each with its outcome in
/// the log.
pub open spec fn show_records(
    es: Seq<TransferFileEntry>,
    rs: Seq<ManifestRecord>,
    log: Seq<HistoryRow>,
) -> bool {
    es.len() == rs.len() && forall|i: int|
        0 <= i < es.len() ==> shows_record(
            #[trigger] es[i],
            rs[i],
            settled_outcome(log, rs[i].frame_uuid@, 0),
        )
}

fn record_entries(rs: &Vec<ManifestRecord>, log: &Vec<HistoryRow>) -> (r: Vec<TransferFileEntry>)
    ensures
        show_records(r@, rs@, log@),
{
    let mut out: Vec<TransferFileEntry> = Vec::new();
    let mut i: usize = 0;
    while i < rs.len()
        invariant
            i <= rs@.len(),
            out@.len() == i,
            forall|k: int|
                0 <= k < i ==> shows_record(
                    #[trigger] out@[k],
                    rs@[k],
                    settled_outcome(log@, rs@[k].frame_uuid@, 0),
                ),
        decreases rs@.len() - i,
    {
        let m = &rs[i];
        out.push(
            TransferFileEntry {
                rel_path: m.rel_path.clone(),
                name: detail_filename(m.rel_path.as_str()),
                bytes_total: m.byte_size,
                bytes_done: None,
                state: None,
                outcome: find_outcome(log, m.frame_uuid.as_str()),
                error: None,
            },
        );
        i = i + 1;
    }
    out
}

/// The places, among the first `n` entries of the log, where a file is first
/// met.
pub open spec fn first_places(log: Seq<HistoryRow>, n: int) -> Seq<int>
    decreases n,
{
    if n <= 0 {
        Seq::empty()
    } else {
        let before = first_places(log, n - 1);
        if frame_met(log, n - 1, log[n - 1].frame_uuid@) {
            before
        } else {
            before.push(n - 1)
        }
    }
}

/// Whether a file is met among the first `n` entries of the log.
pub open spec fn frame_met(log: Seq<HistoryRow>, n: int, frame: Seq<char>) -> bool {
    exists|k: int| 0 <= k < n && (#[trigger] log[k]).frame_uuid@ == frame
}

/// Whether `e` shows an entry of the log.
pub open spec fn shows_history(e: TransferFileEntry, h: HistoryRow) -> bool {
    &&& e.rel_path@ == h.filename@
    &&& e.name@ == h.filename@
    &&& e.bytes_total == h.bytes
    &&& e.bytes_done == Some(h.bytes)
    &&& e.state is None
    &&& (e.outcome matches Some(o) && o@ == h.outcome@)
    &&& e.error is None
}

/// Whether the entries show the log, each file once, as it is first met.
pub open spec fn show_history(es: Seq<TransferFileEntry>, log: Seq<HistoryRow>) -> bool {
    let places = first_places(log, log.len() as int);
    es.len() == places.len() && forall|i: int|
        0 <= i < es.len() ==> shows_history(#[trigger] es[i], log[places[i]])
}

fn history_entries(log: &Vec<HistoryRow>) -> (r: Vec<TransferFileEntry>)
    ensures
        show_history(r@, log@),
{
    let mut out: Vec<TransferFileEntry> = Vec::new();
    let mut i: usize = 0;
    while i < log.len()
        invariant
            i <= log@.len(),
            out@.len() == first_places(log@, i as int).len(),
            forall|k: int|
                0 <= k < out@.len() ==> shows_history(
                    #[trigger] out@[k],
                    log@[first_places(log@, i as int)[k]],
                ),
        decreases log@.len() - i,
    {
        let h = &log[i];
        let mut k: usize = 0;
        while k < i && !same_text(log[k].frame_uuid.as_str(), h.frame_uuid.as_str())
            invariant
                k <= i < log@.len(),
                forall|j: int|
                    0 <= j < k ==> (#[trigger] log@[j]).frame_uuid@ != h.frame_uuid@,
            decreases i - k,
        {
            k = k + 1;
        }
        let ghost before = out@;
        if k == i {
            assert(!frame_met(log@, i as int, h.frame_uuid@));
            out.push(
                TransferFileEntry {
                    rel_path: h.filename.clone(),
                    name: h.filename.clone(),
                    bytes_total: h.bytes,
                    bytes_done: Some(h.bytes),
                    state: None,
                    outcome: Some(h.outcome.clone()),
                    error: None,
                },
            );
        } else {
            assert(log@[k as int].frame_uuid@ == h.frame_uuid@);
            assert(frame_met(log@, i as int, h.frame_uuid@));
        }
        assert forall|k: int| 0 <= k < out@.len() implies shows_history(
            #[trigger] out@[k],
            log@[first_places(log@, i as int + 1)[k]],
        ) by {
            if k < before.len() {
                assert(out@[k] == before[k]);
            }
        }
        i = i + 1;
    }
    out
}

/// What the files of a transfer that is sent are told from: its row, its files
/// on record, its manifest or why it cannot be read, and the log, newest first.
#[derive(Debug)]
pub struct SentSources {
    pub row: Option<OutboundRow>,
    pub file_rows: Vec<TransferFileRow>,
    pub manifest: Result<Vec<ManifestRecord>, String>,
    pub log: Vec<HistoryRow>,
}

/// What the files of a transfer that is received are told from: its row, its
/// files on record, the manifest that has arrived, if any, and the log, newest
/// first.
#[derive(Debug)]
pub struct ReceivedSources {
    pub row: Option<InboundRow>,
    pub file_rows: Vec<TransferFileRow>,
    pub staged: Option<Vec<ManifestRecord>>,
    pub log: Vec<HistoryRow>,
}

/// Whether `r` tells the files of a transfer that is sent: those on record; or
/// else, for old transfers, those of the manifest with their outcomes in the
/// log.
pub open spec fn tells_sent(
    id: i64,
    s: SentSources,
    r: Result<Vec<TransferFileEntry>, ApiError>,
) -> bool {
    match s.row {
        None => r matches Err(e) && e@ == Refusal::NotFound(
            "outbound package "@ + signed_decimal(id as int) + " not found"@,
        ),
        Some(row) => if s.file_rows@.len() > 0 {
            r matches Ok(es) && show_rows(es@, s.file_rows@)
        } else {
            match s.manifest {
                Err(why) => r matches Err(e) && e@ == Refusal::Internal(
                    "read manifest "@ + row.package_ref@ + ": "@ + why@,
                ),
                Ok(records) => r matches Ok(es) && show_records(
                    es@,
                    records@,
                    batch_log(
                        s.log@,
                        Direction::Sent,
                        package_key(row.package_ref@),
                        s.log@.len() as int,
                    ),
                ),
            }
        },
    }
}

fn not_found(what: &str, id: i64) -> (e: ApiError)
    ensures
        e@ == Refusal::NotFound(what@ + signed_decimal(id as int) + " not found"@),
{
    let mut m: String = what.to_owned();
    m.append(signed_decimal_text(id).as_str());
    m.append(" not found");
    ApiError::NotFound(m)
}

/// The files of a transfer that is sent.
pub fn sent_transfer_files(id: i64, s: &SentSources) -> (r: Result<Vec<TransferFileEntry>, ApiError>)
    ensures
        tells_sent(id, *s, r),
{
    match &s.row {
        None => Err(not_found("outbound package ", id)),
        Some(row) => {
            if s.file_rows.len() > 0 {
                return Ok(row_entries(&s.file_rows));
            }
            match &s.manifest {
                Err(why) => {
                    let mut m: String = "read manifest ".to_owned();
                    m.append(row.package_ref.as_str());
                    m.append(": ");
                    m.append(why.as_str());
                    Err(ApiError::Internal(m))
                },
                Ok(records) => {
                    let key = outbound_package_key(row.package_ref.as_str());
                    let log = find_batch_log(&s.log, Direction::Sent, key.as_str());
                    Ok(record_entries(records, &log))
                },
            }
        },
    }
}

/// Whether `r` tells the files of a transfer that is received: those on
/// record; or else, for old transfers, those of the log once the transfer came
/// to its end, and before that those of the manifest that has arrived, if any.
pub open spec fn tells_received(
    id: i64,
    s: ReceivedSources,
    r: Result<Vec<TransferFileEntry>, ApiError>,
) -> bool {
    match s.row {
        None => r matches Err(e) && e@ == Refusal::NotFound(
            "inbound package "@ + signed_decimal(id as int) + " not found"@,
        ),
        Some(row) => if s.file_rows@.len() > 0 {
            r matches Ok(es) && show_rows(es@, s.file_rows@)
        } else if row.state.terminal() {
            r matches Ok(es) && show_history(
                es@,
                batch_log(s.log@, Direction::Received, row.package_id@, s.log@.len() as int),
            )
        } else {
            match s.staged {
                Some(records) => r matches Ok(es) && show_records(es@, records@, Seq::empty()),
                None => r matches Ok(es) && es@.len() == 0,
            }
        },
    }
}

/// The files of a transfer that is received.
pub fn received_transfer_files(id: i64, s: &ReceivedSources) -> (r: Result<
    Vec<TransferFileEntry>,
    ApiError,
>)
    ensures
        tells_received(id, *s, r),
{
    match &s.row {
        None => Err(not_found("inbound package ", id)),
        Some(row) => {
            if s.file_rows.len() > 0 {
                return Ok(row_entries(&s.file_rows));
            }
            if row.state.is_terminal() {
                let log = find_batch_log(&s.log, Direction::Received, row.package_id.as_str());
                return Ok(history_entries(&log));
            }
            match &s.staged {
                Some(records) => {
                    let none: Vec<HistoryRow> = Vec::new();
                    assert(none@ =~= Seq::<HistoryRow>::empty());
                    Ok(record_entries(records, &none))
                },
                None => Ok(Vec::new()),
            }
        },
    }
}

/// The files of a transfer.
pub fn list_transfer_files(
    direction: Direction,
    id: i64,
    sent: &SentSources,
    received: &ReceivedSources,
) -> (r: Result<Vec<TransferFileEntry>, ApiError>)
    ensures
        match direction {
            Direction::Sent => tells_sent(id, *sent, r),
            Direction::Received => tells_received(id, *received, r),
        },
{
    match direction {
        Direction::Sent => sent_transfer_files(id, sent),
        Direction::Received => received_transfer_files(id, received),
    }
}

/// Something that happened to a transfer, on record.
#[derive(Debug, Clone)]
pub struct SyncEventRow {
    pub direction: Direction,
    /// The id of the transfer.
    pub batch_key: String,
    pub ts: String,
    pub kind: String,
    pub detail: Option<String>,
}

/// Something that happened to a transfer, as it is shown.
#[derive(Debug, Clone)]
pub struct TransferEventEntry {
    pub ts: String,
    pub kind: String,
    pub detail: Option<String>,
}

/// Whether an event is one of the given transfer.
pub open spec fn is_event_of(e: SyncEventRow, direction: Direction, id: i64) -> bool {
    e.direction == direction && e.batch_key@ == signed_decimal(id as int)
}

/// The places of the events of a transfer among those from the `i`th on, the
/// last one first.
pub open spec fn event_places(
    events: Seq<SyncEventRow>,
    direction: Direction,
    id: i64,
    i: int,
) -> Seq<int>
    decreases events.len() - i,
{
    if i >= events.len() {
        Seq::empty()
    } else if is_event_of(events[i], direction, id) {
        event_places(events, direction, id, i + 1).push(i)
    } else {
        event_places(events, direction, id, i + 1)
    }
}

/// Whether `t` shows an event.
pub open spec fn shows_event(t: TransferEventEntry, e: SyncEventRow) -> bool {
    t.ts == e.ts && t.kind == e.kind && t.detail == e.detail
}

/// What happened to a transfer, the newest first, from a journal that is
/// written in order.
pub fn list_transfer_events(journal: &Vec<SyncEventRow>, direction: Direction, id: i64) -> (r: Vec<
    TransferEventEntry,
>)
    ensures
        r@.len() == event_places(journal@, direction, id, 0).len(),
        forall|k: int|
            0 <= k < r@.len() ==> shows_event(
                #[trigger] r@[k],
                journal@[event_places(journal@, direction, id, 0)[k]],
            ),
{
    let key = signed_decimal_text(id);
    let mut out: Vec<TransferEventEntry> = Vec::new();
    let mut i: usize = journal.len();
    while i > 0
        invariant
            i <= journal@.len(),
            key@ == signed_decimal(id as int),
            out@.len() == event_places(journal@, direction, id, i as int).len(),
            forall|k: int|
                0 <= k < out@.len() ==> shows_event(
                    #[trigger] out@[k],
                    journal@[event_places(journal@, direction, id, i as int)[k]],
                ),
        decreases i,
    {
        i = i - 1;
        let e = &journal[i];
        let ghost before = out@;
        if e.direction == direction && same_text(e.batch_key.as_str(), key.as_str()) {
            out.push(
                TransferEventEntry {
                    ts: e.ts.clone(),
                    kind: e.kind.clone(),
                    detail: copy_opt(&e.detail),
                },
            );
        }
        assert forall|k: int| 0 <= k < out@.len() implies shows_event(
            #[trigger] out@[k],
            journal@[event_places(journal@, direction, id, i as int)[k]],
        ) by {
            if k < before.len() {
                assert(out@[k] == before[k]);
            }
        }
    }
    out
}

/// The names of the devices of the account by node id; none where the account
/// cannot be reached.
pub fn get_sync_device_names(devices: Option<&Vec<AccountDevice>>) -> (r: TextMap)
    ensures
        r@ == match devices {
            Some(ds) => device_names(ds@, ds@.len() as int),
            None => Map::<Seq<char>, Seq<char>>::empty(),
        },
{
    match devices {
        Some(ds) => account_device_names(ds),
        None => TextMap::new(),
    }
}

/// What the devices of the account can do, by node id; nothing where the
/// account cannot be reached.
pub fn get_sync_device_capabilities(devices: Option<&Vec<AccountDevice>>) -> (r: TextMap)
    ensures
        r@ == match devices {
            Some(ds) => device_capabilities(ds@, ds@.len() as int),
            None => Map::<Seq<char>, Seq<char>>::empty(),
        },
{
    match devices {
        Some(ds) => account_device_capabilities(ds),
        None => TextMap::new(),
    }
}

/// A device that a transfer is sent to.
#[derive(Debug, Clone)]
pub struct ResolvedDest {
    pub node: NodeId,
    pub endpoint_addr: Option<String>,
}

/// The first device at or behind `i` with the given id.
pub open spec fn device_place(ds: Seq<AccountDevice>, device_id: Seq<char>, i: int) -> int
    decreases ds.len() - i,
{
    if i >= ds.len() {
        ds.len() as int
    } else if ds[i].id@ == device_id {
        i
    } else {
        device_place(ds, device_id, i + 1)
    }
}

/// Whether `r` is the device that a transfer is sent to: it must be one of the
/// account, must be able to receive, and must have a usable key.
pub open spec fn is_destination(
    ds: Seq<AccountDevice>,
    device_id: Seq<char>,
    key_fault: Seq<char>,
    r: Result<ResolvedDest, ApiError>,
) -> bool {
    let i = device_place(ds, device_id, 0);
    if i >= ds.len() {
        r matches Err(e) && e@ == Refusal::Invalid(
            "destination device "@ + device_id + " is not in the account's device list"@,
        )
    } else if ds[i].capability == DeviceCapability::Perseus {
        r matches Err(e) && e@ == Refusal::Invalid(
            "device "@ + device_id + " is a send-only Perseus agent and cannot receive frames"@,
        )
    } else {
        match base64_bytes(ds[i].pubkey@) {
            Some(b) if b.len() == 32 => r matches Ok(d) && d.node@ == b && d.endpoint_addr
                == ds[i].endpoint_addr,
            _ => r matches Err(e) && e@ == Refusal::Invalid(
                "destination device "@ + device_id + " has an invalid pubkey: "@ + key_fault,
            ),
        }
    }
}

fn invalid(before: &str, device_id: &str, after: &str) -> (e: ApiError)
    ensures
        e@ == Refusal::Invalid(before@ + device_id@ + after@),
{
    let mut m: String = before.to_owned();
    m.append(device_id);
    m.append(after);
    ApiError::Invalid(m)
}

/// The device of the account that a transfer is sent to. `key_fault` says what
/// is wrong with its key, where something is.
pub fn resolve_dest_node(devices: &Vec<AccountDevice>, device_id: &str, key_fault: &str) -> (r:
    Result<ResolvedDest, ApiError>)
    ensures
        is_destination(devices@, device_id@, key_fault@, r),
{
    let mut i: usize = 0;
    while i < devices.len() && !same_text(devices[i].id.as_str(), device_id)
        invariant
            i <= devices@.len(),
            device_place(devices@, device_id@, 0) == device_place(
                devices@,
                device_id@,
                i as int,
            ),
        decreases devices@.len() - i,
    {
        i = i + 1;
    }
    if i == devices.len() {
        return Err(
            invalid(
                "destination device ",
                device_id,
                " is not in the account's device list",
            ),
        );
    }
    let d = &devices[i];
    if d.capability == DeviceCapability::Perseus {
        return Err(
            invalid(
                "device ",
                device_id,
                " is a send-only Perseus agent and cannot receive frames",
            ),
        );
    }
    match key_bytes(d.pubkey.as_str()) {
        Some(node) => Ok(ResolvedDest { node, endpoint_addr: copy_opt(&d.endpoint_addr) }),
        None => {
            let mut after: String = " has an invalid pubkey: ".to_owned();
            after.append(key_fault);
            let e = invalid("destination device ", device_id, after.as_str());
            assert("destination device "@ + device_id@ + after@ =~= "destination device "@
                + device_id@ + " has an invalid pubkey: "@ + key_fault@);
            Err(e)
        },
    }
}

} // verus!
