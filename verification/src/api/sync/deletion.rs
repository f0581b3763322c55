//! Removing a transfer from the log, with all of its attempts.

use crate::api::error::{ApiError, Refusal};
use crate::api::sync::rows::{Direction, HistoryRow, InboundState, OutboundState};
use crate::api::sync::summaries::{outbound_package_key, package_key};
use crate::text::{holds_text, list_contains, list_holds, same_text, texts};
use vstd::prelude::*;
use vstd::string::*;

verus! {

/// A transfer that is sent, as far as its removal needs it.
#[derive(Debug)]
pub struct SentRecord {
    pub id: i64,
    pub package_ref: String,
    pub state: OutboundState,
    /// The node id of the receiver, in hexadecimal digits.
    pub peer_hex: String,
}

/// A transfer that is received, as far as its removal needs it.
#[derive(Debug)]
pub struct ReceivedRecord {
    pub id: i64,
    pub state: InboundState,
    pub batch_uuid: Option<String>,
    /// The id of the package on the wire.
    pub package_id: String,
}

/// How many records were removed: transfers, and entries of the log.
#[derive(Debug, Clone, Copy, PartialEq, Eq, Structural)]
pub struct DeletedTransferRecord {
    pub rows: u32,
    pub history: u32,
}

/// What is given back once the records are gone.
#[derive(Debug)]
pub enum Reclaim {
    /// The directories of the packages.
    Payloads(Vec<String>),
    /// The ids on the wire whose data is let go of.
    Tags(Vec<String>),
}

/// What the removal of a transfer does.
#[derive(Debug)]
pub struct Deletion {
    pub record: DeletedTransferRecord,
    /// The attempts that are cancelled before they are removed.
    pub cancelled: Vec<i64>,
    /// The attempts that are removed.
    pub removed: Vec<i64>,
    /// The keys whose entries of the log are removed, in the same direction.
    pub log_keys: Vec<String>,
    pub reclaim: Reclaim,
}

/// Whether an attempt to send belongs to a transfer.
pub open spec fn is_attempt(r: SentRecord, key: Seq<char>) -> bool {
    package_key(r.package_ref@) == key
}

/// The ids of the attempts to send among the first `n` records.
pub open spec fn attempt_ids(rows: Seq<SentRecord>, key: Seq<char>, n: int) -> Seq<i64>
    decreases n,
{
    if n <= 0 {
        Seq::empty()
    } else {
        let before = attempt_ids(rows, key, n - 1);
        if is_attempt(rows[n - 1], key) {
            before.push(rows[n - 1].id)
        } else {
            before
        }
    }
}

/// The ids of those attempts to send, among the first `n` records, that have
/// not come to their end.
pub open spec fn open_ids(rows: Seq<SentRecord>, key: Seq<char>, n: int) -> Seq<i64>
    decreases n,
{
    if n <= 0 {
        Seq::empty()
    } else {
        let before = open_ids(rows, key, n - 1);
        if is_attempt(rows[n - 1], key) && !rows[n - 1].state.terminal() {
            before.push(rows[n - 1].id)
        } else {
            before
        }
    }
}

/// The directories of the attempts to send among the first `n` records, each
/// once.
pub open spec fn attempt_dirs(rows: Seq<SentRecord>, key: Seq<char>, n: int) -> Seq<Seq<char>>
    decreases n,
{
    if n <= 0 {
        Seq::empty()
    } else {
        let before = attempt_dirs(rows, key, n - 1);
        if is_attempt(rows[n - 1], key) && !before.contains(rows[n - 1].package_ref@) {
            before.push(rows[n - 1].package_ref@)
        } else {
            before
        }
    }
}

/// Whether an attempt to send is under way, to a device that is still one of
/// the account.
pub open spec fn is_live(r: SentRecord, key: Seq<char>, authorized: Seq<String>) -> bool {
    is_attempt(r, key) && !r.state.terminal() && holds_text(authorized, r.peer_hex@)
}

/// The first attempt at or behind `i` that is under way.
pub open spec fn first_live(
    rows: Seq<SentRecord>,
    key: Seq<char>,
    authorized: Seq<String>,
    i: int,
) -> int
    decreases rows.len() - i,
{
    if i >= rows.len() {
        rows.len() as int
    } else if is_live(rows[i], key, authorized) {
        i
    } else {
        first_live(rows, key, authorized, i + 1)
    }
}

/// How many of the first `n` entries of the log go the given way and stand
/// under one of the keys.
pub open spec fn log_count(
    log: Seq<HistoryRow>,
    direction: Direction,
    keys: Set<Seq<char>>,
    n: int,
) -> nat
    decreases n,
{
    if n <= 0 {
        0
    } else {
        log_count(log, direction, keys, n - 1) + if stands_under(log[n - 1], direction, keys) {
            1nat
        } else {
            0nat
        }
    }
}

/// Whether an entry of the log goes the given way and stands under one of the
/// keys.
pub open spec fn stands_under(h: HistoryRow, direction: Direction, keys: Set<Seq<char>>) -> bool {
    h.direction == direction && (h.package_id matches Some(p) && keys.contains(p@))
}

/// Whether `r` is the removal of a transfer that is sent. An attempt that is
/// under way stops it. One to a device that has left the account can never
/// end, so it is cancelled; but where nothing is known of the account, nothing
/// is guessed.
pub open spec fn deletes_sent(
    rows: Seq<SentRecord>,
    log: Seq<HistoryRow>,
    authorized: Seq<String>,
    key: Seq<char>,
    r: Result<Deletion, ApiError>,
) -> bool {
    let n = rows.len() as int;
    let live = first_live(rows, key, authorized, 0);
    if open_ids(rows, key, n).len() > 0 && authorized.len() == 0 {
        r matches Err(e) && e@ == Refusal::Invalid(
            "device list unavailable — retry after the account refreshes"@,
        )
    } else if live < n {
        r matches Err(e) && e@ == Refusal::Invalid(
            "batch has an active attempt ("@ + rows[live].state.word()
                + ") — cancel it in Sending/Waiting first"@,
        )
    } else {
        &&& r matches Ok(d)
        &&& d.cancelled@ == open_ids(rows, key, n)
        &&& d.removed@ == attempt_ids(rows, key, n)
        &&& d.record.rows == d.removed@.len()
        &&& texts(d.log_keys@) == seq![key]
        &&& d.record.history == log_count(log, Direction::Sent, set![key], log.len() as int)
        &&& d.reclaim matches Reclaim::Payloads(dirs)
        &&& texts(dirs@) == attempt_dirs(rows, key, n)
    }
}

proof fn lemma_open_is_attempt(rows: Seq<SentRecord>, key: Seq<char>, n: int)
    requires
        0 <= n <= rows.len(),
    ensures
        attempt_ids(rows, key, n).len() <= n,
        open_ids(rows, key, n).len() > 0 ==> exists|k: int|
            0 <= k < n && is_attempt(#[trigger] rows[k], key) && !rows[k].state.terminal(),
    decreases n,
{
    if n > 0 {
        lemma_open_is_attempt(rows, key, n - 1);
        if is_attempt(rows[n - 1], key) && !rows[n - 1].state.terminal() {
        } else if open_ids(rows, key, n).len() > 0 {
            let k = choose|k: int|
                0 <= k < n - 1 && is_attempt(#[trigger] rows[k], key) && !rows[k].state.terminal();
            assert(is_attempt(rows[k], key));
        }
    }
}

fn count_log(log: &Vec<HistoryRow>, direction: Direction, keys: &Vec<String>) -> (r: u32)
    requires
        log@.len() <= u32::MAX,
    ensures
        r == log_count(log@, direction, texts(keys@).to_set(), log@.len() as int),
{
    let ghost all = texts(keys@);
    let mut n: u32 = 0;
    let mut i: usize = 0;
    while i < log.len()
        invariant
            i <= log@.len(),
            log.len() <= u32::MAX,
            all == texts(keys@),
            n <= i,
            n == log_count(log@, direction, all.to_set(), i as int),
        decreases log@.len() - i,
    {
        let under = match &log[i].package_id {
            Some(p) => {
                let held = list_holds(keys, p.as_str());
                proof {
                    if held {
                        let k = choose|k: int|
                            0 <= k < keys@.len() && (#[trigger] keys@[k])@ == p@;
                        assert(all[k] == p@);
                        assert(all.to_set().contains(p@));
                    } else if all.to_set().contains(p@) {
                        let k = choose|k: int| 0 <= k < all.len() && all[k] == p@;
                        assert(keys@[k]@ == p@);
                    }
                }
                held
            },
            None => false,
        };
        if log[i].direction == direction && under {
            n = n + 1;
        }
        i = i + 1;
    }
    n
}

/// The removal of a transfer that is sent.
pub fn delete_sent_transfer(
    rows: &Vec<SentRecord>,
    log: &Vec<HistoryRow>,
    authorized: &Vec<String>,
    key: &str,
) -> (r: Result<Deletion, ApiError>)
    requires
        rows@.len() <= u32::MAX,
        log@.len() <= u32::MAX,
    ensures
        deletes_sent(rows@, log@, authorized@, key@, r),
{
    let mut cancelled: Vec<i64> = Vec::new();
    let mut removed: Vec<i64> = Vec::new();
    let mut dirs: Vec<String> = Vec::new();
    let mut live: Option<OutboundState> = None;
    let ghost n = rows@.len() as int;
    let mut i: usize = 0;
    assert(texts(dirs@) =~= Seq::<Seq<char>>::empty());
    while i < rows.len()
        invariant
            i <= rows@.len(),
            n == rows@.len(),
            cancelled@ == open_ids(rows@, key@, i as int),
            removed@ == attempt_ids(rows@, key@, i as int),
            texts(dirs@) == attempt_dirs(rows@, key@, i as int),
            match live {
                None => first_live(rows@, key@, authorized@, 0) == first_live(
                    rows@,
                    key@,
                    authorized@,
                    i as int,
                ),
                Some(s) => first_live(rows@, key@, authorized@, 0) < n && s == rows@[first_live(
                    rows@,
                    key@,
                    authorized@,
                    0,
                )].state,
            },
        decreases rows@.len() - i,
    {
        let row = &rows[i];
        let ghost before = texts(dirs@);
        if same_text(outbound_package_key(row.package_ref.as_str()).as_str(), key) {
            removed.push(row.id);
            if !row.state.is_terminal() {
                cancelled.push(row.id);
                if live.is_none() && list_holds(authorized, row.peer_hex.as_str()) {
                    live = Some(row.state);
                }
            }
            if !list_contains(&dirs, row.package_ref.as_str()) {
                dirs.push(row.package_ref.clone());
                assert(texts(dirs@) =~= before.push(row.package_ref@));
            }
        }
        i = i + 1;
    }
    if cancelled.len() > 0 && authorized.len() == 0 {
        return Err(
            ApiError::Invalid(
                "device list unavailable — retry after the account refreshes".to_owned(),
            ),
        );
    }
    match live {
        Some(state) => {
            let mut m: String = "batch has an active attempt (".to_owned();
            m.append(state.as_str());
            m.append(") — cancel it in Sending/Waiting first");
            return Err(ApiError::Invalid(m));
        },
        None => {},
    }
    let mut log_keys: Vec<String> = Vec::new();
    log_keys.push(key.to_owned());
    let history = count_log(log, Direction::Sent, &log_keys);
    proof {
        lemma_open_is_attempt(rows@, key@, n);
        let all = texts(log_keys@);
        assert(all =~= seq![key@]);
        assert(all[0] == key@);
        assert(all.to_set() =~= set![key@]);
    }
    let count: u32 = removed.len() as u32;
    Ok(
        Deletion {
            record: DeletedTransferRecord { rows: count, history },
            cancelled,
            removed,
            log_keys,
            reclaim: Reclaim::Payloads(dirs),
        },
    )
}

/// Whether an attempt to receive belongs to a transfer: by the identity of the
/// transfer, or by the id on the wire where it has none.
pub open spec fn is_incoming(r: ReceivedRecord, key: Seq<char>) -> bool {
    match r.batch_uuid {
        Some(b) => b@ == key,
        None => r.package_id@ == key,
    }
}

/// The ids of the attempts to receive among the first `n` records.
pub open spec fn incoming_ids(rows: Seq<ReceivedRecord>, key: Seq<char>, n: int) -> Seq<i64>
    decreases n,
{
    if n <= 0 {
        Seq::empty()
    } else {
        let before = incoming_ids(rows, key, n - 1);
        if is_incoming(rows[n - 1], key) {
            before.push(rows[n - 1].id)
        } else {
            before
        }
    }
}

/// The ids on the wire of the attempts to receive among the first `n` records.
pub open spec fn incoming_wires(rows: Seq<ReceivedRecord>, key: Seq<char>, n: int) -> Seq<Seq<char>>
    decreases n,
{
    if n <= 0 {
        Seq::empty()
    } else {
        let before = incoming_wires(rows, key, n - 1);
        if is_incoming(rows[n - 1], key) {
            before.push(rows[n - 1].package_id@)
        } else {
            before
        }
    }
}

/// The key, and behind it those of the first `n` ids on the wire that differ
/// from it.
pub open spec fn swept_keys(wires: Seq<Seq<char>>, key: Seq<char>, n: int) -> Seq<Seq<char>>
    decreases n,
{
    if n <= 0 {
        seq![key]
    } else {
        let before = swept_keys(wires, key, n - 1);
        if wires[n - 1] == key {
            before
        } else {
            before.push(wires[n - 1])
        }
    }
}

proof fn lemma_swept_keys(wires: Seq<Seq<char>>, key: Seq<char>, n: int)
    requires
        0 <= n <= wires.len(),
    ensures
        swept_keys(wires, key, n).to_set() == wires.take(n).to_set().insert(key),
    decreases n,
{
    let now = swept_keys(wires, key, n);
    let want = wires.take(n).to_set().insert(key);
    if n <= 0 {
        assert(now[0] == key);
        assert(now.to_set() =~= want);
    } else {
        lemma_swept_keys(wires, key, n - 1);
        let before = swept_keys(wires, key, n - 1);
        let old = wires.take(n - 1);
        assert forall|k: Seq<char>| now.to_set().contains(k) == want.contains(k) by {
            if now.contains(k) {
                let i = choose|i: int| 0 <= i < now.len() && now[i] == k;
                if i < before.len() {
                    assert(before[i] == k);
                    assert(before.to_set().contains(k));
                    if k != key {
                        let j = choose|j: int| 0 <= j < old.len() && old[j] == k;
                        assert(wires.take(n)[j] == k);
                    }
                } else {
                    assert(wires.take(n)[n - 1] == k);
                }
            }
            if want.contains(k) {
                if k == key || old.contains(k) {
                    if old.contains(k) {
                        assert(old.to_set().contains(k));
                    }
                    assert(before.to_set().contains(k));
                    let i = choose|i: int| 0 <= i < before.len() && before[i] == k;
                    assert(now[i] == k);
                } else {
                    let j = choose|j: int| 0 <= j < n && wires.take(n)[j] == k;
                    if j < n - 1 {
                        assert(old[j] == k);
                    }
                    assert(now[before.len() as int] == k);
                }
            }
        }
        assert(now.to_set() =~= want);
    }
}

/// Whether an attempt to receive has not come to its end.
pub open spec fn some_incoming_open(rows: Seq<ReceivedRecord>, key: Seq<char>, n: int) -> bool {
    exists|k: int|
        0 <= k < n && is_incoming(#[trigger] rows[k], key) && !rows[k].state.terminal()
}

/// Whether `r` is the removal of a transfer that is received. An attempt that
/// has not come to its end stops it. Entries of the log stand under the
/// identity of the transfer, and old ones under its ids on the wire.
pub open spec fn deletes_received(
    rows: Seq<ReceivedRecord>,
    log: Seq<HistoryRow>,
    key: Seq<char>,
    r: Result<Deletion, ApiError>,
) -> bool {
    let n = rows.len() as int;
    if some_incoming_open(rows, key, n) {
        r matches Err(e) && e@ == Refusal::Invalid(
            "batch has an active attempt — cancel it first"@,
        )
    } else {
        &&& r matches Ok(d)
        &&& d.cancelled@.len() == 0
        &&& d.removed@ == incoming_ids(rows, key, n)
        &&& d.record.rows == d.removed@.len()
        &&& texts(d.log_keys@) == swept_keys(
            incoming_wires(rows, key, n),
            key,
            incoming_wires(rows, key, n).len() as int,
        )
        &&& texts(d.log_keys@).to_set() == incoming_wires(rows, key, n).to_set().insert(key)
        &&& d.record.history == log_count(
            log,
            Direction::Received,
            incoming_wires(rows, key, n).to_set().insert(key),
            log.len() as int,
        )
        &&& d.reclaim matches Reclaim::Tags(wires)
        &&& texts(wires@) == incoming_wires(rows, key, n)
    }
}

proof fn lemma_incoming_few(rows: Seq<ReceivedRecord>, key: Seq<char>, n: int)
    requires
        0 <= n <= rows.len(),
    ensures
        incoming_ids(rows, key, n).len() <= n,
    decreases n,
{
    if n > 0 {
        lemma_incoming_few(rows, key, n - 1);
    }
}

/// The key, and behind it the ids on the wire that differ from it.
fn keys_to_sweep(wires: &Vec<String>, key: &str) -> (r: Vec<String>)
    ensures
        texts(r@) == swept_keys(texts(wires@), key@, wires@.len() as int),
{
    let mut out: Vec<String> = Vec::new();
    out.push(key.to_owned());
    assert(texts(out@) =~= seq![key@]);
    let mut i: usize = 0;
    while i < wires.len()
        invariant
            i <= wires@.len(),
            texts(out@) == swept_keys(texts(wires@), key@, i as int),
        decreases wires@.len() - i,
    {
        let ghost before = texts(out@);
        if !same_text(wires[i].as_str(), key) {
            out.push(wires[i].clone());
            assert(texts(out@) =~= before.push(wires@[i as int]@));
        }
        i = i + 1;
    }
    out
}

/// The removal of a transfer that is received.
pub fn delete_received_transfer(rows: &Vec<ReceivedRecord>, log: &Vec<HistoryRow>, key: &str) -> (r:
    Result<Deletion, ApiError>)
    requires
        rows@.len() <= u32::MAX,
        log@.len() <= u32::MAX,
    ensures
        deletes_received(rows@, log@, key@, r),
{
    let mut removed: Vec<i64> = Vec::new();
    let mut wires: Vec<String> = Vec::new();
    let mut i: usize = 0;
    assert(texts(wires@) =~= Seq::<Seq<char>>::empty());
    while i < rows.len()
        invariant
            i <= rows@.len(),
            removed@ == incoming_ids(rows@, key@, i as int),
            texts(wires@) == incoming_wires(rows@, key@, i as int),
            !some_incoming_open(rows@, key@, i as int),
        decreases rows@.len() - i,
    {
        let row = &rows[i];
        let ghost before = texts(wires@);
        let mine = match &row.batch_uuid {
            Some(b) => same_text(b.as_str(), key),
            None => same_text(row.package_id.as_str(), key),
        };
        if mine {
            if !row.state.is_terminal() {
                assert(is_incoming(rows@[i as int], key@));
                return Err(
                    ApiError::Invalid("batch has an active attempt — cancel it first".to_owned()),
                );
            }
            removed.push(row.id);
            wires.push(row.package_id.clone());
            assert(texts(wires@) =~= before.push(row.package_id@));
        }
        i = i + 1;
    }
    let log_keys = keys_to_sweep(&wires, key);
    let history = count_log(log, Direction::Received, &log_keys);
    proof {
        lemma_incoming_few(rows@, key@, rows@.len() as int);
        let all = texts(wires@);
        lemma_swept_keys(all, key@, all.len() as int);
        assert(all.take(all.len() as int) =~= all);
    }
    let count: u32 = removed.len() as u32;
    Ok(
        Deletion {
            record: DeletedTransferRecord { rows: count, history },
            cancelled: Vec::new(),
            removed,
            log_keys,
            reclaim: Reclaim::Tags(wires),
        },
    )
}

/// What is on record of all transfers, and what is known of the account.
#[derive(Debug)]
pub struct TransferRecords {
    pub sent: Vec<SentRecord>,
    pub received: Vec<ReceivedRecord>,
    pub log: Vec<HistoryRow>,
    /// The node ids of the devices of the account, in hexadecimal digits.
    pub authorized: Vec<String>,
}

/// The removal of a transfer with all of its attempts: all of them go, or none
/// does.
pub fn delete_transfer_history(records: &TransferRecords, direction: Direction, key: &str) -> (r:
    Result<Deletion, ApiError>)
    requires
        records.sent@.len() <= u32::MAX,
        records.received@.len() <= u32::MAX,
        records.log@.len() <= u32::MAX,
    ensures
        match direction {
            Direction::Sent => deletes_sent(
                records.sent@,
                records.log@,
                records.authorized@,
                key@,
                r,
            ),
            Direction::Received => deletes_received(records.received@, records.log@, key@, r),
        },
{
    match direction {
        Direction::Sent => delete_sent_transfer(
            &records.sent,
            &records.log,
            &records.authorized,
            key,
        ),
        Direction::Received => delete_received_transfer(&records.received, &records.log, key),
    }
}

proof fn lemma_first_live(
    rows: Seq<SentRecord>,
    key: Seq<char>,
    authorized: Seq<String>,
    i: int,
    k: int,
)
    requires
        0 <= i <= k < rows.len(),
        is_live(rows[k], key, authorized),
    ensures
        first_live(rows, key, authorized, i) <= k,
    decreases k - i,
{
    if i < k && !is_live(rows[i], key, authorized) {
        lemma_first_live(rows, key, authorized, i + 1, k);
    }
}

proof fn lemma_open_ids_found(rows: Seq<SentRecord>, key: Seq<char>, n: int, k: int)
    requires
        0 <= k < n <= rows.len(),
        is_attempt(rows[k], key),
        !rows[k].state.terminal(),
    ensures
        open_ids(rows, key, n).len() > 0,
    decreases n,
{
    if k < n - 1 {
        lemma_open_ids_found(rows, key, n - 1, k);
    }
}

/// Only a transfer without an attempt under way is removed: each of its
/// attempts has come to its end, or its receiver is known to have left the
/// account.
pub proof fn law_no_live_attempt_is_deleted(
    rows: Seq<SentRecord>,
    log: Seq<HistoryRow>,
    authorized: Seq<String>,
    key: Seq<char>,
    r: Result<Deletion, ApiError>,
    k: int,
)
    requires
        deletes_sent(rows, log, authorized, key, r),
        r is Ok,
        0 <= k < rows.len(),
        is_attempt(rows[k], key),
    ensures
        rows[k].state.terminal() || (authorized.len() > 0 && !holds_text(
            authorized,
            rows[k].peer_hex@,
        )),
{
    if !rows[k].state.terminal() {
        lemma_open_ids_found(rows, key, rows.len() as int, k);
        if holds_text(authorized, rows[k].peer_hex@) {
            lemma_first_live(rows, key, authorized, 0, k);
        }
    }
}

proof fn lemma_attempt_ids(rows: Seq<SentRecord>, key: Seq<char>, n: int, id: i64)
    requires
        0 <= n <= rows.len(),
    ensures
        attempt_ids(rows, key, n).contains(id) == exists|k: int|
            0 <= k < n && is_attempt(#[trigger] rows[k], key) && rows[k].id == id,
    decreases n,
{
    if n > 0 {
        lemma_attempt_ids(rows, key, n - 1, id);
        let before = attempt_ids(rows, key, n - 1);
        let now = attempt_ids(rows, key, n);
        if before.contains(id) {
            let k = choose|k: int|
                0 <= k < n - 1 && is_attempt(#[trigger] rows[k], key) && rows[k].id == id;
            assert(is_attempt(rows[k], key));
            let j = choose|j: int| 0 <= j < before.len() && before[j] == id;
            assert(now[j] == id);
        }
        if is_attempt(rows[n - 1], key) && rows[n - 1].id == id {
            assert(now[before.len() as int] == id);
        }
        if now.contains(id) && !before.contains(id) {
            let j = choose|j: int| 0 <= j < now.len() && now[j] == id;
            if j < before.len() {
                assert(before[j] == id);
            }
        }
        if exists|k: int| 0 <= k < n && is_attempt(#[trigger] rows[k], key) && rows[k].id == id {
            let k = choose|k: int|
                0 <= k < n && is_attempt(#[trigger] rows[k], key) && rows[k].id == id;
            if k < n - 1 {
                assert(is_attempt(rows[k], key) && rows[k].id == id);
                assert(before.contains(id));
            }
        }
    }
}

/// Every attempt of the transfer is removed, and nothing but its attempts.
pub proof fn law_deletion_is_of_the_whole_transfer(
    rows: Seq<SentRecord>,
    log: Seq<HistoryRow>,
    authorized: Seq<String>,
    key: Seq<char>,
    r: Result<Deletion, ApiError>,
    id: i64,
)
    requires
        deletes_sent(rows, log, authorized, key, r),
        r is Ok,
    ensures
        r->Ok_0.removed@.contains(id) == exists|k: int|
            0 <= k < rows.len() && is_attempt(#[trigger] rows[k], key) && rows[k].id == id,
{
    lemma_attempt_ids(rows, key, rows.len() as int, id);
}

} // verus!
