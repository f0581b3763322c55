//! What holds of every transfer that is removed, sent again or stopped.

use crate::api::error::{ApiError, Refusal};
use crate::api::sync::deletion::{
    attempt_dirs, attempt_ids, delete_transfer_history, first_live, incoming_ids, incoming_wires,
    is_incoming, is_live, log_count, open_ids, some_incoming_open, Deletion, ReceivedRecord,
    Reclaim, SentRecord, TransferRecords,
};
use crate::api::sync::node_id::NodeId;
use crate::api::sync::rows::{
    Direction, HistoryRow, InboundRow, InboundState, OutboundRow, OutboundState,
};
use crate::api::sync::status_laws::{has_ended, is_over, is_text};
use crate::api::sync::transfer_files::TransferFileRow;
use crate::api::sync::transfers::{
    active_engine_for_row, active_place, answer_command, can_happen, cancel_incoming_package,
    cancel_sync_package, is_reset_file, resend_declined_as_new_transfer, resend_step,
    resend_transfer, reset_row, retry_sync_package, runs_for, send_now_sync_package,
    sender_verdict, stamp_cancelled, stamp_declined, told, ActiveRow, CancelIncoming,
    DeclinedResend, PackageRef, Resend, ResendAction, ResendEvent, ResendPhase, RunningSender,
    SenderCommand,
};
use crate::paths::{file_name, joined, parent};
use crate::text::{holds_text, is_blank, signed_decimal, texts};
use vstd::prelude::*;

verus! {

/// Whether an attempt to send is one of the transfer: its directory has the name of
/// the transfer.
pub open spec fn is_sent_as(r: SentRecord, key: Seq<char>) -> bool {
    match file_name(r.package_ref@) {
        Some(name) => name == key,
        None => r.package_ref@ == key,
    }
}

/// Whether an attempt to receive is one of the transfer: by the transfer's own
/// identity, or, where it has none, by the id on the wire.
pub open spec fn is_received_as(r: ReceivedRecord, key: Seq<char>) -> bool {
    match r.batch_uuid {
        Some(b) => b@ == key,
        None => r.package_id@ == key,
    }
}

/// How many of the first `n` entries of the log went the given way under one of the
/// keys.
pub open spec fn logged(
    log: Seq<HistoryRow>,
    direction: Direction,
    keys: Set<Seq<char>>,
    n: int,
) -> nat
    decreases n,
{
    if n <= 0 {
        0
    } else {
        logged(log, direction, keys, n - 1) + match (log[n - 1].package_id, log[n - 1].direction) {
            (Some(p), d) => if d == direction && keys.contains(p@) {
                1nat
            } else {
                0nat
            },
            (None, _) => 0nat,
        }
    }
}

proof fn lemma_logged(
    log: Seq<HistoryRow>,
    direction: Direction,
    keys: Set<Seq<char>>,
    n: int,
)
    requires
        0 <= n <= log.len(),
    ensures
        log_count(log, direction, keys, n) == logged(log, direction, keys, n),
    decreases n,
{
    if n > 0 {
        lemma_logged(log, direction, keys, n - 1);
    }
}

/// Whether some attempt of the transfer with the id is there.
pub open spec fn has_attempt(rows: Seq<SentRecord>, key: Seq<char>, n: int, id: i64) -> bool {
    exists|k: int| 0 <= k < n && #[trigger] is_sent_as(rows[k], key) && rows[k].id == id
}

/// Whether some attempt of the transfer with the id has not come to its end.
pub open spec fn has_open_attempt(rows: Seq<SentRecord>, key: Seq<char>, n: int, id: i64) -> bool {
    exists|k: int|
        0 <= k < n && #[trigger] is_sent_as(rows[k], key) && rows[k].id == id && !has_ended(
            rows[k].state,
        )
}

/// Whether some attempt of the transfer lies in the directory.
pub open spec fn has_dir(rows: Seq<SentRecord>, key: Seq<char>, n: int, dir: Seq<char>) -> bool {
    exists|k: int|
        0 <= k < n && #[trigger] is_sent_as(rows[k], key) && rows[k].package_ref@ == dir
}

proof fn lemma_attempts(rows: Seq<SentRecord>, key: Seq<char>, n: int, id: i64, dir: Seq<char>)
    requires
        0 <= n <= rows.len(),
    ensures
        attempt_ids(rows, key, n).contains(id) <==> has_attempt(rows, key, n, id),
        open_ids(rows, key, n).contains(id) <==> has_open_attempt(rows, key, n, id),
        attempt_dirs(rows, key, n).contains(dir) <==> has_dir(rows, key, n, dir),
    decreases n,
{
    if n > 0 {
        lemma_attempts(rows, key, n - 1, id, dir);
        let x = rows[n - 1];
        lemma_pushed(
            attempt_ids(rows, key, n - 1),
            attempt_ids(rows, key, n),
            x.id,
            id,
            is_sent_as(x, key),
        );
        lemma_pushed(
            open_ids(rows, key, n - 1),
            open_ids(rows, key, n),
            x.id,
            id,
            is_sent_as(x, key) && !has_ended(x.state),
        );
        let d0 = attempt_dirs(rows, key, n - 1);
        lemma_pushed(
            d0,
            attempt_dirs(rows, key, n),
            x.package_ref@,
            dir,
            is_sent_as(x, key) && !d0.contains(x.package_ref@),
        );
        if has_attempt(rows, key, n - 1, id) {
            let k = choose|k: int|
                0 <= k < n - 1 && #[trigger] is_sent_as(rows[k], key) && rows[k].id == id;
            assert(is_sent_as(rows[k], key) && rows[k].id == id);
        }
        if has_open_attempt(rows, key, n - 1, id) {
            let k = choose|k: int|
                0 <= k < n - 1 && #[trigger] is_sent_as(rows[k], key) && rows[k].id == id
                    && !has_ended(rows[k].state);
            assert(is_sent_as(rows[k], key) && rows[k].id == id);
        }
        if has_dir(rows, key, n - 1, dir) {
            let k = choose|k: int|
                0 <= k < n - 1 && #[trigger] is_sent_as(rows[k], key) && rows[k].package_ref@
                    == dir;
            assert(is_sent_as(rows[k], key) && rows[k].package_ref@ == dir);
        }
    }
}

proof fn lemma_pushed<T>(before: Seq<T>, now: Seq<T>, x: T, y: T, added: bool)
    requires
        added ==> now == before.push(x),
        !added ==> now == before,
    ensures
        now.contains(y) <==> before.contains(y) || (added && x == y),
{
    if before.contains(y) {
        let k = choose|k: int| 0 <= k < before.len() && before[k] == y;
        assert(now[k] == y);
    }
    if added {
        assert(now[before.len() as int] == x);
    }
    if now.contains(y) {
        let k = choose|k: int| 0 <= k < now.len() && now[k] == y;
        if k < before.len() {
            assert(before[k] == y);
        }
    }
}

proof fn lemma_first_live(
    rows: Seq<SentRecord>,
    key: Seq<char>,
    authorized: Seq<String>,
    i: int,
)
    requires
        0 <= i <= rows.len(),
    ensures
        ({
            let p = first_live(rows, key, authorized, i);
            &&& i <= p <= rows.len()
            &&& p < rows.len() ==> is_live(rows[p], key, authorized)
            &&& forall|k: int| i <= k < p ==> !is_live(#[trigger] rows[k], key, authorized)
        }),
    decreases rows.len() - i,
{
    if i < rows.len() && !is_live(rows[i], key, authorized) {
        lemma_first_live(rows, key, authorized, i + 1);
    }
}

/// Removing a transfer that was sent removes all of its attempts and nothing else:
/// their records, their directories, and the entries of the log under its name. What
/// has not come to its end is cancelled first. It is refused just where some attempt
/// is under way to a device of the account, or where one is open and nothing is known
/// of the account.
pub proof fn law_sent_transfer_goes_whole_or_not_at_all(
    records: TransferRecords,
    name: &str,
    r: Result<Deletion, ApiError>,
    id: i64,
    dir: Seq<char>,
)
    requires
        call_ensures(delete_transfer_history, (&records, Direction::Sent, name), r),
    ensures
        r is Err <==> exists|k: int|
            0 <= k < records.sent@.len() && #[trigger] is_sent_as(records.sent@[k], name@) && !has_ended(records.sent@[k].state)
                && (records.authorized@.len() == 0 || holds_text(records.authorized@, records.sent@[k].peer_hex@)),
        r matches Ok(d) ==> {
            let n = records.sent@.len() as int;
            &&& d.removed@.contains(id) <==> has_attempt(records.sent@, name@, n, id)
            &&& d.cancelled@.contains(id) <==> has_open_attempt(records.sent@, name@, n, id)
            &&& d.record.rows == d.removed@.len()
            &&& d.reclaim matches Reclaim::Payloads(dirs) && (texts(dirs@).contains(dir)
                <==> has_dir(records.sent@, name@, n, dir))
            &&& texts(d.log_keys@) == seq![name@]
            &&& d.record.history == logged(records.log@, Direction::Sent, set![name@], records.log@.len() as int)
        },
{
    let rows = records.sent@;
    let log = records.log@;
    let authorized = records.authorized@;
    let key = name@;
    let n = rows.len() as int;
    lemma_attempts(rows, key, n, id, dir);
    lemma_logged(log, Direction::Sent, set![key], log.len() as int);
    lemma_first_live(rows, key, authorized, 0);
    let p = first_live(rows, key, authorized, 0);
    let open = open_ids(rows, key, n);
    if open.len() > 0 && authorized.len() == 0 {
        lemma_attempts(rows, key, n, open[0], dir);
        assert(open.contains(open[0]));
        let k = choose|k: int|
            0 <= k < n && #[trigger] is_sent_as(rows[k], key) && rows[k].id == open[0]
                && !has_ended(rows[k].state);
        assert(is_sent_as(rows[k], key));
    } else if p < n {
        assert(is_sent_as(rows[p], key));
    }
    if exists|k: int|
        0 <= k < rows.len() && #[trigger] is_sent_as(rows[k], key) && !has_ended(rows[k].state)
            && (authorized.len() == 0 || holds_text(authorized, rows[k].peer_hex@)) {
        let k = choose|k: int|
            0 <= k < rows.len() && #[trigger] is_sent_as(rows[k], key) && !has_ended(rows[k].state)
                && (authorized.len() == 0 || holds_text(authorized, rows[k].peer_hex@));
        if authorized.len() == 0 {
            lemma_attempts(rows, key, n, rows[k].id, dir);
            assert(has_open_attempt(rows, key, n, rows[k].id));
        } else {
            assert(is_live(rows[k], key, authorized));
        }
    }
}

/// Whether some attempt to receive the transfer has the id.
pub open spec fn has_incoming(rows: Seq<ReceivedRecord>, key: Seq<char>, n: int, id: i64) -> bool {
    exists|k: int| 0 <= k < n && #[trigger] is_received_as(rows[k], key) && rows[k].id == id
}

/// Whether some attempt to receive the transfer has the id on the wire.
pub open spec fn has_wire(
    rows: Seq<ReceivedRecord>,
    key: Seq<char>,
    n: int,
    wire: Seq<char>,
) -> bool {
    exists|k: int|
        0 <= k < n && #[trigger] is_received_as(rows[k], key) && rows[k].package_id@ == wire
}

proof fn lemma_incoming(
    rows: Seq<ReceivedRecord>,
    key: Seq<char>,
    n: int,
    id: i64,
    wire: Seq<char>,
)
    requires
        0 <= n <= rows.len(),
    ensures
        incoming_ids(rows, key, n).contains(id) <==> has_incoming(rows, key, n, id),
        incoming_wires(rows, key, n).contains(wire) <==> has_wire(rows, key, n, wire),
    decreases n,
{
    if n > 0 {
        lemma_incoming(rows, key, n - 1, id, wire);
        let x = rows[n - 1];
        lemma_pushed(
            incoming_ids(rows, key, n - 1),
            incoming_ids(rows, key, n),
            x.id,
            id,
            is_received_as(x, key),
        );
        lemma_pushed(
            incoming_wires(rows, key, n - 1),
            incoming_wires(rows, key, n),
            x.package_id@,
            wire,
            is_received_as(x, key),
        );
        if has_incoming(rows, key, n - 1, id) {
            let k = choose|k: int|
                0 <= k < n - 1 && #[trigger] is_received_as(rows[k], key) && rows[k].id == id;
            assert(is_received_as(rows[k], key) && rows[k].id == id);
        }
        if has_wire(rows, key, n - 1, wire) {
            let k = choose|k: int|
                0 <= k < n - 1 && #[trigger] is_received_as(rows[k], key) && rows[k].package_id@
                    == wire;
            assert(is_received_as(rows[k], key) && rows[k].package_id@ == wire);
        }
    }
}

/// Removing a transfer that was received removes all of its attempts and nothing
/// else, lets go of what each of them holds under its id on the wire, and removes the
/// entries of the log under its identity and under those ids. It is refused just
/// where some attempt has not come to its end.
pub proof fn law_received_transfer_goes_whole_or_not_at_all(
    records: TransferRecords,
    name: &str,
    r: Result<Deletion, ApiError>,
    id: i64,
    wire: Seq<char>,
)
    requires
        call_ensures(delete_transfer_history, (&records, Direction::Received, name), r),
    ensures
        r is Err <==> exists|k: int|
            0 <= k < records.received@.len() && #[trigger] is_received_as(records.received@[k], name@) && !is_over(
                records.received@[k].state,
            ),
        r matches Ok(d) ==> {
            let n = records.received@.len() as int;
            &&& d.cancelled@.len() == 0
            &&& d.removed@.contains(id) <==> has_incoming(records.received@, name@, n, id)
            &&& d.record.rows == d.removed@.len()
            &&& d.reclaim matches Reclaim::Tags(wires) && (texts(wires@).contains(wire)
                <==> has_wire(records.received@, name@, n, wire))
            &&& texts(d.log_keys@).to_set().contains(wire) <==> wire == name@ || has_wire(
                records.received@,
                name@,
                n,
                wire,
            )
            &&& d.record.history == logged(
                records.log@,
                Direction::Received,
                texts(d.log_keys@).to_set(),
                records.log@.len() as int,
            )
        },
{
    let rows = records.received@;
    let log = records.log@;
    let key = name@;
    let n = rows.len() as int;
    lemma_incoming(rows, key, n, id, wire);
    if r is Ok {
        let keys = texts(r->Ok_0.log_keys@).to_set();
        lemma_logged(log, Direction::Received, keys, log.len() as int);
    }
    if exists|k: int|
        0 <= k < rows.len() && #[trigger] is_received_as(rows[k], key) && !is_over(rows[k].state) {
        let k = choose|k: int|
            0 <= k < rows.len() && #[trigger] is_received_as(rows[k], key) && !is_over(
                rows[k].state,
            );
        assert(is_incoming(rows[k], key));
        assert(some_incoming_open(rows, key, n));
    }
    if some_incoming_open(rows, key, n) {
        let k = choose|k: int|
            0 <= k < n && is_incoming(#[trigger] rows[k], key)
                && !rows[k].state.terminal();
        assert(is_received_as(rows[k], key));
    }
}

/// A transfer is sent again just where it is on record, failed or was cancelled, and
/// its files are there; and as another transfer just where it was cancelled because
/// the receiver has declined it.
pub proof fn law_only_an_ended_transfer_is_sent_again(
    id: i64,
    row: Option<OutboundRow>,
    has_payload: bool,
    declined: &str,
    r: Result<Resend, ApiError>,
)
    requires
        call_ensures(resend_transfer, (id, &row, has_payload, declined), r) || call_ensures(
            retry_sync_package,
            (id, &row, has_payload, declined),
            r,
        ),
    ensures
        told(r) is Ok <==> has_payload && (
        row matches Some(x) && (x.state == OutboundState::Failed || x.state
            == OutboundState::Cancelled)),
        told(r) == Ok::<Resend, Refusal>(Resend::NewTransfer)
            <==> has_payload && (row matches Some(x) && x.state == OutboundState::Cancelled
            && is_text(x.last_error, declined@)),
        row is None ==> told(r) == Err::<Resend, Refusal>(
            Refusal::Invalid("unknown package id "@ + signed_decimal(id as int)),
        ),
        row matches Some(x) && (x.state == OutboundState::Failed || x.state
            == OutboundState::Cancelled) && !has_payload ==> told(r) == Err::<Resend, Refusal>(
            Refusal::Invalid(
                "package "@ + signed_decimal(id as int)
                    + " data is missing on disk; cannot resend"@,
            ),
        ),
{
}

/// A declined transfer goes out as another one with the same files, in the same
/// layout and under the same name, from a directory that lies where the old one lay
/// and has the fresh name. A directory that another transfer uses is left alone.
pub proof fn law_declined_transfer_goes_out_anew(
    row: OutboundRow,
    refs: Vec<PackageRef>,
    files: Vec<TransferFileRow>,
    fresh: &str,
    r: Result<DeclinedResend, ApiError>,
    k: int,
)
    requires
        call_ensures(resend_declined_as_new_transfer, (&row, &refs, &files, fresh), r),
    ensures
        r is Err <==> parent(row.package_ref@) is None || exists|j: int|
            0 <= j < refs@.len() && (#[trigger] refs@[j]).id != row.id && refs@[j].package_ref@
                == row.package_ref@,
        r matches Ok(p) ==> {
            &&& p.old_id == row.id
            &&& p.old_ref@ == row.package_ref@
            &&& parent(row.package_ref@) matches Some(dir) && p.new_ref@ == joined(dir, fresh@)
            &&& p.layout == row.layout
            &&& match row.display_name {
                Some(d) => if is_blank(d@) {
                    p.display_name is None
                } else {
                    is_text(p.display_name, d@)
                },
                None => p.display_name is None,
            }
            &&& p.files@.len() == files@.len()
            &&& 0 <= k < files@.len() ==> {
                &&& p.files@[k].rel_path@ == files@[k].rel_path@
                &&& p.files@[k].byte_size == files@[k].byte_size
                &&& p.files@[k].frame_uuid@ == files@[k].frame_uuid@
            }
        },
{
}

/// The sending of a declined transfer as another one goes in order: the sender is
/// found, the directory is renamed, what points to it is moved, and only then is the
/// new transfer handed over. It ends well only with the id that the new transfer got,
/// once both transfers are told of each other; whatever fails before ends it with an
/// error.
pub proof fn law_resend_goes_in_order(
    p: DeclinedResend,
    from: ResendPhase,
    event: ResendEvent,
    to: ResendPhase,
    action: ResendAction,
)
    requires
        can_happen(from, event),
        call_ensures(resend_step, (&p, from, event), (to, action)),
    ensures
        action is Rename <==> from is Resolving && event is SenderReady,
        action is Rekey <==> from is Renaming && event is Renamed,
        action is Enqueue <==> from is Rekeying && event is Rekeyed,
        action is RenameBack <==> from is Enqueuing && event is EnqueueFailed,
        action is RekeyBack <==> from is RenamingBack && event == ResendEvent::RenamedBack(true),
        action is Journal <==> from is Enqueuing && event is Enqueued,
        action is Rename ==> to is Renaming,
        action is Rekey ==> to is Rekeying,
        action is Enqueue ==> to is Enqueuing,
        action is RenameBack ==> to is RenamingBack,
        action is RekeyBack ==> to is RekeyingBack,
        action is Finish <==> to is Ended,
        event matches ResendEvent::Enqueued(id) ==> to == ResendPhase::Journaling(id),
        action matches ResendAction::Finish(Ok(id)) ==> from == ResendPhase::Journaling(id)
            && event is Journaled,
        from is Journaling && action is Finish ==> action == ResendAction::Finish(
            Ok::<i64, ApiError>(from->Journaling_0),
        ),
        event is SenderFailed || event is RenameFailed || event is CatalogGone || event
            is RekeyedBack || event == ResendEvent::RenamedBack(false) ==> (
        action matches ResendAction::Finish(Err(_))),
        action matches ResendAction::Journal { of_old, of_new } ==> {
            &&& event matches ResendEvent::Enqueued(id) && of_old@ == "as_new_transfer="@
                + signed_decimal(id as int)
            &&& of_new@ == "of_declined="@ + signed_decimal(p.old_id as int)
        },
{
}

/// What is done to stop a transfer that is received, for each state that it can be
/// in and whether a receiver runs or not.
pub proof fn law_stopping_fits_the_state(
    row: Option<InboundRow>,
    live: bool,
    r: Result<CancelIncoming, ApiError>,
)
    requires
        call_ensures(cancel_incoming_package, (&row, live), r),
    ensures
        row is None ==> told(r) == Ok::<CancelIncoming, Refusal>(
            CancelIncoming { stamp_declined: false, signal: live, stamp_cancelled: false },
        ),
        told(r) is Err <==> (row matches Some(x) && x.state
            == InboundState::Ingesting),
        row matches Some(x) ==> (told(r) matches Ok(c) ==> match x.state {
            InboundState::Announced | InboundState::Waiting => c.stamp_declined && c.stamp_cancelled
                && c.signal == live,
            InboundState::Fetching => c.stamp_declined && c.stamp_cancelled == !live && c.signal
                == live,
            InboundState::Ingesting => false,
            InboundState::Done => !c.stamp_declined && !c.stamp_cancelled && !c.signal,
            InboundState::Failed | InboundState::Cancelled => c.stamp_declined
                && !c.stamp_cancelled && !c.signal,
        }),
{
}

proof fn lemma_active_place(
    rows: Seq<ActiveRow>,
    id: i64,
    i: int,
)
    requires
        0 <= i <= rows.len(),
    ensures
        i <= active_place(rows, id, i) <= rows.len(),
        active_place(rows, id, i) < rows.len() ==> rows[active_place(rows, id, i)].id == id,
        forall|k: int| i <= k < active_place(rows, id, i) ==> (#[trigger] rows[k]).id != id,
    decreases rows.len() - i,
{
    if i < rows.len() && rows[i].id != id {
        lemma_active_place(rows, id, i + 1);
    }
}

/// Whether the sender at `i` knows the transfer to go to the device.
pub open spec fn knows(
    senders: Seq<RunningSender>,
    i: int,
    id: i64,
    peer: NodeId,
) -> bool {
    senders[i].rows matches Ok(rows) && exists|k: int|
        0 <= k < rows@.len() && (#[trigger] rows@[k]).id == id && rows@[k].peer == peer
}

/// Whether some sender sends to the device.
pub open spec fn is_served(senders: Seq<RunningSender>, peer: NodeId) -> bool {
    exists|j: int| 0 <= j < senders.len() && (#[trigger] senders[j]).peer@ == peer@
}

proof fn lemma_command_device(
    senders: Seq<RunningSender>,
    id: i64,
    i: int,
)
    requires
        0 <= i <= senders.len(),
    ensures
        sender_verdict(senders, id, i) matches Ok(peer) ==> {
            &&& exists|j: int| i <= j < senders.len() && #[trigger] knows(senders, j, id, peer)
            &&& is_served(senders, peer)
        },
        (forall|j: int|
            i <= j < senders.len() ==> ((#[trigger] senders[j]).rows matches Ok(rows) && forall|
                k: int,
            |
                0 <= k < rows@.len() ==> (#[trigger] rows@[k]).id != id)) ==> sender_verdict(
            senders,
            id,
            i,
        ) == Err::<NodeId, Refusal>(Refusal::Invalid("package is not active"@)),
    decreases senders.len() - i,
{
    if i < senders.len() {
        lemma_command_device(senders, id, i + 1);
        match senders[i].rows {
            Ok(rows) => {
                lemma_active_place(rows@, id, 0);
                let k = active_place(rows@, id, 0);
                if k < rows@.len() {
                    let peer = rows@[k].peer;
                    assert(rows@[k].id == id);
                    assert(knows(senders, i, id, peer));
                    if runs_for(senders, peer) {
                        let j = choose|j: int|
                            0 <= j < senders.len() && (#[trigger] senders[j]).peer@ == peer@;
                        assert(senders[j].peer@ == peer@);
                        assert(is_served(senders, peer));
                        assert(sender_verdict(senders, id, i) == Ok::<NodeId, Refusal>(peer));
                    }
                } else {
                    assert(sender_verdict(senders, id, i) == sender_verdict(senders, id, i + 1));
                    if sender_verdict(senders, id, i + 1) is Ok {
                        let peer = sender_verdict(senders, id, i + 1)->Ok_0;
                        let j = choose|j: int|
                            i + 1 <= j < senders.len() && #[trigger] knows(senders, j, id, peer);
                        assert(knows(senders, j, id, peer));
                    }
                }
            },
            Err(_) => {},
        }
    }
}

/// A command for a transfer goes to the device that the transfer goes to, and only
/// where a sender for that device runs; where no sender knows the transfer, and all
/// of them can tell, it is not active.
pub proof fn law_command_goes_to_the_transfers_device(
    senders: Vec<RunningSender>,
    id: i64,
    r: Result<NodeId, ApiError>,
)
    requires
        call_ensures(send_now_sync_package, (&senders, id), r) || call_ensures(
            cancel_sync_package,
            (&senders, id),
            r,
        ) || call_ensures(active_engine_for_row, (&senders, id), r),
    ensures
        r matches Ok(peer) ==> {
            &&& exists|j: int| 0 <= j < senders@.len() && #[trigger] knows(senders@, j, id, peer)
            &&& is_served(senders@, peer)
        },
        (forall|j: int|
            0 <= j < senders@.len() ==> ((#[trigger] senders@[j]).rows matches Ok(rows) && forall|
                k: int,
            |
                0 <= k < rows@.len() ==> (#[trigger] rows@[k]).id != id)) ==> told(r) == Err::<
            NodeId,
            Refusal,
        >(Refusal::Invalid("package is not active"@)),
{
    lemma_command_device(senders@, id, 0);
}

/// What a sender could not do is told to the user as what it was, of which transfer,
/// and why.
pub proof fn law_failed_command_is_told(
    command: SenderCommand,
    id: i64,
    answer: Result<(), String>,
    r: Result<(), ApiError>,
)
    requires
        call_ensures(answer_command, (command, id, answer), r),
    ensures
        answer is Ok <==> told(r) is Ok,
        answer matches Err(why) ==> (told(r) matches Err(
            Refusal::Internal(m),
        ) && m == (match command {
            SenderCommand::SendNow => "send-now package "@,
            SenderCommand::Cancel => "cancel package "@,
            SenderCommand::Resend => "re-drive resend "@,
        }) + signed_decimal(id as int) + ": "@ + why@),
{
}

/// A transfer that starts over keeps what it is and loses how it ended: it is queued,
/// one more attempt is counted, and it goes by the new id on the wire; each of its
/// files is pending again, with nothing sent of it.
pub proof fn law_a_transfer_starts_over(
    row: OutboundRow,
    files: Vec<TransferFileRow>,
    wire_id: &str,
    r: (OutboundRow, Vec<TransferFileRow>),
    k: int,
)
    requires
        call_ensures(reset_row, (row, files, wire_id), r),
    ensures
        ({
            let after = r.0;
            &&& after.id == row.id
            &&& after.peer == row.peer
            &&& after.package_ref@ == row.package_ref@
            &&& after.display_name == row.display_name
            &&& after.layout == row.layout
            &&& after.generation == row.generation
            &&& after.created_at@ == row.created_at@
            &&& after.state == OutboundState::Queued
            &&& after.attempts == row.attempts + 1
            &&& after.next_retry_at is None
            &&& after.last_error is None
            &&& after.confirmed_at is None
            &&& is_text(after.wire_package_id, wire_id@)
        }),
        r.1@.len() == files@.len(),
        0 <= k < files@.len() ==> {
            &&& r.1@[k].rel_path@ == files@[k].rel_path@
            &&& r.1@[k].byte_size == files@[k].byte_size
            &&& r.1@[k].frame_uuid@ == files@[k].frame_uuid@
            &&& r.1@[k].state@ == "pending"@
            &&& r.1@[k].bytes_done == 0
            &&& r.1@[k].outcome is None
            &&& r.1@[k].error is None
        },
{
    if 0 <= k < files@.len() {
        assert(is_reset_file(r.1@[k], files@[k]));
    }
}

/// That the user has declined a transfer goes on record once and for good, and never
/// of one whose frames are coming in or are in. Nothing else changes.
pub proof fn law_declining_is_noted_once(row: &mut InboundRow, now: &str)
    requires
        call_ensures(stamp_declined, (row, now), ()),
    ensures
        ({
            let before = *old(row);
            let after = *final(row);
            &&& before.declined_at is Some ==> is_text(
                after.declined_at,
                before.declined_at->0@,
            )
            &&& before.state == InboundState::Ingesting || before.state == InboundState::Done ==> (
            after.declined_at is Some <==> before.declined_at is Some)
            &&& before.declined_at is None && before.state != InboundState::Ingesting
                && before.state != InboundState::Done ==> is_text(after.declined_at, now@)
            &&& after.id == before.id
            &&& after.state == before.state
            &&& after.finished_at == before.finished_at
            &&& after.package_id@ == before.package_id@
        }),
{
}

/// A transfer that the user has stopped is closed as cancelled, now. Nothing else
/// changes.
pub proof fn law_stopping_closes_the_record(row: &mut InboundRow, now: &str)
    requires
        call_ensures(stamp_cancelled, (row, now), ()),
    ensures
        final(row).state == InboundState::Cancelled,
        is_text(final(row).finished_at, now@),
        final(row).id == old(row).id,
        final(row).package_id@ == old(row).package_id@,
        final(row).declined_at == old(row).declined_at,
        final(row).bytes_done == old(row).bytes_done,
{
}

} // verus!
