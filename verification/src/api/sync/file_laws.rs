//! What is told of the files of a transfer and of what happened to it, and where a
//! transfer may go.

use crate::api::error::ApiError;
use crate::api::sync::node_id::{
    law_hex_tells_nodes_apart, law_node_id_round_trip, list_holds_node, node_id_from_hex,
    node_id_hex, same_node, NodeId,
};
use crate::api::sync::peers::{base64_bytes, AccountDevice};
use crate::api::sync::rows::{Direction, HistoryRow};
use crate::api::sync::status_laws::is_text;
use crate::api::sync::summaries::outbound_package_key;
use crate::api::sync::transfer_files::{
    batch_log, detail_filename, device_place, event_places, first_places, frame_met,
    get_sync_device_capabilities, get_sync_device_names, is_destination, last_slash,
    list_transfer_events, list_transfer_files, of_batch, received_transfer_files,
    resolve_dest_node, sent_transfer_files, settled_outcome, shows_event, shows_history,
    shows_record, shows_row, ReceivedSources, ResolvedDest, SentSources, SyncEventRow,
    TransferEventEntry, TransferFileEntry, TransferFileRow, DETAIL_HISTORY_LIMIT,
};
use crate::text::signed_decimal;
use crate::text_map::TextMap;
use vstd::prelude::*;

verus! {

proof fn lemma_last_slash_is_last(s: Seq<char>, n: int)
    requires
        0 <= n <= s.len(),
    ensures
        match last_slash(s, n) {
            Some(i) => {
                &&& 0 <= i < n
                &&& s[i] == '/'
                &&& forall|k: int| i < k < n ==> #[trigger] s[k] != '/'
            },
            None => forall|k: int| 0 <= k < n ==> #[trigger] s[k] != '/',
        },
    decreases n,
{
    if n > 0 && s[n - 1] != '/' {
        lemma_last_slash_is_last(s, n - 1);
    }
}

/// The name of a file is what stands behind the last slash of its path: it holds no
/// slash, and the path is the name alone or ends in a slash and the name.
pub proof fn law_a_file_name_is_behind_the_last_slash(path: &str, r: String)
    requires
        call_ensures(detail_filename, (path,), r),
    ensures
        forall|i: int| 0 <= i < r@.len() ==> #[trigger] r@[i] != '/',
        r@ == path@ || exists|dir: Seq<char>| #[trigger] (dir + seq!['/'] + r@) == path@,
{
    let s = path@;
    lemma_last_slash_is_last(s, s.len() as int);
    if let Some(i) = last_slash(s, s.len() as int) {
        assert(s.take(i) + seq!['/'] + r@ =~= s);
    }
}

/// Whether an entry tells of a file that is on record what the record says.
pub open spec fn tells_of_row(e: TransferFileEntry, f: TransferFileRow) -> bool {
    &&& e.rel_path@ == f.rel_path@
    &&& e.bytes_total == f.byte_size
    &&& e.bytes_done == Some(f.bytes_done)
    &&& is_text(e.state, f.state@)
    &&& e.outcome == f.outcome
    &&& e.error == f.error
}

proof fn lemma_batch_log(
    log: Seq<HistoryRow>,
    direction: Direction,
    key: Seq<char>,
    n: int,
    h: HistoryRow,
)
    requires
        0 <= n <= log.len(),
    ensures
        batch_log(log, direction, key, n).len() <= n,
        batch_log(log, direction, key, n).contains(h) ==> log.take(n).contains(h) && of_batch(
            h,
            direction,
            key,
        ),
        log.len() <= DETAIL_HISTORY_LIMIT && log.take(n).contains(h) && of_batch(h, direction, key)
            ==> batch_log(log, direction, key, n).contains(h),
    decreases n,
{
    if n > 0 {
        lemma_batch_log(log, direction, key, n - 1, h);
        let now = log.take(n);
        let before = log.take(n - 1);
        assert(now =~= before.push(log[n - 1]));
        let rest = batch_log(log, direction, key, n - 1);
        if before.contains(h) {
            let k = choose|k: int| 0 <= k < before.len() && before[k] == h;
            assert(now[k] == h);
        }
        if h == log[n - 1] {
            assert(now[n - 1] == h);
            assert(rest.push(log[n - 1])[rest.len() as int] == h);
        }
        if rest.contains(h) {
            let k = choose|k: int| 0 <= k < rest.len() && rest[k] == h;
            assert(rest.push(log[n - 1])[k] == h);
        }
    }
}

proof fn lemma_settled(log: Seq<HistoryRow>, frame: Seq<char>, i: int)
    requires
        0 <= i <= log.len(),
    ensures
        settled_outcome(log, frame, i) matches Some(o) ==> exists|k: int|
            i <= k < log.len() && (#[trigger] log[k]).finished_at is Some && log[k].frame_uuid@
                == frame && log[k].outcome@ == o,
        settled_outcome(log, frame, i) is None ==> forall|k: int|
            i <= k < log.len() && (#[trigger] log[k]).finished_at is Some ==> log[k].frame_uuid@
                != frame,
    decreases log.len() - i,
{
    if i < log.len() && !(log[i].finished_at is Some && log[i].frame_uuid@ == frame) {
        lemma_settled(log, frame, i + 1);
    }
}

/// The files of a sent transfer that are on record are told as they are on record;
/// of a transfer that is not there none is told.
pub proof fn law_sent_files_are_those_on_record(
    id: i64,
    s: SentSources,
    r: Result<Vec<TransferFileEntry>, ApiError>,
)
    requires
        call_ensures(sent_transfer_files, (id, &s), r),
    ensures
        s.row is None ==> r is Err,
        s.row is Some && s.file_rows@.len() > 0 ==> (r matches Ok(es) && es@.len()
            == s.file_rows@.len() && forall|k: int|
            0 <= k < es@.len() ==> tells_of_row(#[trigger] es@[k], s.file_rows@[k])),
        s.row is Some && s.file_rows@.len() == 0 ==> (r is Err <==> s.manifest is Err),
{
    if s.row is Some && s.file_rows@.len() > 0 {
        if let Ok(es) = r {
            assert forall|k: int| 0 <= k < es@.len() implies tells_of_row(
                #[trigger] es@[k],
                s.file_rows@[k],
            ) by {
                assert(shows_row(es@[k], s.file_rows@[k]));
            }
        }
    }
}

/// Where no file of a sent transfer is on record, those of its manifest are told, each
/// with the outcome that a finished entry of the log has for the file, sent with this
/// very package; a file without such an entry has none.
pub proof fn law_outcomes_of_old_transfers_are_of_the_package(
    id: i64,
    s: SentSources,
    es: Vec<TransferFileEntry>,
    package: &str,
    key: String,
    k: int,
)
    requires
        call_ensures(sent_transfer_files, (id, &s), Ok(es)),
        s.row matches Some(row) && row.package_ref@ == package@,
        call_ensures(outbound_package_key, (package,), key),
        s.file_rows@.len() == 0,
        0 <= k < es@.len(),
        s.log@.len() <= 100_000,
    ensures
        s.manifest matches Ok(records) && records@.len() == es@.len() && {
            let e = es@[k];
            let f = records@[k];
            &&& e.rel_path@ == f.rel_path@
            &&& e.bytes_total == f.byte_size
            &&& e.bytes_done is None
            &&& e.state is None
            &&& e.error is None
            &&& e.outcome matches Some(o) ==> exists|h: HistoryRow| #[trigger]
                s.log@.contains(h) && h.direction is Sent && is_text(h.package_id, key@)
                    && h.finished_at is Some && h.frame_uuid@ == f.frame_uuid@ && h.outcome@ == o@
            &&& e.outcome is None ==> forall|h: HistoryRow| #[trigger]
                s.log@.contains(h) && h.direction is Sent && is_text(h.package_id, key@)
                    && h.finished_at is Some ==> h.frame_uuid@ != f.frame_uuid@
        },
{
    let records = s.manifest->Ok_0;
    let f = records@[k];
    let n = s.log@.len() as int;
    let batch = batch_log(s.log@, Direction::Sent, key@, n);
    assert(shows_record(es@[k], f, settled_outcome(batch, f.frame_uuid@, 0)));
    lemma_settled(batch, f.frame_uuid@, 0);
    assert(s.log@.take(n) =~= s.log@);
    if es@[k].outcome is Some {
        let j = choose|j: int|
            0 <= j < batch.len() && (#[trigger] batch[j]).finished_at is Some
                && batch[j].frame_uuid@ == f.frame_uuid@ && batch[j].outcome@
                == es@[k].outcome->Some_0@;
        lemma_batch_log(s.log@, Direction::Sent, key@, n, batch[j]);
        assert(batch.contains(batch[j]));
        assert(s.log@.contains(batch[j]));
    } else {
        assert forall|h: HistoryRow| #[trigger]
            s.log@.contains(h) && h.direction is Sent && is_text(h.package_id, key@)
                && h.finished_at is Some implies h.frame_uuid@ != f.frame_uuid@ by {
            lemma_batch_log(s.log@, Direction::Sent, key@, n, h);
            assert(of_batch(h, Direction::Sent, key@));
            let j = choose|j: int| 0 <= j < batch.len() && batch[j] == h;
            assert(batch[j].finished_at is Some);
        }
    }
}

proof fn lemma_first_places(log: Seq<HistoryRow>, n: int)
    requires
        0 <= n <= log.len(),
    ensures
        forall|k: int|
            0 <= k < first_places(log, n).len() ==> 0 <= #[trigger] first_places(log, n)[k] < n,
        forall|a: int, b: int|
            #![trigger first_places(log, n)[a], first_places(log, n)[b]]
            0 <= a < b < first_places(log, n).len() ==> first_places(log, n)[a]
                < first_places(log, n)[b] && log[first_places(log, n)[a]].frame_uuid@
                != log[first_places(log, n)[b]].frame_uuid@,
    decreases n,
{
    if n > 0 {
        lemma_first_places(log, n - 1);
        let before = first_places(log, n - 1);
        let now = first_places(log, n);
        assert forall|a: int, b: int|
            #![trigger now[a], now[b]]
            0 <= a < b < now.len() implies now[a] < now[b] && log[now[a]].frame_uuid@
            != log[now[b]].frame_uuid@ by {
            if b < before.len() {
                assert(before[a] < before[b]);
            } else {
                assert(now[a] == before[a]);
                if log[before[a]].frame_uuid@ == log[n - 1].frame_uuid@ {
                    assert(frame_met(log, n - 1, log[n - 1].frame_uuid@));
                }
            }
        }
    }
}

proof fn lemma_each_frame_has_a_place(log: Seq<HistoryRow>, n: int, j: int) -> (k: int)
    requires
        0 <= j < n <= log.len(),
    ensures
        0 <= k < first_places(log, n).len(),
        log[first_places(log, n)[k]].frame_uuid@ == log[j].frame_uuid@,
    decreases n,
{
    let before = first_places(log, n - 1);
    if j < n - 1 {
        lemma_each_frame_has_a_place(log, n - 1, j)
    } else if frame_met(log, n - 1, log[n - 1].frame_uuid@) {
        let i = choose|i: int|
            0 <= i < n - 1 && (#[trigger] log[i]).frame_uuid@ == log[n - 1].frame_uuid@;
        lemma_each_frame_has_a_place(log, n - 1, i)
    } else {
        before.len() as int
    }
}

/// Whether an entry tells of a file what an entry of the log says.
pub open spec fn tells_of_history(e: TransferFileEntry, h: HistoryRow) -> bool {
    &&& e.rel_path@ == h.filename@
    &&& e.name@ == h.filename@
    &&& e.bytes_total == h.bytes
    &&& e.bytes_done == Some(h.bytes)
    &&& is_text(e.outcome, h.outcome@)
    &&& e.state is None
    &&& e.error is None
}

/// Whether an entry of the log is of a package that was received.
pub open spec fn is_received_with(h: HistoryRow, package: Seq<char>) -> bool {
    h.direction is Received && is_text(h.package_id, package)
}

/// Whether some entry tells of a file of the log, or of the same file in another
/// entry of it.
pub open spec fn is_told(es: Seq<TransferFileEntry>, log: Seq<HistoryRow>, h: HistoryRow) -> bool {
    exists|k: int, g: HistoryRow|
        0 <= k < es.len() && log.contains(g) && g.frame_uuid@ == h.frame_uuid@
            && #[trigger] tells_of_history(es[k], g)
}

/// The files of a received transfer that are on record are told as they are on
/// record. Where none is, those of the manifest are told until the transfer comes to
/// its end, without an outcome; nothing is told before a manifest has arrived.
pub proof fn law_received_files_are_those_on_record(
    id: i64,
    s: ReceivedSources,
    r: Result<Vec<TransferFileEntry>, ApiError>,
)
    requires
        call_ensures(received_transfer_files, (id, &s), r),
    ensures
        r is Err <==> s.row is None,
        s.row is Some && s.file_rows@.len() > 0 ==> (r matches Ok(es) && es@.len()
            == s.file_rows@.len() && forall|k: int|
            0 <= k < es@.len() ==> tells_of_row(#[trigger] es@[k], s.file_rows@[k])),
        s.file_rows@.len() == 0 && (s.row matches Some(row) && !(row.state is Done || row.state
            is Failed || row.state is Cancelled)) ==> (r matches Ok(es) && match s.staged {
            None => es@.len() == 0,
            Some(records) => es@.len() == records@.len() && forall|k: int|
                0 <= k < es@.len() ==> (#[trigger] es@[k]).rel_path@ == records@[k].rel_path@
                    && es@[k].bytes_total == records@[k].byte_size && es@[k].outcome is None
                    && es@[k].bytes_done is None,
        }),
{
    if s.row is Some {
        if let Ok(es) = r {
            if s.file_rows@.len() > 0 {
                assert forall|k: int| 0 <= k < es@.len() implies tells_of_row(
                    #[trigger] es@[k],
                    s.file_rows@[k],
                ) by {
                    assert(shows_row(es@[k], s.file_rows@[k]));
                }
            } else if !(s.row->Some_0.state is Done || s.row->Some_0.state is Failed
                || s.row->Some_0.state is Cancelled) {
                if let Some(records) = s.staged {
                    assert forall|k: int| 0 <= k < es@.len() implies (#[trigger] es@[k]).rel_path@
                        == records@[k].rel_path@ && es@[k].bytes_total == records@[k].byte_size
                        && es@[k].outcome is None && es@[k].bytes_done is None by {
                        assert(shows_record(
                            es@[k],
                            records@[k],
                            settled_outcome(Seq::empty(), records@[k].frame_uuid@, 0),
                        ));
                    }
                }
            }
        }
    }
}

/// Of a received transfer that has come to its end without files on record, the log
/// tells: only of what was received with this very package, and of every file of it.
pub proof fn law_the_log_tells_of_ended_transfers(
    id: i64,
    s: ReceivedSources,
    es: Vec<TransferFileEntry>,
    h: HistoryRow,
    k: int,
)
    requires
        call_ensures(received_transfer_files, (id, &s), Ok(es)),
        s.file_rows@.len() == 0,
        s.row matches Some(row) && (row.state is Done || row.state is Failed || row.state
            is Cancelled),
        s.log@.len() <= 100_000,
    ensures
        0 <= k < es@.len() ==> exists|g: HistoryRow| #[trigger]
            s.log@.contains(g) && is_received_with(g, s.row->Some_0.package_id@)
                && tells_of_history(es@[k], g),
        s.log@.contains(h) && is_received_with(h, s.row->Some_0.package_id@) ==> is_told(
            es@,
            s.log@,
            h,
        ),
{
    let key = s.row->Some_0.package_id@;
    let n = s.log@.len() as int;
    let batch = batch_log(s.log@, Direction::Received, key, n);
    let places = first_places(batch, batch.len() as int);
    lemma_first_places(batch, batch.len() as int);
    assert(s.log@.take(n) =~= s.log@);
    if 0 <= k < es@.len() {
        let g = batch[places[k]];
        assert(shows_history(es@[k], g));
        lemma_batch_log(s.log@, Direction::Received, key, n, g);
        assert(batch.contains(g));
        assert(s.log@.contains(g));
    }
    if s.log@.contains(h) && is_received_with(h, key) {
        lemma_batch_log(s.log@, Direction::Received, key, n, h);
        assert(of_batch(h, Direction::Received, key));
        let j = choose|j: int| 0 <= j < batch.len() && batch[j] == h;
        let at = lemma_each_frame_has_a_place(batch, batch.len() as int, j);
        let g = batch[places[at]];
        assert(shows_history(es@[at], g));
        lemma_batch_log(s.log@, Direction::Received, key, n, g);
        assert(batch.contains(g));
        assert(tells_of_history(es@[at], g));
    }
}

/// The files of a transfer are told by what is known of transfers of its direction.
pub proof fn law_files_are_told_by_direction(
    id: i64,
    sent: SentSources,
    received: ReceivedSources,
    r: Result<Vec<TransferFileEntry>, ApiError>,
    q: Result<Vec<TransferFileEntry>, ApiError>,
)
    requires
        call_ensures(list_transfer_files, (Direction::Sent, id, &sent, &received), r),
        call_ensures(list_transfer_files, (Direction::Received, id, &sent, &received), q),
    ensures
        sent.row is None ==> r is Err,
        r is Err ==> sent.row is None || (sent.file_rows@.len() == 0 && sent.manifest is Err),
        sent.row is Some && sent.file_rows@.len() > 0 ==> r->Ok_0@.len() == sent.file_rows@.len(),
        q is Err <==> received.row is None,
        received.row is Some && received.file_rows@.len() > 0 ==> q->Ok_0@.len()
            == received.file_rows@.len(),
{
}

/// Whether an event is one of a transfer.
pub open spec fn happened_to(e: SyncEventRow, direction: Direction, id: i64) -> bool {
    e.direction == direction && e.batch_key@ == signed_decimal(id as int)
}

proof fn lemma_event_places(journal: Seq<SyncEventRow>, direction: Direction, id: i64, i: int)
    requires
        0 <= i <= journal.len(),
    ensures
        forall|k: int|
            #![trigger event_places(journal, direction, id, i)[k]]
            0 <= k < event_places(journal, direction, id, i).len() ==> i <= event_places(
                journal,
                direction,
                id,
                i,
            )[k] < journal.len() && happened_to(
                journal[event_places(journal, direction, id, i)[k]],
                direction,
                id,
            ),
        forall|a: int, b: int|
            #![trigger event_places(journal, direction, id, i)[a], event_places(journal, direction, id, i)[b]]
            0 <= a < b < event_places(journal, direction, id, i).len() ==> event_places(
                journal,
                direction,
                id,
                i,
            )[a] > event_places(journal, direction, id, i)[b],
    decreases journal.len() - i,
{
    if i < journal.len() {
        lemma_event_places(journal, direction, id, i + 1);
        let rest = event_places(journal, direction, id, i + 1);
        let now = event_places(journal, direction, id, i);
        assert forall|k: int| #![trigger now[k]] 0 <= k < now.len() implies i <= now[k]
            < journal.len() && happened_to(journal[now[k]], direction, id) by {
            if k < rest.len() {
                assert(now[k] == rest[k]);
            }
        }
        assert forall|a: int, b: int|
            #![trigger now[a], now[b]]
            0 <= a < b < now.len() implies now[a] > now[b] by {
            assert(now[a] == rest[a]);
            if b < rest.len() {
                assert(now[b] == rest[b]);
            }
        }
    }
}

proof fn lemma_event_has_a_place(
    journal: Seq<SyncEventRow>,
    direction: Direction,
    id: i64,
    i: int,
    j: int,
) -> (k: int)
    requires
        0 <= i <= j < journal.len(),
        happened_to(journal[j], direction, id),
    ensures
        0 <= k < event_places(journal, direction, id, i).len(),
        event_places(journal, direction, id, i)[k] == j,
    decreases journal.len() - i,
{
    let rest = event_places(journal, direction, id, i + 1);
    if i == j {
        rest.len() as int
    } else {
        lemma_event_has_a_place(journal, direction, id, i + 1, j)
    }
}

/// Whether an event is shown as it is in the journal.
pub open spec fn is_shown_as(t: TransferEventEntry, e: SyncEventRow) -> bool {
    t.ts@ == e.ts@ && t.kind@ == e.kind@ && t.detail == e.detail
}

/// What is shown of a transfer is what happened to it and nothing else, all of it, and
/// what is later in the journal comes first.
pub proof fn law_events_are_of_the_transfer_newest_first(
    journal: Vec<SyncEventRow>,
    direction: Direction,
    id: i64,
    r: Vec<TransferEventEntry>,
) -> (places: Seq<int>)
    requires
        call_ensures(list_transfer_events, (&journal, direction, id), r),
    ensures
        places.len() == r@.len(),
        forall|k: int|
            0 <= k < r@.len() ==> 0 <= #[trigger] places[k] < journal@.len() && happened_to(
                journal@[places[k]],
                direction,
                id,
            ) && is_shown_as(r@[k], journal@[places[k]]),
        forall|a: int, b: int| 0 <= a < b < places.len() ==> places[a] > places[b],
        forall|j: int|
            0 <= j < journal@.len() && happened_to(#[trigger] journal@[j], direction, id)
                ==> places.contains(j),
{
    let places = event_places(journal@, direction, id, 0);
    lemma_event_places(journal@, direction, id, 0);
    assert forall|k: int| 0 <= k < r@.len() implies 0 <= #[trigger] places[k] < journal@.len()
        && happened_to(journal@[places[k]], direction, id) && is_shown_as(
        r@[k],
        journal@[places[k]],
    ) by {
        assert(shows_event(r@[k], journal@[places[k]]));
    }
    assert forall|j: int|
        0 <= j < journal@.len() && happened_to(
            #[trigger] journal@[j],
            direction,
            id,
        ) implies places.contains(j) by {
        let k = lemma_event_has_a_place(journal@, direction, id, 0, j);
        assert(places[k] == j);
    }
    places
}

proof fn lemma_device_place(ds: Seq<AccountDevice>, id: Seq<char>, i: int)
    requires
        0 <= i <= ds.len(),
    ensures
        i <= device_place(ds, id, i) <= ds.len(),
        device_place(ds, id, i) < ds.len() ==> ds[device_place(ds, id, i)].id@ == id,
        forall|k: int| i <= k < device_place(ds, id, i) ==> (#[trigger] ds[k]).id@ != id,
    decreases ds.len() - i,
{
    if i < ds.len() && ds[i].id@ != id {
        lemma_device_place(ds, id, i + 1);
    }
}

/// A transfer goes only to a device of the account that can receive, and to its own
/// node and address. It goes to none that only sends, and to none without a key of
/// thirty-two bytes.
pub proof fn law_a_transfer_goes_only_to_a_receiver(
    devices: Vec<AccountDevice>,
    id: &str,
    fault: &str,
    r: Result<ResolvedDest, ApiError>,
)
    requires
        call_ensures(resolve_dest_node, (&devices, id, fault), r),
    ensures
        r matches Ok(d) ==> exists|k: int|
            0 <= k < devices@.len() && (#[trigger] devices@[k]).id@ == id@ && !(
            devices@[k].capability is Perseus) && base64_bytes(devices@[k].pubkey@) == Some(
                d.node@,
            ) && d.endpoint_addr == devices@[k].endpoint_addr,
        r is Err ==> forall|k: int|
            0 <= k < devices@.len() && (#[trigger] devices@[k]).id@ == id@ && (forall|j: int|
                0 <= j < k ==> (#[trigger] devices@[j]).id@ != id@) ==> devices@[k].capability
                is Perseus || !(base64_bytes(devices@[k].pubkey@) matches Some(b) && b.len()
                == 32),
        r matches Err(e) ==> e@ is Invalid,
{
    lemma_device_place(devices@, id@, 0);
    let i = device_place(devices@, id@, 0);
    assert(is_destination(devices@, id@, fault@, r));
    if r is Ok {
        assert(devices@[i].id@ == id@);
    } else {
        assert forall|k: int|
            0 <= k < devices@.len() && (#[trigger] devices@[k]).id@ == id@ && (forall|j: int|
                0 <= j < k ==> (#[trigger] devices@[j]).id@ != id@) implies devices@[k].capability
            is Perseus || !(base64_bytes(devices@[k].pubkey@) matches Some(b) && b.len()
            == 32) by {
            if i < k {
                assert(devices@[i].id@ == id@);
            }
            assert(i == k);
        }
    }
}

/// Nothing is known of the devices of an account that cannot be reached.
pub proof fn law_no_devices_without_the_account(names: TextMap, abilities: TextMap)
    requires
        call_ensures(get_sync_device_names, (None,), names),
        call_ensures(get_sync_device_capabilities, (None,), abilities),
    ensures
        names@ == Map::<Seq<char>, Seq<char>>::empty(),
        abilities@ == Map::<Seq<char>, Seq<char>>::empty(),
{
}

/// Reading the hexadecimal form of a node id gives the node id, and two node ids with
/// one hexadecimal form are the same.
pub proof fn law_node_ids_are_read_back(
    a: NodeId,
    b: NodeId,
    x: String,
    y: String,
    text: &str,
    back: Option<NodeId>,
    same: bool,
)
    requires
        call_ensures(node_id_hex, (&a,), x),
        call_ensures(node_id_hex, (&b,), y),
        text@ == x@,
        call_ensures(node_id_from_hex, (text,), back),
        call_ensures(same_node, (&a, &b), same),
    ensures
        back matches Some(n) && n@ == a@,
        same <==> x@ == y@,
        x@.len() == 64,
{
    law_node_id_round_trip(a@);
    if x@ == y@ {
        law_hex_tells_nodes_apart(a@, b@);
    }
}

/// A text that is not sixty-four characters long is no node id.
pub proof fn law_a_node_id_has_sixty_four_digits(text: &str, r: Option<NodeId>)
    requires
        call_ensures(node_id_from_hex, (text,), r),
    ensures
        r is Some ==> text@.len() == 64,
{
}

/// A list holds a node id exactly if one of its entries is that node id.
pub proof fn law_a_list_holds_its_nodes(ids: Vec<NodeId>, id: NodeId, r: bool)
    requires
        call_ensures(list_holds_node, (&ids, &id), r),
    ensures
        r <==> exists|i: int| 0 <= i < ids@.len() && (#[trigger] ids@[i])@ == id@,
{
}

} // verus!
