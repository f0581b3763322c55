//! What the lists of transfers hold, and what is said of each transfer in them.

use crate::api::error::ApiError;
use crate::api::sync::node_id::hex_of;
use crate::api::sync::rows::{
    HistoryRow, InboundRow, InboundState, OutboundRow, OutboundState, TransferFileCounts,
};
use crate::api::sync::settings_text::lines_of;
use crate::api::sync::status::{
    are_active_summaries, are_finished_received, are_finished_sent, are_queued_summaries,
    build_sender_status, finished_received, finished_sent, get_status, history_cap, is_active_batch,
    kept_map, list_history, list_terminal_transfers, moving_count, reported_rows, sender_rows,
    served_to, shown_places, terminal_cap, unfinished_places, waits_at_receiver, wanted_entries,
    EndedCounts, EngineReport, QueuedAnnounce, QueuedInboundSummary, ReceiverControl,
    ReceiverSources, SenderRows, StatusSettings, SyncHistoryQuery, SyncSenderStatus, SyncStatus,
    TerminalTransfers, TransportHealth,
};
use crate::api::sync::summaries::{
    inbound_summary, is_first_row, outbound_summary, stems_from, InboundSummary, OutboundSummary,
    RowFacts,
};
use crate::text::{holds_text, is_blank, same_but_ascii_case};
use crate::text_map::TextMap;
use std::collections::HashMap;
use vstd::prelude::*;

verus! {

/// Whether an optional text is the given one.
pub open spec fn is_text(v: Option<String>, t: Seq<char>) -> bool {
    v matches Some(s) && s@ == t
}

/// Whether an entry of the log has, for each field that is asked for, just that
/// value in the field of that name.
pub open spec fn agrees(q: SyncHistoryQuery, h: HistoryRow) -> bool {
    &&& q.filename matches Some(w) ==> h.filename@ == w@
    &&& q.object matches Some(w) ==> is_text(h.object, w@)
    &&& q.direction matches Some(d) ==> h.direction == d
    &&& q.peer matches Some(w) ==> h.peer_device@ == w@
    &&& q.project matches Some(w) ==> is_text(h.project, w@)
}

/// How many of the first `n` entries of the log agree with what is asked for.
pub open spec fn agreeing(q: SyncHistoryQuery, log: Seq<HistoryRow>, n: int) -> nat
    decreases n,
{
    if n <= 0 {
        0
    } else {
        agreeing(q, log, n - 1) + if agrees(q, log[n - 1]) {
            1nat
        } else {
            0nat
        }
    }
}

proof fn lemma_wanted_entries(
    q: SyncHistoryQuery,
    log: Seq<HistoryRow>,
    cap: nat,
    n: int,
    p: int,
)
    requires
        0 <= n <= log.len(),
    ensures
        ({
            let r = wanted_entries(q, log, cap, n);
            let count = agreeing(q, log, n);
            &&& r.len() == if count < cap {
                count
            } else {
                cap
            }
            &&& 0 <= p < n && agrees(q, log[p]) && agreeing(q, log, p) < cap ==> 0 <= agreeing(
                q,
                log,
                p,
            ) < r.len() && r[agreeing(q, log, p) as int] == log[p]
        }),
    decreases n,
{
    if n > 0 {
        lemma_wanted_entries(q, log, cap, n - 1, p);
    }
}

proof fn lemma_wanted_entry(
    q: SyncHistoryQuery,
    log: Seq<HistoryRow>,
    cap: nat,
    n: int,
    k: int,
) -> (p: int)
    requires
        0 <= n <= log.len(),
        0 <= k < wanted_entries(q, log, cap, n).len(),
    ensures
        0 <= p < n,
        wanted_entries(q, log, cap, n)[k] == log[p],
        agrees(q, log[p]),
        agreeing(q, log, p) == k,
    decreases n,
{
    let before = wanted_entries(q, log, cap, n - 1);
    if k < before.len() {
        lemma_wanted_entry(q, log, cap, n - 1, k)
    } else {
        lemma_wanted_entries(q, log, cap, n - 1, 0);
        n - 1
    }
}

/// A search of the log finds what is asked for and nothing else. Each entry that is
/// returned has, for the filename, the object, the direction, the peer and the
/// project that are asked for, just that value in the field of that name. Each entry
/// of the log that agrees in all of these is returned, in the order of the log,
/// unless as many as the limit stand before it; where no limit is given it is two
/// hundred.
pub proof fn law_history_is_what_is_asked_for(
    q: SyncHistoryQuery,
    entries: Vec<HistoryRow>,
    found: Vec<HistoryRow>,
    k: int,
    p: int,
)
    requires
        call_ensures(list_history, (&entries, &q), found),
    ensures
        ({
            let log = entries@;
            let r = found@;
            let cap = if q.limit == 0 {
                200
            } else {
                q.limit as nat
            };
            &&& r.len() <= cap
            &&& 0 <= k < r.len() ==> agrees(q, r[k]) && log.contains(r[k])
            &&& 0 <= p < log.len() && agrees(q, log[p]) && agreeing(q, log, p) < cap ==> agreeing(
                q,
                log,
                p,
            ) < r.len() && r[agreeing(q, log, p) as int] == log[p]
        }),
{
    let log = entries@;
    let r = found@;
    let cap = history_cap(q.limit) as nat;
    let n = log.len() as int;
    lemma_wanted_entries(q, log, cap, n, p);
    if 0 <= k < r.len() {
        let i = lemma_wanted_entry(q, log, cap, n, k);
        assert(log[i] == r[k]);
    }
}

/// Whether a transfer that is sent has come to its end.
pub open spec fn has_ended(state: OutboundState) -> bool {
    match state {
        OutboundState::Confirmed | OutboundState::Failed | OutboundState::Cancelled => true,
        OutboundState::Preparing | OutboundState::Queued | OutboundState::Announced
        | OutboundState::Transferring | OutboundState::Delivered => false,
    }
}

/// Whether a transfer that is received has come to its end.
pub open spec fn is_over(state: InboundState) -> bool {
    match state {
        InboundState::Done | InboundState::Failed | InboundState::Cancelled => true,
        InboundState::Announced | InboundState::Fetching | InboundState::Ingesting
        | InboundState::Waiting => false,
    }
}

/// How many of the first `n` transfers have ended.
pub open spec fn ended(rows: Seq<OutboundRow>, n: int) -> nat
    decreases n,
{
    if n <= 0 {
        0
    } else {
        ended(rows, n - 1) + if has_ended(rows[n - 1].state) {
            1nat
        } else {
            0nat
        }
    }
}

/// How many of the first `n` transfers are over.
pub open spec fn over(rows: Seq<InboundRow>, n: int) -> nat
    decreases n,
{
    if n <= 0 {
        0
    } else {
        over(rows, n - 1) + if is_over(rows[n - 1].state) {
            1nat
        } else {
            0nat
        }
    }
}

proof fn lemma_finished_sent(rows: Seq<OutboundRow>, cap: nat, n: int, p: int, k: int)
    requires
        0 <= n <= rows.len(),
    ensures
        ({
            let at = finished_sent(rows, cap, n);
            &&& at.len() == if ended(rows, n) < cap {
                ended(rows, n)
            } else {
                cap
            }
            &&& 0 <= p < n && has_ended(rows[p].state) && ended(rows, p) < cap ==> ended(rows, p)
                < at.len() && at[ended(rows, p) as int] == p
            &&& 0 <= k < at.len() ==> 0 <= at[k] < n && has_ended(rows[at[k]].state)
        }),
    decreases n,
{
    if n > 0 {
        lemma_finished_sent(rows, cap, n - 1, p, k);
    }
}

proof fn lemma_finished_received(rows: Seq<InboundRow>, cap: nat, n: int, p: int, k: int)
    requires
        0 <= n <= rows.len(),
    ensures
        ({
            let at = finished_received(rows, cap, n);
            &&& at.len() == if over(rows, n) < cap {
                over(rows, n)
            } else {
                cap
            }
            &&& 0 <= p < n && is_over(rows[p].state) && over(rows, p) < cap ==> over(rows, p)
                < at.len() && at[over(rows, p) as int] == p
            &&& 0 <= k < at.len() ==> 0 <= at[k] < n && is_over(rows[at[k]].state)
        }),
    decreases n,
{
    if n > 0 {
        lemma_finished_received(rows, cap, n - 1, p, k);
    }
}

/// How many finished transfers are listed: as many as are asked for, or else one
/// hundred, and never more than five hundred.
pub open spec fn listed_at_most(limit: Option<u32>) -> nat {
    match limit {
        Some(n) => if n > 500 {
            500
        } else {
            n as nat
        },
        None => 100,
    }
}

/// What a summary says of a transfer that is sent is what is on record of it.
pub open spec fn shows_sent(
    s: OutboundSummary,
    row: OutboundRow,
    facts: RowFacts,
    names: Map<Seq<char>, Seq<char>>,
    counts: Map<i64, TransferFileCounts>,
) -> bool {
    &&& s.id == row.id
    &&& s.state == row.state
    &&& s.attempts == row.attempts
    &&& s.generation == row.generation
    &&& s.created_at@ == row.created_at@
    &&& s.last_error == row.last_error
    &&& s.next_retry_at == row.next_retry_at
    &&& s.retrying <==> row.next_retry_at is Some
    &&& s.byte_size == facts.byte_size
    &&& s.file_count == facts.file_count
    &&& s.display_state@ == facts.display_state@
    &&& facts.display_state@ == "waiting"@ ==> s.stalled_until == row.next_retry_at
    &&& facts.display_state@ != "waiting"@ ==> s.stalled_until is None
    &&& match row.display_name {
        Some(n) => if is_blank(n@) {
            s.display_name is None
        } else {
            is_text(s.display_name, n@)
        },
        None => s.display_name is None,
    }
    &&& names.contains_key(hex_of(row.peer@)) ==> is_text(s.device_name, names[hex_of(row.peer@)])
    &&& !names.contains_key(hex_of(row.peer@)) ==> s.device_name is None
    &&& counts.contains_key(row.id) ==> s.file_counts == counts[row.id]
    &&& !counts.contains_key(row.id) ==> s.file_counts.total == 0 && s.file_counts.done == 0
        && s.file_counts.failed == 0
}

/// What a summary says of a transfer that is received is what is on record of it.
pub open spec fn shows_received(
    s: InboundSummary,
    row: InboundRow,
    names: Map<Seq<char>, Seq<char>>,
    kinds: Map<Seq<char>, Seq<char>>,
    counts: Map<i64, TransferFileCounts>,
) -> bool {
    &&& s.id == row.id
    &&& s.package_id@ == row.package_id@
    &&& s.state == row.state
    &&& s.generation == row.generation
    &&& s.frame_count == row.frame_count
    &&& s.byte_size == row.byte_size
    &&& s.bytes_done == row.bytes_done
    &&& s.created_at@ == row.created_at@
    &&& s.last_error == row.last_error
    &&& s.stalled_until is None
    &&& row.batch_uuid matches Some(b) ==> s.batch_uuid@ == b@
    &&& row.batch_uuid is None ==> s.batch_uuid@ == row.package_id@
    &&& row.peer_capability matches Some(c) ==> is_text(s.peer_kind, c@)
    &&& row.peer_capability is None && kinds.contains_key(row.peer@) ==> is_text(
        s.peer_kind,
        kinds[row.peer@],
    )
    &&& row.peer_capability is None && !kinds.contains_key(row.peer@) ==> s.peer_kind is None
    &&& match row.display_name {
        Some(n) => if is_blank(n@) {
            s.display_name is None
        } else {
            is_text(s.display_name, n@)
        },
        None => s.display_name is None,
    }
    &&& names.contains_key(row.peer@) ==> is_text(s.device_name, names[row.peer@])
    &&& !names.contains_key(row.peer@) ==> s.device_name is None
    &&& counts.contains_key(row.id) ==> s.file_counts == counts[row.id]
    &&& !counts.contains_key(row.id) ==> s.file_counts.total == 0 && s.file_counts.done == 0
        && s.file_counts.failed == 0
}

/// A summary of a transfer that is sent says what is on record of it.
pub proof fn law_sent_transfer_is_shown_as_it_is(
    s: OutboundSummary,
    row: OutboundRow,
    facts: RowFacts,
    names: TextMap,
    counts: HashMap<i64, TransferFileCounts>,
)
    requires
        call_ensures(outbound_summary, (row, facts, &names, &counts), s),
    ensures
        shows_sent(s, row, facts, names@, counts@),
        !s.resendable,
{
}

/// A summary of a transfer that is received says what is on record of it. One whose
/// sender is gone is said to wait for it, and one that was announced and waits for a
/// free slot to be queued; any other one is in the state that is on record.
pub proof fn law_received_transfer_is_shown_as_it_is(
    s: InboundSummary,
    row: InboundRow,
    names: TextMap,
    kinds: TextMap,
    counts: HashMap<i64, TransferFileCounts>,
    parked: Vec<String>,
)
    requires
        call_ensures(inbound_summary, (row, &names, &kinds, &counts, &parked), s),
    ensures
        shows_received(s, row, names@, kinds@, counts@),
        s.display_state@ == match row.state {
            InboundState::Announced => if holds_text(parked@, row.package_id@) {
                "queued"@
            } else {
                "announced"@
            },
            InboundState::Fetching => "fetching"@,
            InboundState::Ingesting => "ingesting"@,
            InboundState::Waiting => "waiting_peer"@,
            InboundState::Done => "done"@,
            InboundState::Failed => "failed"@,
            InboundState::Cancelled => "cancelled"@,
        },
{
}

proof fn lemma_finished_sent_are_listed(
    s: Seq<OutboundSummary>,
    rows: Seq<OutboundRow>,
    facts: Seq<RowFacts>,
    limit: Option<u32>,
    names: Map<Seq<char>, Seq<char>>,
    counts: Map<i64, TransferFileCounts>,
    k: int,
    p: int,
)
    requires
        are_finished_sent(s, rows, facts, terminal_cap(limit) as nat, names, counts),
        facts.len() == rows.len(),
    ensures
        s.len() <= listed_at_most(limit),
        0 <= k < s.len() ==> exists|q: int|
            0 <= q < rows.len() && has_ended(rows[q].state) && #[trigger] shows_sent(
                s[k],
                rows[q],
                facts[q],
                names,
                counts,
            ) && (s[k].resendable <==> (rows[q].state == OutboundState::Failed || rows[q].state
                == OutboundState::Cancelled) && facts[q].has_payload),
        0 <= p < rows.len() && has_ended(rows[p].state) && ended(rows, p) < listed_at_most(limit)
            ==> ended(rows, p) < s.len() && shows_sent(
            s[ended(rows, p) as int],
            rows[p],
            facts[p],
            names,
            counts,
        ),
{
    let cap = terminal_cap(limit) as nat;
    let n = rows.len() as int;
    lemma_finished_sent(rows, cap, n, p, k);
    let at = finished_sent(rows, cap, n);
    if 0 <= k < s.len() {
        assert(shows_sent(s[k], rows[at[k]], facts[at[k]], names, counts));
    }
}

proof fn lemma_finished_received_are_listed(
    s: Seq<InboundSummary>,
    rows: Seq<InboundRow>,
    limit: Option<u32>,
    names: Map<Seq<char>, Seq<char>>,
    kinds: Map<Seq<char>, Seq<char>>,
    counts: Map<i64, TransferFileCounts>,
    k: int,
    p: int,
)
    requires
        are_finished_received(s, rows, terminal_cap(limit) as nat, names, kinds, counts),
    ensures
        s.len() <= listed_at_most(limit),
        0 <= k < s.len() ==> exists|q: int|
            0 <= q < rows.len() && is_over(rows[q].state) && #[trigger] shows_received(
                s[k],
                rows[q],
                names,
                kinds,
                counts,
            ),
        0 <= p < rows.len() && is_over(rows[p].state) && over(rows, p) < listed_at_most(limit)
            ==> over(rows, p) < s.len() && shows_received(
            s[over(rows, p) as int],
            rows[p],
            names,
            kinds,
            counts,
        ),
{
    let cap = terminal_cap(limit) as nat;
    let n = rows.len() as int;
    lemma_finished_received(rows, cap, n, p, k);
    let at = finished_received(rows, cap, n);
    if 0 <= k < s.len() {
        assert(shows_received(s[k], rows[at[k]], names, kinds, counts));
    }
}

/// The lists of finished transfers hold finished ones only, each as it is on record,
/// and of those the first ones up to the limit. One that was sent can be sent again
/// just where it failed or was cancelled and its files are still there.
pub proof fn law_finished_transfers_are_listed(
    sent: Vec<OutboundRow>,
    facts: Vec<RowFacts>,
    received: Vec<InboundRow>,
    limit: Option<u32>,
    names: TextMap,
    kinds: TextMap,
    sent_counts: HashMap<i64, TransferFileCounts>,
    received_counts: HashMap<i64, TransferFileCounts>,
    r: TerminalTransfers,
    k: int,
    p: int,
)
    requires
        facts@.len() == sent@.len(),
        call_ensures(
            list_terminal_transfers,
            (
                &sent,
                &facts,
                &received,
                limit,
                &names,
                &kinds,
                &sent_counts,
                &received_counts,
            ),
            r,
        ),
    ensures
        r.sent@.len() <= listed_at_most(limit),
        r.received@.len() <= listed_at_most(limit),
        0 <= k < r.sent@.len() ==> exists|q: int|
            0 <= q < sent@.len() && has_ended(sent@[q].state) && #[trigger] shows_sent(
                r.sent@[k],
                sent@[q],
                facts@[q],
                names@,
                sent_counts@,
            ) && (r.sent@[k].resendable <==> (sent@[q].state == OutboundState::Failed
                || sent@[q].state == OutboundState::Cancelled) && facts@[q].has_payload),
        0 <= p < sent@.len() && has_ended(sent@[p].state) && ended(sent@, p) < listed_at_most(limit)
            ==> ended(sent@, p) < r.sent@.len() && shows_sent(
            r.sent@[ended(sent@, p) as int],
            sent@[p],
            facts@[p],
            names@,
            sent_counts@,
        ),
        0 <= k < r.received@.len() ==> exists|q: int|
            0 <= q < received@.len() && is_over(received@[q].state) && #[trigger] shows_received(
                r.received@[k],
                received@[q],
                names@,
                kinds@,
                received_counts@,
            ),
        0 <= p < received@.len() && is_over(received@[p].state) && over(received@, p)
            < listed_at_most(limit) ==> over(received@, p) < r.received@.len() && shows_received(
            r.received@[over(received@, p) as int],
            received@[p],
            names@,
            kinds@,
            received_counts@,
        ),
{
    lemma_finished_sent_are_listed(
        r.sent@,
        sent@,
        facts@,
        limit,
        names@,
        sent_counts@,
        k,
        p,
    );
    lemma_finished_received_are_listed(
        r.received@,
        received@,
        limit,
        names@,
        kinds@,
        received_counts@,
        k,
        p,
    );
}

proof fn lemma_unfinished(rows: Seq<InboundRow>, n: int, p: int)
    requires
        0 <= n <= rows.len(),
    ensures
        unfinished_places(rows, n).contains(p) <==> 0 <= p < n && !is_over(rows[p].state),
    decreases n,
{
    if n > 0 {
        lemma_unfinished(rows, n - 1, p);
        let before = unfinished_places(rows, n - 1);
        let now = unfinished_places(rows, n);
        if before.contains(p) {
            let k = choose|k: int| 0 <= k < before.len() && before[k] == p;
            assert(now[k] == p);
        }
        if now.contains(p) {
            let k = choose|k: int| 0 <= k < now.len() && now[k] == p;
            if k < before.len() {
                assert(before[k] == p);
            }
        }
        if !is_over(rows[n - 1].state) {
            assert(now[before.len() as int] == n - 1);
        }
    }
}

proof fn lemma_unfinished_received_are_shown(
    s: Seq<InboundSummary>,
    rows: Seq<InboundRow>,
    names: Map<Seq<char>, Seq<char>>,
    kinds: Map<Seq<char>, Seq<char>>,
    counts: Map<i64, TransferFileCounts>,
    parked: Seq<String>,
    k: int,
    p: int,
)
    requires
        are_active_summaries(s, rows, names, kinds, counts, parked),
    ensures
        0 <= k < s.len() ==> exists|q: int|
            0 <= q < rows.len() && !is_over(rows[q].state) && #[trigger] shows_received(
                s[k],
                rows[q],
                names,
                kinds,
                counts,
            ),
        0 <= p < rows.len() && !is_over(rows[p].state) ==> exists|j: int|
            0 <= j < s.len() && #[trigger] shows_received(s[j], rows[p], names, kinds, counts),
{
    let n = rows.len() as int;
    let at = unfinished_places(rows, n);
    lemma_unfinished(rows, n, p);
    if 0 <= k < s.len() {
        assert(at.contains(at[k]));
        lemma_unfinished(rows, n, at[k]);
        assert(shows_received(s[k], rows[at[k]], names, kinds, counts));
    }
    if 0 <= p < n && !is_over(rows[p].state) {
        let j = choose|j: int| 0 <= j < at.len() && at[j] == p;
        assert(shows_received(s[j], rows[p], names, kinds, counts));
    }
}

proof fn lemma_shown(entries: Seq<QueuedAnnounce>, active: Seq<InboundSummary>, n: int, p: int)
    requires
        0 <= n <= entries.len(),
    ensures
        shown_places(entries, active, n).contains(p) <==> 0 <= p < n && !is_active_batch(
            active,
            entries[p].batch_uuid@,
        ),
    decreases n,
{
    if n > 0 {
        lemma_shown(entries, active, n - 1, p);
        let before = shown_places(entries, active, n - 1);
        let now = shown_places(entries, active, n);
        if before.contains(p) {
            let k = choose|k: int| 0 <= k < before.len() && before[k] == p;
            assert(now[k] == p);
        }
        if now.contains(p) {
            let k = choose|k: int| 0 <= k < now.len() && now[k] == p;
            if k < before.len() {
                assert(before[k] == p);
            }
        }
        if now.len() > before.len() {
            assert(now[before.len() as int] == n - 1);
        }
    }
}

/// Whether a package that waits is shown as it was announced.
pub open spec fn shows_announce(
    s: QueuedInboundSummary,
    e: QueuedAnnounce,
    names: Map<Seq<char>, Seq<char>>,
) -> bool {
    &&& s.batch_uuid@ == e.batch_uuid@
    &&& s.batch_name == e.batch_name
    &&& s.frame_count == e.frame_count
    &&& s.byte_size == e.byte_size
    &&& names.contains_key(hex_of(e.peer@)) ==> is_text(s.device_name, names[hex_of(e.peer@)])
    &&& !names.contains_key(hex_of(e.peer@)) ==> s.device_name is None
}

proof fn lemma_no_transfer_is_shown_twice(
    s: Seq<QueuedInboundSummary>,
    entries: Seq<QueuedAnnounce>,
    active: Seq<InboundSummary>,
    names: Map<Seq<char>, Seq<char>>,
    k: int,
    p: int,
    a: int,
)
    requires
        are_queued_summaries(s, entries, active, names),
    ensures
        0 <= k < s.len() ==> exists|q: int|
            0 <= q < entries.len() && #[trigger] shows_announce(s[k], entries[q], names),
        0 <= k < s.len() && 0 <= a < active.len() ==> s[k].batch_uuid@ != active[a].batch_uuid@,
        0 <= p < entries.len() ==> {
            ||| exists|j: int|
                0 <= j < s.len() && #[trigger] shows_announce(s[j], entries[p], names)
            ||| exists|j: int|
                0 <= j < active.len() && (#[trigger] active[j]).batch_uuid@
                    == entries[p].batch_uuid@
        },
{
    let n = entries.len() as int;
    let at = shown_places(entries, active, n);
    lemma_shown(entries, active, n, p);
    if 0 <= k < s.len() {
        assert(at.contains(at[k]));
        lemma_shown(entries, active, n, at[k]);
        assert(shows_announce(s[k], entries[at[k]], names));
    }
    if 0 <= p < n && at.contains(p) {
        let j = choose|j: int| 0 <= j < at.len() && at[j] == p;
        assert(shows_announce(s[j], entries[p], names));
    }
}

/// The transfers that a receiver holds back, where there is one.
pub open spec fn held_back(c: Option<ReceiverControl>) -> (Seq<String>, Seq<QueuedAnnounce>) {
    match c {
        Some(c) => (c.parked_for_slot@, c.announces@),
        None => (Seq::empty(), Seq::empty()),
    }
}

/// The status shows every transfer that is being received and not over, each as it is
/// on record, and none that is over; the packages that wait behind another one are
/// shown as they were announced, but for those that are being received already, which
/// are not shown twice. What is told of sending, of the pairing and of the node is
/// what is known of them; where there is no node, a device that is signed in and knows
/// no relays is said to have none, and any other one not to have started.
pub proof fn law_status_shows_what_is_there(
    settings: StatusSettings,
    transport_started: bool,
    pairing_ticket: Option<String>,
    received: i64,
    sender: SyncSenderStatus,
    receiver: ReceiverSources,
    node: Option<TransportHealth>,
    r: SyncStatus,
    k: int,
    p: int,
    a: int,
)
    requires
        call_ensures(
            get_status,
            (
                &settings,
                transport_started,
                pairing_ticket,
                received,
                sender,
                &receiver,
                node,
            ),
            r,
        ),
    ensures
        r.sender == sender,
        r.transport_started == transport_started,
        r.receiver.started == transport_started,
        r.pairing_ticket == pairing_ticket,
        0 <= received <= u32::MAX ==> r.received_total == received && r.receiver.received_total
            == received,
        received < 0 ==> r.received_total == 0 && r.receiver.received_total == 0,
        r.dev_pairing_enabled <==> same_but_ascii_case(settings.dev_flag@, "true"@),
        node matches Some(h) ==> r.transport == h,
        node is None ==> r.transport.status@ == if (settings.device_id matches Some(id) && id@.len()
            > 0) && (settings.relays matches Some(t) ==> lines_of(t@).len() == 0) {
            "no_relay_map"@
        } else {
            "not_started"@
        },
        ({
            let names = kept_map(settings.device_names);
            let kinds = kept_map(settings.device_kinds);
            let counts = receiver.file_counts@;
            let rows = receiver.rows@;
            let s = r.receiver.active@;
            let queued = r.receiver.queued@;
            let announces = held_back(receiver.control).1;
            &&& 0 <= k < s.len() ==> exists|q: int|
                0 <= q < rows.len() && !is_over(rows[q].state) && #[trigger] shows_received(
                    s[k],
                    rows[q],
                    names,
                    kinds,
                    counts,
                )
            &&& 0 <= p < rows.len() && !is_over(rows[p].state) ==> exists|j: int|
                0 <= j < s.len() && #[trigger] shows_received(s[j], rows[p], names, kinds, counts)
            &&& 0 <= k < queued.len() ==> exists|q: int|
                0 <= q < announces.len() && #[trigger] shows_announce(
                    queued[k],
                    announces[q],
                    names,
                )
            &&& 0 <= k < queued.len() && 0 <= a < s.len() ==> queued[k].batch_uuid@
                != s[a].batch_uuid@
            &&& 0 <= p < announces.len() ==> {
                ||| exists|j: int|
                    0 <= j < queued.len() && #[trigger] shows_announce(
                        queued[j],
                        announces[p],
                        names,
                    )
                ||| exists|j: int|
                    0 <= j < s.len() && (#[trigger] s[j]).batch_uuid@ == announces[p].batch_uuid@
            }
        }),
{
    let names = kept_map(settings.device_names);
    let kinds = kept_map(settings.device_kinds);
    let held = held_back(receiver.control);
    assert(receiver.parked() =~= held.0);
    assert(receiver.announces() =~= held.1);
    lemma_unfinished_received_are_shown(
        r.receiver.active@,
        receiver.rows@,
        names,
        kinds,
        receiver.file_counts@,
        held.0,
        k,
        p,
    );
    lemma_no_transfer_is_shown_twice(
        r.receiver.queued@,
        held.1,
        r.receiver.active@,
        names,
        k,
        p,
        a,
    );
}

/// How many of the first `n` transfers are on their way.
pub open spec fn under_way(rows: Seq<OutboundRow>, n: int) -> nat
    decreases n,
{
    if n <= 0 {
        0
    } else {
        under_way(rows, n - 1) + match rows[n - 1].state {
            OutboundState::Transferring | OutboundState::Delivered => 1nat,
            OutboundState::Preparing | OutboundState::Queued | OutboundState::Announced
            | OutboundState::Confirmed | OutboundState::Failed | OutboundState::Cancelled => 0nat,
        }
    }
}

proof fn lemma_moving(rows: Seq<OutboundRow>, n: int)
    requires
        0 <= n <= rows.len(),
    ensures
        moving_count(rows, n) == under_way(rows, n),
        moving_count(rows, n) <= n,
    decreases n,
{
    if n > 0 {
        lemma_moving(rows, n - 1);
    }
}

/// What is told of sending: each transfer that is not finished as it is on record, and
/// how many of them are on their way. A transfer is on its way while its files go over
/// and until the receiver has confirmed them; the others are queued.
pub proof fn law_sender_status_counts(
    from: SenderRows,
    facts: Vec<RowFacts>,
    names: TextMap,
    counts: HashMap<i64, TransferFileCounts>,
    ends: EndedCounts,
    r: SyncSenderStatus,
    k: int,
)
    requires
        facts@.len() == from.rows@.len(),
        from.rows@.len() <= u32::MAX,
        call_ensures(build_sender_status, (&from, &facts, &names, &counts, ends), r),
    ensures
        r.started == from.started,
        r.transferring == under_way(from.rows@, from.rows@.len() as int),
        r.transferring + r.queued == from.rows@.len(),
        0 <= ends.confirmed <= u32::MAX ==> r.confirmed_total == ends.confirmed,
        0 <= ends.failed <= u32::MAX ==> r.failed_total == ends.failed,
        0 <= ends.cancelled <= u32::MAX ==> r.cancelled_total == ends.cancelled,
        r.active@.len() == from.rows@.len(),
        0 <= k < r.active@.len() ==> shows_sent(
            r.active@[k],
            from.rows@[k],
            facts@[k],
            names@,
            counts@,
        ) && !r.active@[k].resendable,
{
    lemma_moving(from.rows@, from.rows@.len() as int);
}

proof fn lemma_busy_receiver(
    engines: Seq<EngineReport>,
    row: OutboundRow,
    n: int,
)
    requires
        0 <= n <= engines.len(),
    ensures
        served_to(engines, row.peer@, n) matches Some(id) ==> exists|i: int|
            0 <= i < n && (#[trigger] engines[i]).peer@ == row.peer@ && engines[i].serving == Some(
                id,
            ),
        served_to(engines, row.peer@, n) is None ==> forall|i: int|
            0 <= i < n && (#[trigger] engines[i]).peer@ == row.peer@ ==> engines[i].serving is None,
        n == engines.len() && waits_at_receiver(engines, row) ==> exists|i: int|
            0 <= i < n && (#[trigger] engines[i]).peer@ == row.peer@ && (
            engines[i].serving matches Some(id) && id != row.id),
    decreases n,
{
    if n > 0 {
        lemma_busy_receiver(engines, row, n - 1);
        let e = engines[n - 1];
        assert(served_to(engines, row.peer@, n) == if e.peer@ == row.peer@ && e.serving is Some {
            e.serving
        } else {
            served_to(engines, row.peer@, n - 1)
        });
    }
}

/// Whether some sender knows the transfer.
pub open spec fn is_reported(engines: Seq<EngineReport>, row: OutboundRow) -> bool {
    exists|i: int|
        0 <= i < engines.len() && ((#[trigger] engines[i]).rows matches Ok(rows)
            && rows@.contains(row))
}

proof fn lemma_reported(engines: Seq<EngineReport>, n: int, k: int) -> (at: (int, int))
    requires
        0 <= n <= engines.len(),
        reported_rows(engines, n) matches Ok(all) && 0 <= k < all.len(),
    ensures
        0 <= at.0 < n,
        engines[at.0].rows matches Ok(rows) && 0 <= at.1 < rows@.len() && rows@[at.1]
            == reported_rows(engines, n)->Ok_0[k],
    decreases n,
{
    let before = reported_rows(engines, n - 1)->Ok_0;
    if k < before.len() {
        lemma_reported(engines, n - 1, k)
    } else {
        (n - 1, k - before.len())
    }
}

proof fn lemma_reported_fails(engines: Seq<EngineReport>, n: int)
    requires
        0 <= n <= engines.len(),
    ensures
        reported_rows(engines, n) is Err <==> exists|i: int|
            0 <= i < n && (#[trigger] engines[i]).rows is Err,
    decreases n,
{
    if n > 0 {
        lemma_reported_fails(engines, n - 1);
        if exists|i: int| 0 <= i < n - 1 && (#[trigger] engines[i]).rows is Err {
            let i = choose|i: int| 0 <= i < n - 1 && (#[trigger] engines[i]).rows is Err;
            assert(engines[i].rows is Err);
        }
    }
}

/// The transfers that are not finished are those that some sender knows, each once;
/// nothing is told where a sender cannot tell. A transfer waits at its receiver only
/// where a sender to that very device takes care of another transfer at this moment.
pub proof fn law_unfinished_sent_are_reported_once(
    engines: Vec<EngineReport>,
    r: Result<SenderRows, ApiError>,
    k: int,
    m: int,
)
    requires
        call_ensures(sender_rows, (&engines,), r),
    ensures
        r is Err <==> exists|i: int|
            0 <= i < engines@.len() && (#[trigger] engines@[i]).rows is Err,
        r matches Ok(s) ==> {
            &&& s.started <==> engines@.len() > 0
            &&& s.receiver_busy@.len() == s.rows@.len()
            &&& 0 <= k < s.rows@.len() ==> is_reported(engines@, s.rows@[k])
            &&& 0 <= k < m < s.rows@.len() ==> s.rows@[k].id < s.rows@[m].id
            &&& 0 <= k < s.rows@.len() && s.receiver_busy@[k] ==> exists|i: int|
                0 <= i < engines@.len() && (#[trigger] engines@[i]).peer@ == s.rows@[k].peer@ && (
                engines@[i].serving matches Some(id) && id != s.rows@[k].id)
        },
{
    let es = engines@;
    let n = es.len() as int;
    lemma_reported_fails(es, n);
    if let Ok(s) = r {
        let all = reported_rows(es, n)->Ok_0;
        if 0 <= k < s.rows@.len() {
            let row = s.rows@[k];
            assert(s.receiver_busy@[k] == waits_at_receiver(es, row));
            lemma_busy_receiver(es, row, n);
            assert(stems_from(all, all.len() as int, row));
            let j = choose|j: int|
                0 <= j < all.len() && #[trigger] is_first_row(all, j) && all[j] == row;
            let at = lemma_reported(es, n, j);
            let rows = es[at.0].rows->Ok_0@;
            assert(rows[at.1] == row);
            assert(rows.contains(row));
        }
        if 0 <= k < m < s.rows@.len() {
            assert(s.rows@[k].id < s.rows@[m].id);
        }
    }
}

} // verus!
