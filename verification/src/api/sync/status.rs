//! The status of all transfers, those that came to their end, and the log.

use crate::api::error::{ApiError, Refusal};
use crate::api::sync::node_id::{hex_of, node_id_hex, same_node, NodeId};
use crate::api::sync::peers::{
    account_signed_in, cached_relays, dev_pairing_enabled, is_opt_text, signed_in,
};
use crate::api::sync::rows::{
    copy_opt, opt_text, Direction, HistoryRow, InboundRow, OutboundRow, OutboundState,
    TransferFileCounts,
};
use crate::api::sync::settings_text::{flag_on, lines_of, string_map_of_json};
use crate::api::sync::summaries::{
    cached_device_kind_map, cached_device_names, dedup_active_rows, has_id, ids_ascend,
    inbound_summary, is_deduped, is_first_row, is_inbound_summary, is_outbound_summary,
    outbound_summary, row_count, row_receiver_busy, short_id, shortened, stems_from, told_count,
    InboundSummary, OutboundSummary, RowFacts,
};
use crate::api::sync::transfers::told;
use crate::text::{same_text, texts};
use crate::text_map::{value_at, TextMap};
use std::collections::HashMap;
use vstd::prelude::*;
use vstd::string::*;

verus! {

/// What is told of sending.
#[derive(Debug, Clone)]
pub struct SyncSenderStatus {
    pub started: bool,
    pub queued: u32,
    pub transferring: u32,
    pub confirmed_total: u32,
    pub failed_total: u32,
    pub cancelled_total: u32,
    pub active: Vec<OutboundSummary>,
}

/// Whether a transfer is on its way.
pub open spec fn is_moving(state: OutboundState) -> bool {
    state == OutboundState::Transferring || state == OutboundState::Delivered
}

/// How many of the first `n` transfers are on their way.
pub open spec fn moving_count(rows: Seq<OutboundRow>, n: int) -> nat
    decreases n,
{
    if n <= 0 {
        0
    } else {
        moving_count(rows, n - 1) + if is_moving(rows[n - 1].state) {
            1nat
        } else {
            0nat
        }
    }
}

/// Whether `s` summarises the rows, one each.
pub open spec fn are_outbound_summaries(
    s: Seq<OutboundSummary>,
    rows: Seq<OutboundRow>,
    facts: Seq<RowFacts>,
    names: Map<Seq<char>, Seq<char>>,
    counts: Map<i64, TransferFileCounts>,
) -> bool {
    &&& s.len() == rows.len()
    &&& forall|i: int|
        0 <= i < s.len() ==> is_outbound_summary(
            #[trigger] s[i],
            rows[i],
            facts[i],
            names,
            counts,
            false,
        )
}

/// A sender that runs: whom it sends to, the transfers that are not finished
/// as it knows them or why it cannot tell, and the one that its receiver takes
/// at this moment. All senders share one catalog, so each knows the transfers
/// of all.
#[derive(Debug)]
pub struct EngineReport {
    pub peer: NodeId,
    pub rows: Result<Vec<OutboundRow>, String>,
    pub serving: Option<i64>,
}

/// What the first `n` senders know, one behind the other, or why the first one
/// that cannot tell cannot.
pub open spec fn reported_rows(engines: Seq<EngineReport>, n: int) -> Result<
    Seq<OutboundRow>,
    Seq<char>,
>
    decreases n,
{
    if n <= 0 {
        Ok(Seq::empty())
    } else {
        match reported_rows(engines, n - 1) {
            Err(why) => Err(why),
            Ok(before) => match engines[n - 1].rows {
                Ok(rows) => Ok(before + rows@),
                Err(why) => Err(why@),
            },
        }
    }
}

/// The transfer that a device takes at this moment, as the first `n` senders
/// tell.
pub open spec fn served_to(engines: Seq<EngineReport>, peer: Seq<u8>, n: int) -> Option<i64>
    decreases n,
{
    if n <= 0 {
        None
    } else if engines[n - 1].peer@ == peer && engines[n - 1].serving is Some {
        engines[n - 1].serving
    } else {
        served_to(engines, peer, n - 1)
    }
}

/// Whether a transfer waits because its receiver takes another one.
pub open spec fn waits_at_receiver(engines: Seq<EngineReport>, row: OutboundRow) -> bool {
    served_to(engines, row.peer@, engines.len() as int) matches Some(active) && active != row.id
}

/// The transfers that are not finished, each once, with the word whether each
/// waits because its receiver is busy.
#[derive(Debug)]
pub struct SenderRows {
    /// Whether any sender runs.
    pub started: bool,
    pub rows: Vec<OutboundRow>,
    pub receiver_busy: Vec<bool>,
}

impl SenderRows {
    /// There is a word for each transfer.
    pub open spec fn wf(self) -> bool {
        self.receiver_busy@.len() == self.rows@.len()
    }
}

fn serving_to(engines: &Vec<EngineReport>, peer: &NodeId) -> (r: Option<i64>)
    ensures
        r == served_to(engines@, peer@, engines@.len() as int),
{
    let mut r: Option<i64> = None;
    let mut i: usize = 0;
    while i < engines.len()
        invariant
            i <= engines@.len(),
            r == served_to(engines@, peer@, i as int),
        decreases engines@.len() - i,
    {
        if same_node(&engines[i].peer, peer) && engines[i].serving.is_some() {
            r = engines[i].serving;
        }
        i = i + 1;
    }
    r
}

proof fn lemma_reported_error(engines: Seq<EngineReport>, m: int, n: int)
    requires
        0 <= m <= n <= engines.len(),
        reported_rows(engines, m) is Err,
    ensures
        reported_rows(engines, n) == reported_rows(engines, m),
    decreases n - m,
{
    if m < n {
        lemma_reported_error(engines, m, n - 1);
    }
}

/// The transfers that are not finished, from what all senders know: each once,
/// in ascending order.
pub fn sender_rows(engines: &Vec<EngineReport>) -> (r: Result<SenderRows, ApiError>)
    ensures
        match reported_rows(engines@, engines@.len() as int) {
            Ok(all) => r matches Ok(s) && {
                &&& s.wf()
                &&& s.started == (engines@.len() > 0)
                &&& is_deduped(s.rows@, all, all.len() as int)
                &&& forall|i: int|
                    0 <= i < s.rows@.len() ==> #[trigger] s.receiver_busy@[i] == waits_at_receiver(
                        engines@,
                        s.rows@[i],
                    )
            },
            Err(why) => told(r) == Err::<SenderRows, Refusal>(
                Refusal::Internal("sender status snapshot: "@ + why),
            ),
        },
{
    let mut all: Vec<OutboundRow> = Vec::new();
    let mut i: usize = 0;
    while i < engines.len()
        invariant
            i <= engines@.len(),
            reported_rows(engines@, i as int) == Ok::<Seq<OutboundRow>, Seq<char>>(all@),
        decreases engines@.len() - i,
    {
        match &engines[i].rows {
            Err(why) => {
                proof {
                    lemma_reported_error(engines@, i as int + 1, engines@.len() as int);
                }
                let mut m: String = "sender status snapshot: ".to_owned();
                m.append(why.as_str());
                return Err(ApiError::Internal(m));
            },
            Ok(rows) => {
                let ghost before = all@;
                let mut k: usize = 0;
                while k < rows.len()
                    invariant
                        k <= rows@.len(),
                        all@ == before + rows@.take(k as int),
                    decreases rows@.len() - k,
                {
                    all.push(rows[k].clone());
                    k = k + 1;
                    assert(all@ =~= before + rows@.take(k as int));
                }
                assert(rows@.take(rows@.len() as int) =~= rows@);
            },
        }
        i = i + 1;
    }
    let rows = dedup_active_rows(&all);
    let mut receiver_busy: Vec<bool> = Vec::new();
    let mut k: usize = 0;
    while k < rows.len()
        invariant
            k <= rows@.len(),
            receiver_busy@.len() == k,
            forall|j: int|
                0 <= j < k ==> #[trigger] receiver_busy@[j] == waits_at_receiver(
                    engines@,
                    rows@[j],
                ),
        decreases rows@.len() - k,
    {
        receiver_busy.push(row_receiver_busy(rows[k].id, serving_to(engines, &rows[k].peer)));
        k = k + 1;
    }
    Ok(SenderRows { started: engines.len() > 0, rows, receiver_busy })
}

/// Whether each of the first `n` senders knows exactly the given transfers.
pub open spec fn all_know(engines: Seq<EngineReport>, rows: Seq<OutboundRow>, n: int) -> bool {
    forall|i: int| 0 <= i < n ==> ((#[trigger] engines[i]).rows matches Ok(v) && v@ == rows)
}

proof fn lemma_reports_repeat(engines: Seq<EngineReport>, rows: Seq<OutboundRow>, n: int)
    requires
        0 < n <= engines.len(),
        all_know(engines, rows, n),
    ensures
        reported_rows(engines, n) matches Ok(all) && {
            &&& all.len() >= rows.len()
            &&& forall|k: int| 0 <= k < rows.len() ==> #[trigger] all[k] == rows[k]
            &&& forall|k: int| 0 <= k < all.len() ==> has_id(rows, (#[trigger] all[k]).id)
        },
    decreases n,
{
    assert(engines[n - 1].rows matches Ok(v) && v@ == rows);
    let before = if n > 1 {
        lemma_reports_repeat(engines, rows, n - 1);
        reported_rows(engines, n - 1)->Ok_0
    } else {
        assert(reported_rows(engines, 0) == Ok::<Seq<OutboundRow>, Seq<char>>(Seq::empty()));
        Seq::empty()
    };
    let all = before + rows;
    assert(reported_rows(engines, n) == Ok::<Seq<OutboundRow>, Seq<char>>(all));
    assert forall|k: int| 0 <= k < all.len() implies has_id(rows, (#[trigger] all[k]).id) by {
        if k < before.len() {
            assert(all[k] == before[k]);
        } else {
            assert(all[k] == rows[k - before.len()]);
        }
    }
    assert forall|k: int| 0 <= k < rows.len() implies #[trigger] all[k] == rows[k] by {
        if n > 1 {
            assert(before[k] == rows[k]);
        }
    }
}

proof fn lemma_same_ids(a: Seq<OutboundRow>, b: Seq<OutboundRow>)
    requires
        ids_ascend(a),
        ids_ascend(b),
        forall|i: int| 0 <= i < a.len() ==> has_id(b, (#[trigger] a[i]).id),
        forall|i: int| 0 <= i < b.len() ==> has_id(a, (#[trigger] b[i]).id),
    ensures
        a.len() == b.len(),
        forall|i: int| 0 <= i < a.len() ==> (#[trigger] a[i]).id == b[i].id,
    decreases a.len(),
{
    if a.len() == 0 {
        if b.len() > 0 {
            assert(has_id(a, b[0].id));
        }
    } else {
        let x = a.len() - 1;
        assert(has_id(b, a[x].id));
        let j = choose|j: int| 0 <= j < b.len() && (#[trigger] b[j]).id == a[x].id;
        let y = b.len() - 1;
        assert(has_id(a, b[y].id));
        let i = choose|i: int| 0 <= i < a.len() && (#[trigger] a[i]).id == b[y].id;
        if i < x {
            assert(a[i].id < a[x].id);
        }
        if j < y {
            assert(b[j].id < b[y].id);
        }
        assert(a[x].id == b[y].id);
        let a1 = a.drop_last();
        let b1 = b.drop_last();
        assert forall|i: int| 0 <= i < a1.len() implies has_id(b1, (#[trigger] a1[i]).id) by {
            assert(a1[i] == a[i]);
            assert(a[i].id < a[x].id);
            assert(has_id(b, a[i].id));
            let k = choose|k: int| 0 <= k < b.len() && (#[trigger] b[k]).id == a[i].id;
            assert(b1[k].id == a1[i].id);
        }
        assert forall|i: int| 0 <= i < b1.len() implies has_id(a1, (#[trigger] b1[i]).id) by {
            assert(b1[i] == b[i]);
            assert(b[i].id < b[y].id);
            assert(has_id(a, b[i].id));
            let k = choose|k: int| 0 <= k < a.len() && (#[trigger] a[k]).id == b[i].id;
            assert(a1[k].id == b1[i].id);
        }
        lemma_same_ids(a1, b1);
        assert forall|i: int| 0 <= i < a.len() implies (#[trigger] a[i]).id == b[i].id by {
            if i < x {
                assert(a1[i].id == b1[i].id);
            }
        }
    }
}

/// However many senders run, each transfer is listed once: where all of them
/// know the same transfers, these are the list.
pub proof fn law_more_senders_count_no_more(
    engines: Seq<EngineReport>,
    rows: Seq<OutboundRow>,
    r: Seq<OutboundRow>,
)
    requires
        engines.len() > 0,
        all_know(engines, rows, engines.len() as int),
        ids_ascend(rows),
        reported_rows(engines, engines.len() as int) matches Ok(all) && is_deduped(
            r,
            all,
            all.len() as int,
        ),
    ensures
        r == rows,
{
    let n = engines.len() as int;
    lemma_reports_repeat(engines, rows, n);
    let all = reported_rows(engines, n)->Ok_0;
    assert forall|i: int| 0 <= i < rows.len() implies has_id(r, (#[trigger] rows[i]).id) by {
        assert(all[i] == rows[i]);
        assert(has_id(r, all[i].id));
    }
    assert forall|i: int| 0 <= i < r.len() implies has_id(rows, (#[trigger] r[i]).id) by {
        assert(stems_from(all, all.len() as int, r[i]));
        let k = choose|k: int| 0 <= k < all.len() && #[trigger] is_first_row(all, k) && all[k] == r[i];
        assert(has_id(rows, all[k].id));
    }
    lemma_same_ids(r, rows);
    assert forall|i: int| 0 <= i < r.len() implies r[i] == rows[i] by {
        assert(stems_from(all, all.len() as int, r[i]));
        let k = choose|k: int| 0 <= k < all.len() && #[trigger] is_first_row(all, k) && all[k] == r[i];
        assert(r[i].id == rows[i].id);
        assert(all[i] == rows[i]);
        if i < k {
            assert(all[i].id != all[k].id);
        }
        if k < i {
            assert(all[k] == rows[k]);
            assert(rows[k].id < rows[i].id);
        }
    }
    assert(r =~= rows);
}

/// How many transfers ended in one of the three ways, as they are counted on
/// record.
#[derive(Debug, Clone, Copy, PartialEq, Eq, Structural)]
pub struct EndedCounts {
    pub confirmed: i64,
    pub failed: i64,
    pub cancelled: i64,
}

/// What is told of sending: a summary of each transfer that is not finished,
/// how many of them are on their way and how many are not, and how many ended
/// in which way.
pub fn build_sender_status(
    from: &SenderRows,
    facts: &Vec<RowFacts>,
    device_names: &TextMap,
    file_counts: &HashMap<i64, TransferFileCounts>,
    ended: EndedCounts,
) -> (r: SyncSenderStatus)
    requires
        facts@.len() == from.rows@.len(),
        from.rows@.len() <= u32::MAX,
    ensures
        r.started == from.started,
        r.transferring == moving_count(from.rows@, from.rows@.len() as int),
        r.queued == from.rows@.len() - moving_count(from.rows@, from.rows@.len() as int),
        r.confirmed_total == told_count(ended.confirmed),
        r.failed_total == told_count(ended.failed),
        r.cancelled_total == told_count(ended.cancelled),
        are_outbound_summaries(r.active@, from.rows@, facts@, device_names@, file_counts@),
{
    let rows = &from.rows;
    let mut active: Vec<OutboundSummary> = Vec::new();
    let mut queued: u32 = 0;
    let mut transferring: u32 = 0;
    let mut i: usize = 0;
    while i < rows.len()
        invariant
            i <= rows@.len() <= u32::MAX,
            facts@.len() == rows@.len(),
            transferring == moving_count(rows@, i as int),
            queued == i - moving_count(rows@, i as int),
            transferring + queued == i,
            active@.len() == i,
            forall|k: int|
                0 <= k < i ==> is_outbound_summary(
                    #[trigger] active@[k],
                    rows@[k],
                    facts@[k],
                    device_names@,
                    file_counts@,
                    false,
                ),
        decreases rows@.len() - i,
    {
        match rows[i].state {
            OutboundState::Transferring | OutboundState::Delivered => {
                transferring = transferring + 1;
            },
            _ => {
                queued = queued + 1;
            },
        }
        active.push(
            outbound_summary(rows[i].clone(), facts[i].clone(), device_names, file_counts),
        );
        i = i + 1;
    }
    SyncSenderStatus {
        started: from.started,
        queued,
        transferring,
        confirmed_total: row_count(ended.confirmed),
        failed_total: row_count(ended.failed),
        cancelled_total: row_count(ended.cancelled),
        active,
    }
}

/// The places, among the first `n` rows, of those that are not finished.
pub open spec fn unfinished_places(rows: Seq<InboundRow>, n: int) -> Seq<int>
    decreases n,
{
    if n <= 0 {
        Seq::empty()
    } else if rows[n - 1].state.terminal() {
        unfinished_places(rows, n - 1)
    } else {
        unfinished_places(rows, n - 1).push(n - 1)
    }
}

/// Whether `s` summarises those of the rows that are not finished, one each and
/// in their order.
pub open spec fn are_active_summaries(
    s: Seq<InboundSummary>,
    rows: Seq<InboundRow>,
    names: Map<Seq<char>, Seq<char>>,
    kinds: Map<Seq<char>, Seq<char>>,
    counts: Map<i64, TransferFileCounts>,
    parked: Seq<String>,
) -> bool {
    let places = unfinished_places(rows, rows.len() as int);
    &&& s.len() == places.len()
    &&& forall|i: int|
        0 <= i < s.len() ==> is_inbound_summary(
            #[trigger] s[i],
            rows[places[i]],
            names,
            kinds,
            counts,
            parked,
        )
}

/// A summary of each transfer that is being received and not finished.
pub fn active_inbound_summaries(
    rows: &Vec<InboundRow>,
    device_names: &TextMap,
    device_kinds: &TextMap,
    file_counts: &HashMap<i64, TransferFileCounts>,
    parked_for_slot: &Vec<String>,
) -> (r: Vec<InboundSummary>)
    ensures
        are_active_summaries(
            r@,
            rows@,
            device_names@,
            device_kinds@,
            file_counts@,
            parked_for_slot@,
        ),
{
    let mut out: Vec<InboundSummary> = Vec::new();
    let mut i: usize = 0;
    while i < rows.len()
        invariant
            i <= rows@.len(),
            out@.len() == unfinished_places(rows@, i as int).len(),
            forall|k: int|
                0 <= k < out@.len() ==> is_inbound_summary(
                    #[trigger] out@[k],
                    rows@[unfinished_places(rows@, i as int)[k]],
                    device_names@,
                    device_kinds@,
                    file_counts@,
                    parked_for_slot@,
                ),
        decreases rows@.len() - i,
    {
        let ghost before = out@;
        if !rows[i].state.is_terminal() {
            out.push(
                inbound_summary(
                    rows[i].clone(),
                    device_names,
                    device_kinds,
                    file_counts,
                    parked_for_slot,
                ),
            );
        }
        assert forall|k: int| 0 <= k < out@.len() implies is_inbound_summary(
            #[trigger] out@[k],
            rows@[unfinished_places(rows@, i + 1)[k]],
            device_names@,
            device_kinds@,
            file_counts@,
            parked_for_slot@,
        ) by {
            if k < before.len() {
                assert(out@[k] == before[k]);
            }
        }
        i = i + 1;
    }
    out
}

/// A package that was announced and waits behind another one of its sender.
#[derive(Debug, Clone)]
pub struct QueuedAnnounce {
    pub peer: NodeId,
    pub batch_uuid: String,
    pub batch_name: Option<String>,
    pub frame_count: u32,
    pub byte_size: u64,
}

/// A package that waits behind another one of its sender, as it is shown.
#[derive(Debug, Clone)]
pub struct QueuedInboundSummary {
    pub peer_short: String,
    pub device_name: Option<String>,
    pub batch_uuid: String,
    pub batch_name: Option<String>,
    pub frame_count: u32,
    pub byte_size: u64,
}

/// Whether a transfer with the key is being received.
pub open spec fn is_active_batch(active: Seq<InboundSummary>, batch: Seq<char>) -> bool {
    exists|i: int| 0 <= i < active.len() && (#[trigger] active[i]).batch_uuid@ == batch
}

/// The places of those of the first `n` announces that are shown: those of no
/// transfer that is being received already.
pub open spec fn shown_places(
    entries: Seq<QueuedAnnounce>,
    active: Seq<InboundSummary>,
    n: int,
) -> Seq<int>
    decreases n,
{
    if n <= 0 {
        Seq::empty()
    } else if is_active_batch(active, entries[n - 1].batch_uuid@) {
        shown_places(entries, active, n - 1)
    } else {
        shown_places(entries, active, n - 1).push(n - 1)
    }
}

/// Whether `s` shows an announce.
pub open spec fn is_queued_summary(
    s: QueuedInboundSummary,
    e: QueuedAnnounce,
    names: Map<Seq<char>, Seq<char>>,
) -> bool {
    &&& s.peer_short@ == shortened(hex_of(e.peer@))
    &&& is_opt_text(s.device_name, value_at(names, hex_of(e.peer@)))
    &&& s.batch_uuid == e.batch_uuid
    &&& s.batch_name == e.batch_name
    &&& s.frame_count == e.frame_count
    &&& s.byte_size == e.byte_size
}

fn batch_is_active(active: &Vec<InboundSummary>, batch: &str) -> (r: bool)
    ensures
        r == is_active_batch(active@, batch@),
{
    let mut i: usize = 0;
    while i < active.len()
        invariant
            i <= active@.len(),
            forall|k: int| 0 <= k < i ==> (#[trigger] active@[k]).batch_uuid@ != batch@,
        decreases active@.len() - i,
    {
        if same_text(active[i].batch_uuid.as_str(), batch) {
            return true;
        }
        i = i + 1;
    }
    false
}

/// The packages that wait behind another one of their sender. A sender
/// announces again while it waits, so an announce of a transfer that is being
/// received already is left out.
pub fn queued_inbound_summaries(
    entries: &Vec<QueuedAnnounce>,
    active: &Vec<InboundSummary>,
    device_names: &TextMap,
) -> (r: Vec<QueuedInboundSummary>)
    ensures
        are_queued_summaries(r@, entries@, active@, device_names@),
{
    let mut out: Vec<QueuedInboundSummary> = Vec::new();
    let mut i: usize = 0;
    while i < entries.len()
        invariant
            i <= entries@.len(),
            out@.len() == shown_places(entries@, active@, i as int).len(),
            forall|k: int|
                0 <= k < out@.len() ==> is_queued_summary(
                    #[trigger] out@[k],
                    entries@[shown_places(entries@, active@, i as int)[k]],
                    device_names@,
                ),
        decreases entries@.len() - i,
    {
        let e = &entries[i];
        let ghost before = out@;
        if !batch_is_active(active, e.batch_uuid.as_str()) {
            let hex = node_id_hex(&e.peer);
            out.push(
                QueuedInboundSummary {
                    peer_short: short_id(hex.as_str()),
                    device_name: device_names.lookup(hex.as_str()),
                    batch_uuid: e.batch_uuid.clone(),
                    batch_name: copy_opt(&e.batch_name),
                    frame_count: e.frame_count,
                    byte_size: e.byte_size,
                },
            );
        }
        assert forall|k: int| 0 <= k < out@.len() implies is_queued_summary(
            #[trigger] out@[k],
            entries@[shown_places(entries@, active@, i as int + 1)[k]],
            device_names@,
        ) by {
            if k < before.len() {
                assert(out@[k] == before[k]);
            }
        }
        i = i + 1;
    }
    out
}

/// How the device can be reached.
#[derive(Debug, Clone)]
pub struct TransportHealth {
    pub status: String,
}

/// How the device can be reached, without reaching out: as the node says where
/// there is one; otherwise a device that is signed in and knows no relays is
/// stuck, and any other one has not started yet.
pub fn derive_transport_health(
    node: Option<TransportHealth>,
    device_id: Option<&str>,
    relays: Option<&str>,
) -> (r: TransportHealth)
    ensures
        match node {
            Some(h) => r == h,
            None => r.status@ == if signed_in(device_id) && (match relays {
                Some(t) => lines_of(t@),
                None => Seq::<Seq<char>>::empty(),
            }).len() == 0 {
                "no_relay_map"@
            } else {
                "not_started"@
            },
        },
{
    if let Some(h) = node {
        return h;
    }
    let known = cached_relays(relays);
    assert(known@.len() == texts(known@).len());
    if account_signed_in(device_id) && known.len() == 0 {
        TransportHealth { status: "no_relay_map".to_owned() }
    } else {
        TransportHealth { status: "not_started".to_owned() }
    }
}

/// What is told of receiving.
#[derive(Debug, Clone)]
pub struct SyncReceiverStatus {
    pub started: bool,
    pub active: Vec<InboundSummary>,
    pub queued: Vec<QueuedInboundSummary>,
    pub received_total: u32,
}

/// What is told of all transfers.
#[derive(Debug, Clone)]
pub struct SyncStatus {
    pub dev_pairing_enabled: bool,
    pub transport_started: bool,
    pub pairing_ticket: Option<String>,
    pub received_total: u32,
    pub sender: SyncSenderStatus,
    pub receiver: SyncReceiverStatus,
    pub transport: TransportHealth,
}

/// The settings that the status is read from, as they are kept.
#[derive(Debug)]
pub struct StatusSettings {
    pub dev_flag: String,
    pub device_id: Option<String>,
    pub relays: Option<String>,
    pub device_names: Option<String>,
    pub device_kinds: Option<String>,
}

/// What a running receiver holds besides the rows on record: the packages that
/// wait for a free slot, and those that wait behind another one of their
/// sender.
#[derive(Debug)]
pub struct ReceiverControl {
    pub parked_for_slot: Vec<String>,
    pub announces: Vec<QueuedAnnounce>,
}

/// What is known of receiving: the transfers on record with the counts of their
/// files, and what the receiver holds if it runs.
#[derive(Debug)]
pub struct ReceiverSources {
    pub rows: Vec<InboundRow>,
    pub file_counts: HashMap<i64, TransferFileCounts>,
    pub control: Option<ReceiverControl>,
}

impl ReceiverSources {
    /// The packages that wait for a free slot.
    pub open spec fn parked(self) -> Seq<String> {
        match self.control {
            Some(c) => c.parked_for_slot@,
            None => Seq::empty(),
        }
    }

    /// The packages that wait behind another one of their sender.
    pub open spec fn announces(self) -> Seq<QueuedAnnounce> {
        match self.control {
            Some(c) => c.announces@,
            None => Seq::empty(),
        }
    }
}

/// The optional text of a setting.
fn as_opt_str(v: &Option<String>) -> (r: Option<&str>)
    ensures
        match *v {
            Some(s) => r matches Some(t) && t@ == s@,
            None => r is None,
        },
{
    match v {
        Some(s) => Some(s.as_str()),
        None => None,
    }
}

/// The map that a setting holds; an empty one where it cannot be read.
pub open spec fn kept_map(v: Option<String>) -> Map<Seq<char>, Seq<char>> {
    match v {
        Some(t) => match string_map_of_json(t@) {
            Some(m) => m,
            None => Map::empty(),
        },
        None => Map::empty(),
    }
}

/// Whether `s` shows the announces that are of no transfer in `active`.
pub open spec fn are_queued_summaries(
    s: Seq<QueuedInboundSummary>,
    entries: Seq<QueuedAnnounce>,
    active: Seq<InboundSummary>,
    names: Map<Seq<char>, Seq<char>>,
) -> bool {
    let places = shown_places(entries, active, entries.len() as int);
    &&& s.len() == places.len()
    &&& forall|i: int|
        0 <= i < s.len() ==> is_queued_summary(#[trigger] s[i], entries[places[i]], names)
}

/// How the device can be reached where it has no node.
pub open spec fn health_without_node(settings: StatusSettings) -> Seq<char> {
    let has_account = settings.device_id matches Some(id) && id@.len() > 0;
    let known = match settings.relays {
        Some(t) => lines_of(t@),
        None => Seq::<Seq<char>>::empty(),
    };
    if has_account && known.len() == 0 {
        "no_relay_map"@
    } else {
        "not_started"@
    }
}

/// What is told of all transfers. Nothing is reached over the network for it.
pub fn get_status(
    settings: &StatusSettings,
    transport_started: bool,
    pairing_ticket: Option<String>,
    received: i64,
    sender: SyncSenderStatus,
    receiver: &ReceiverSources,
    node: Option<TransportHealth>,
) -> (r: SyncStatus)
    ensures
        r.dev_pairing_enabled == flag_on(settings.dev_flag@),
        r.transport_started == transport_started,
        r.pairing_ticket == pairing_ticket,
        r.received_total == told_count(received),
        r.sender == sender,
        r.receiver.started == transport_started,
        r.receiver.received_total == told_count(received),
        are_active_summaries(
            r.receiver.active@,
            receiver.rows@,
            kept_map(settings.device_names),
            kept_map(settings.device_kinds),
            receiver.file_counts@,
            receiver.parked(),
        ),
        are_queued_summaries(
            r.receiver.queued@,
            receiver.announces(),
            r.receiver.active@,
            kept_map(settings.device_names),
        ),
        match node {
            Some(h) => r.transport == h,
            None => r.transport.status@ == health_without_node(*settings),
        },
{
    let names = cached_device_names(as_opt_str(&settings.device_names));
    let kinds = cached_device_kind_map(as_opt_str(&settings.device_kinds));
    let received_total = row_count(received);
    let (active, queued) = match &receiver.control {
        Some(c) => {
            let active = active_inbound_summaries(
                &receiver.rows,
                &names,
                &kinds,
                &receiver.file_counts,
                &c.parked_for_slot,
            );
            let queued = queued_inbound_summaries(&c.announces, &active, &names);
            (active, queued)
        },
        None => {
            let none: Vec<String> = Vec::new();
            assert(none@ =~= receiver.parked());
            let active = active_inbound_summaries(
                &receiver.rows,
                &names,
                &kinds,
                &receiver.file_counts,
                &none,
            );
            (active, Vec::new())
        },
    };
    SyncStatus {
        dev_pairing_enabled: dev_pairing_enabled(settings.dev_flag.as_str()),
        transport_started,
        pairing_ticket,
        received_total,
        sender,
        receiver: SyncReceiverStatus { started: transport_started, active, queued, received_total },
        transport: derive_transport_health(
            node,
            as_opt_str(&settings.device_id),
            as_opt_str(&settings.relays),
        ),
    }
}

/// How many finished transfers are listed unless another number is asked for.
pub const TERMINAL_TRANSFERS_DEFAULT_LIMIT: u32 = 100;

/// How many finished transfers are listed at most.
pub const TERMINAL_TRANSFERS_MAX_LIMIT: u32 = 500;

/// Transfers that came to their end, the newest first.
#[derive(Debug, Clone)]
pub struct TerminalTransfers {
    pub sent: Vec<OutboundSummary>,
    pub received: Vec<InboundSummary>,
}

/// How many finished transfers are listed.
pub open spec fn terminal_cap(limit: Option<u32>) -> u32 {
    let n = match limit {
        Some(n) => n,
        None => TERMINAL_TRANSFERS_DEFAULT_LIMIT,
    };
    if n < TERMINAL_TRANSFERS_MAX_LIMIT {
        n
    } else {
        TERMINAL_TRANSFERS_MAX_LIMIT
    }
}

/// How many finished transfers are listed.
pub fn terminal_limit(limit: Option<u32>) -> (r: u32)
    ensures
        r == terminal_cap(limit),
{
    let n: u32 = match limit {
        Some(n) => n,
        None => TERMINAL_TRANSFERS_DEFAULT_LIMIT,
    };
    if n < TERMINAL_TRANSFERS_MAX_LIMIT {
        n
    } else {
        TERMINAL_TRANSFERS_MAX_LIMIT
    }
}

/// The places, among the first `n` rows, of the first `cap` finished ones.
pub open spec fn finished_sent(rows: Seq<OutboundRow>, cap: nat, n: int) -> Seq<int>
    decreases n,
{
    if n <= 0 {
        Seq::empty()
    } else {
        let before = finished_sent(rows, cap, n - 1);
        if rows[n - 1].state.terminal() && before.len() < cap {
            before.push(n - 1)
        } else {
            before
        }
    }
}

/// The places, among the first `n` rows, of the first `cap` finished ones.
pub open spec fn finished_received(rows: Seq<InboundRow>, cap: nat, n: int) -> Seq<int>
    decreases n,
{
    if n <= 0 {
        Seq::empty()
    } else {
        let before = finished_received(rows, cap, n - 1);
        if rows[n - 1].state.terminal() && before.len() < cap {
            before.push(n - 1)
        } else {
            before
        }
    }
}

/// Whether a transfer can be sent again: it failed or was cancelled, and its
/// files are still there.
pub open spec fn can_resend(row: OutboundRow, facts: RowFacts) -> bool {
    (row.state == OutboundState::Failed || row.state == OutboundState::Cancelled)
        && facts.has_payload
}

fn terminal_sent(
    rows: &Vec<OutboundRow>,
    facts: &Vec<RowFacts>,
    cap: u32,
    device_names: &TextMap,
    file_counts: &HashMap<i64, TransferFileCounts>,
) -> (r: Vec<OutboundSummary>)
    requires
        facts@.len() == rows@.len(),
    ensures
        are_finished_sent(r@, rows@, facts@, cap as nat, device_names@, file_counts@),
{
    let mut out: Vec<OutboundSummary> = Vec::new();
    let mut i: usize = 0;
    while i < rows.len()
        invariant
            i <= rows@.len(),
            facts@.len() == rows@.len(),
            out@.len() == finished_sent(rows@, cap as nat, i as int).len(),
            forall|k: int|
                0 <= k < out@.len() ==> ({
                    let p = finished_sent(rows@, cap as nat, i as int)[k];
                    is_outbound_summary(
                        #[trigger] out@[k],
                        rows@[p],
                        facts@[p],
                        device_names@,
                        file_counts@,
                        can_resend(rows@[p], facts@[p]),
                    )
                }),
        decreases rows@.len() - i,
    {
        let ghost before = out@;
        if rows[i].state.is_terminal() && out.len() < cap as usize {
            let resendable = match rows[i].state {
                OutboundState::Failed | OutboundState::Cancelled => facts[i].has_payload,
                _ => false,
            };
            let mut s = outbound_summary(
                rows[i].clone(),
                facts[i].clone(),
                device_names,
                file_counts,
            );
            s.resendable = resendable;
            out.push(s);
        }
        assert forall|k: int| 0 <= k < out@.len() implies ({
            let p = finished_sent(rows@, cap as nat, i as int + 1)[k];
            is_outbound_summary(
                #[trigger] out@[k],
                rows@[p],
                facts@[p],
                device_names@,
                file_counts@,
                can_resend(rows@[p], facts@[p]),
            )
        }) by {
            if k < before.len() {
                assert(out@[k] == before[k]);
            }
        }
        i = i + 1;
    }
    out
}

fn terminal_received(
    rows: &Vec<InboundRow>,
    cap: u32,
    device_names: &TextMap,
    device_kinds: &TextMap,
    file_counts: &HashMap<i64, TransferFileCounts>,
) -> (r: Vec<InboundSummary>)
    ensures
        are_finished_received(r@, rows@, cap as nat, device_names@, device_kinds@, file_counts@),
{
    let none: Vec<String> = Vec::new();
    let mut out: Vec<InboundSummary> = Vec::new();
    let mut i: usize = 0;
    while i < rows.len()
        invariant
            i <= rows@.len(),
            none@ == Seq::<String>::empty(),
            out@.len() == finished_received(rows@, cap as nat, i as int).len(),
            forall|k: int|
                0 <= k < out@.len() ==> is_inbound_summary(
                    #[trigger] out@[k],
                    rows@[finished_received(rows@, cap as nat, i as int)[k]],
                    device_names@,
                    device_kinds@,
                    file_counts@,
                    Seq::empty(),
                ),
        decreases rows@.len() - i,
    {
        let ghost before = out@;
        if rows[i].state.is_terminal() && out.len() < cap as usize {
            out.push(
                inbound_summary(rows[i].clone(), device_names, device_kinds, file_counts, &none),
            );
        }
        assert forall|k: int| 0 <= k < out@.len() implies is_inbound_summary(
            #[trigger] out@[k],
            rows@[finished_received(rows@, cap as nat, i as int + 1)[k]],
            device_names@,
            device_kinds@,
            file_counts@,
            Seq::empty(),
        ) by {
            if k < before.len() {
                assert(out@[k] == before[k]);
            }
        }
        i = i + 1;
    }
    out
}

/// Whether `s` summarises the first `cap` finished rows.
pub open spec fn are_finished_sent(
    s: Seq<OutboundSummary>,
    rows: Seq<OutboundRow>,
    facts: Seq<RowFacts>,
    cap: nat,
    names: Map<Seq<char>, Seq<char>>,
    counts: Map<i64, TransferFileCounts>,
) -> bool {
    let places = finished_sent(rows, cap, rows.len() as int);
    &&& s.len() == places.len()
    &&& forall|k: int|
        0 <= k < s.len() ==> is_outbound_summary(
            #[trigger] s[k],
            rows[places[k]],
            facts[places[k]],
            names,
            counts,
            can_resend(rows[places[k]], facts[places[k]]),
        )
}

/// Whether `s` summarises the first `cap` finished rows.
pub open spec fn are_finished_received(
    s: Seq<InboundSummary>,
    rows: Seq<InboundRow>,
    cap: nat,
    names: Map<Seq<char>, Seq<char>>,
    kinds: Map<Seq<char>, Seq<char>>,
    counts: Map<i64, TransferFileCounts>,
) -> bool {
    let places = finished_received(rows, cap, rows.len() as int);
    &&& s.len() == places.len()
    &&& forall|k: int|
        0 <= k < s.len() ==> is_inbound_summary(
            #[trigger] s[k],
            rows[places[k]],
            names,
            kinds,
            counts,
            Seq::empty(),
        )
}

/// The transfers that came to their end, from rows that come newest first. A
/// transfer that failed or was cancelled can be sent again as long as its
/// files are there.
pub fn list_terminal_transfers(
    sent: &Vec<OutboundRow>,
    facts: &Vec<RowFacts>,
    received: &Vec<InboundRow>,
    limit: Option<u32>,
    device_names: &TextMap,
    device_kinds: &TextMap,
    sent_counts: &HashMap<i64, TransferFileCounts>,
    received_counts: &HashMap<i64, TransferFileCounts>,
) -> (r: TerminalTransfers)
    requires
        facts@.len() == sent@.len(),
    ensures
        are_finished_sent(
            r.sent@,
            sent@,
            facts@,
            terminal_cap(limit) as nat,
            device_names@,
            sent_counts@,
        ),
        are_finished_received(
            r.received@,
            received@,
            terminal_cap(limit) as nat,
            device_names@,
            device_kinds@,
            received_counts@,
        ),
{
    let cap = terminal_limit(limit);
    TerminalTransfers {
        sent: terminal_sent(sent, facts, cap, device_names, sent_counts),
        received: terminal_received(received, cap, device_names, device_kinds, received_counts),
    }
}

/// What part of the log is asked for.
#[derive(Debug, Clone)]
pub struct SyncHistoryQuery {
    pub filename: Option<String>,
    pub object: Option<String>,
    pub direction: Option<Direction>,
    pub peer: Option<String>,
    pub project: Option<String>,
    /// How many entries at most; with zero, a default number.
    pub limit: u32,
}

/// How many entries of the log are listed unless another number is asked for.
pub const DEFAULT_HISTORY_LIMIT: u32 = 200;

/// Whether a text is the one that is asked for, if one is.
pub open spec fn meets(wanted: Option<String>, actual: Option<Seq<char>>) -> bool {
    match wanted {
        Some(w) => actual == Some(w@),
        None => true,
    }
}

/// Whether an entry of the log is one that is asked for.
pub open spec fn is_wanted(q: SyncHistoryQuery, h: HistoryRow) -> bool {
    &&& meets(q.filename, Some(h.filename@))
    &&& meets(q.object, opt_text(h.object))
    &&& (q.direction matches Some(d) ==> h.direction == d)
    &&& meets(q.peer, Some(h.peer_device@))
    &&& meets(q.project, opt_text(h.project))
}

/// The first `cap` entries that are asked for, among the first `n`.
pub open spec fn wanted_entries(
    q: SyncHistoryQuery,
    log: Seq<HistoryRow>,
    cap: nat,
    n: int,
) -> Seq<HistoryRow>
    decreases n,
{
    if n <= 0 {
        Seq::empty()
    } else {
        let before = wanted_entries(q, log, cap, n - 1);
        if is_wanted(q, log[n - 1]) && before.len() < cap {
            before.push(log[n - 1])
        } else {
            before
        }
    }
}

fn text_meets(wanted: &Option<String>, actual: &String) -> (r: bool)
    ensures
        r == meets(*wanted, Some(actual@)),
{
    match wanted {
        Some(w) => same_text(w.as_str(), actual.as_str()),
        None => true,
    }
}

fn field_meets(wanted: &Option<String>, actual: &Option<String>) -> (r: bool)
    ensures
        r == meets(*wanted, opt_text(*actual)),
{
    match (wanted, actual) {
        (Some(w), Some(a)) => same_text(w.as_str(), a.as_str()),
        (Some(_), None) => false,
        (None, _) => true,
    }
}

/// How many entries of the log are listed.
pub open spec fn history_cap(limit: u32) -> u32 {
    if limit == 0 {
        DEFAULT_HISTORY_LIMIT
    } else {
        limit
    }
}

/// The part of the log that is asked for. The log comes newest first.
pub fn list_history(log: &Vec<HistoryRow>, query: &SyncHistoryQuery) -> (r: Vec<HistoryRow>)
    ensures
        r@ == wanted_entries(
            *query,
            log@,
            history_cap(query.limit) as nat,
            log@.len() as int,
        ),
{
    let cap: u32 = if query.limit == 0 {
        DEFAULT_HISTORY_LIMIT
    } else {
        query.limit
    };
    let mut out: Vec<HistoryRow> = Vec::new();
    let mut i: usize = 0;
    while i < log.len()
        invariant
            i <= log@.len(),
            cap == history_cap(query.limit),
            out@ == wanted_entries(*query, log@, cap as nat, i as int),
        decreases log@.len() - i,
    {
        let h = &log[i];
        let direction_meets = match query.direction {
            Some(d) => h.direction == d,
            None => true,
        };
        if text_meets(&query.filename, &h.filename) && field_meets(&query.object, &h.object)
            && direction_meets && text_meets(&query.peer, &h.peer_device) && field_meets(
            &query.project,
            &h.project,
        ) && out.len() < cap as usize {
            out.push(h.clone());
        }
        i = i + 1;
    }
    out
}

} // verus!
