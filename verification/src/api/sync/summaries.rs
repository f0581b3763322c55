//! What is told of transfers: summaries, the status and the log.

use crate::api::sync::node_id::{hex_of, node_id_hex};
use crate::api::sync::peers::is_opt_text;
use crate::api::sync::rows::{
    copy_opt, InboundRow, InboundState, OutboundRow, OutboundState, TransferFileCounts,
};
use crate::api::sync::settings_text::{read_text_map, string_map_of_json};
use crate::paths::{file_name, file_name_of};
use crate::text::{
    blank, chars_of, holds_text, is_blank, list_holds, same_text, slice_text, trim, trim_text,
    CharClass,
};
use crate::text_map::{value_at, TextMap};
use std::collections::HashMap;
use vstd::prelude::*;
use vstd::std_specs::hash::*;

verus! {

broadcast use vstd::std_specs::hash::group_hash_axioms;

/// The first ten characters of an id, without the blanks around it.
pub open spec fn shortened(s: Seq<char>) -> Seq<char> {
    let t = trim(s, CharClass::White);
    if t.len() <= 10 {
        t
    } else {
        t.take(10)
    }
}

/// An id as it is shown: its first ten characters.
pub fn short_id(s: &str) -> (r: String)
    ensures
        r@ == shortened(s@),
{
    let t = trim_text(s, CharClass::White);
    let v = chars_of(t.as_str());
    if v.len() <= 10 {
        t
    } else {
        assert(v@.subrange(0, 10) =~= v@.take(10));
        slice_text(&v, 0, 10)
    }
}

/// The key of a package that is sent: the name of its directory.
pub open spec fn package_key(package_ref: Seq<char>) -> Seq<char> {
    match file_name(package_ref) {
        Some(n) => n,
        None => package_ref,
    }
}

/// The key of a package that is sent: the name of its directory, under which
/// its files stand in the log.
pub fn outbound_package_key(package_ref: &str) -> (r: String)
    ensures
        r@ == package_key(package_ref@),
{
    match file_name_of(package_ref) {
        Some(n) => n,
        None => package_ref.to_owned(),
    }
}

/// The key of a package that is sent, as it is shown.
pub fn short_pkg(package_ref: &str) -> (r: String)
    ensures
        r@ == shortened(package_key(package_ref@)),
{
    let key = outbound_package_key(package_ref);
    short_id(key.as_str())
}

/// A count of rows as it is told; a negative one counts as none.
pub open spec fn told_count(n: i64) -> u32 {
    if n < 0 {
        0
    } else {
        n as u32
    }
}

/// A count of rows as it is told.
pub fn row_count(n: i64) -> (r: u32)
    ensures
        r == told_count(n),
{
    if n < 0 {
        0
    } else {
        n as u32
    }
}

/// The names of devices that are kept, by node id; none where they cannot be
/// read.
pub fn cached_device_names(raw: Option<&str>) -> (r: TextMap)
    ensures
        r@ == match raw {
            Some(t) => match string_map_of_json(t@) {
                Some(m) => m,
                None => Map::<Seq<char>, Seq<char>>::empty(),
            },
            None => Map::<Seq<char>, Seq<char>>::empty(),
        },
{
    read_text_map(raw)
}

/// What devices can do, by node id, as it is kept; nothing where it cannot be
/// read.
pub fn cached_device_kind_map(raw: Option<&str>) -> (r: TextMap)
    ensures
        r@ == match raw {
            Some(t) => match string_map_of_json(t@) {
                Some(m) => m,
                None => Map::<Seq<char>, Seq<char>>::empty(),
            },
            None => Map::<Seq<char>, Seq<char>>::empty(),
        },
{
    read_text_map(raw)
}

/// The first row with an id.
pub open spec fn is_first_row(rows: Seq<OutboundRow>, k: int) -> bool {
    0 <= k < rows.len() && forall|j: int| 0 <= j < k ==> (#[trigger] rows[j]).id != rows[k].id
}

/// The ids go up.
pub open spec fn ids_ascend(rows: Seq<OutboundRow>) -> bool {
    forall|i: int, j: int| 0 <= i < j < rows.len() ==> (#[trigger] rows[i]).id < (#[trigger] rows[j]).id
}

/// Whether `x` is the first row with its id, and among the first `n` rows.
pub open spec fn stems_from(rows: Seq<OutboundRow>, n: int, x: OutboundRow) -> bool {
    exists|k: int| 0 <= k < n && #[trigger] is_first_row(rows, k) && rows[k] == x
}

/// Whether a row with the id is there.
pub open spec fn has_id(rows: Seq<OutboundRow>, id: i64) -> bool {
    exists|i: int| 0 <= i < rows.len() && (#[trigger] rows[i]).id == id
}

/// Whether `r` holds each of the first `n` rows once, by id.
pub open spec fn is_deduped(r: Seq<OutboundRow>, rows: Seq<OutboundRow>, n: int) -> bool {
    &&& ids_ascend(r)
    &&& forall|i: int| 0 <= i < r.len() ==> stems_from(rows, n, #[trigger] r[i])
    &&& forall|k: int| 0 <= k < n ==> has_id(r, (#[trigger] rows[k]).id)
}

/// The rows, each id once: the first row with it, in ascending order. With
/// several engines every row is reported once by each of them.
pub fn dedup_active_rows(rows: &Vec<OutboundRow>) -> (r: Vec<OutboundRow>)
    ensures
        is_deduped(r@, rows@, rows@.len() as int),
{
    let mut out: Vec<OutboundRow> = Vec::new();
    let mut k: usize = 0;
    while k < rows.len()
        invariant
            k <= rows@.len(),
            is_deduped(out@, rows@, k as int),
        decreases rows@.len() - k,
    {
        let id = rows[k].id;
        let ghost before = out@;
        let mut p: usize = 0;
        while p < out.len() && out[p].id < id
            invariant
                p <= out@.len(),
                out@ == before,
                forall|j: int| 0 <= j < p ==> (#[trigger] before[j]).id < id,
            decreases out@.len() - p,
        {
            p = p + 1;
        }
        if p < out.len() && out[p].id == id {
            proof {
                lemma_keep_rows(out@, rows@, k as int, p as int);
            }
        } else {
            proof {
                assert forall|j: int| p <= j < before.len() implies (#[trigger] before[j]).id
                    > id by {
                    if j > p {
                        assert(before[p as int].id < before[j].id);
                    }
                }
                lemma_new_is_first(before, rows@, k as int, p as int);
            }
            out.insert(p, rows[k].clone());
            proof {
                lemma_insert_row(before, out@, rows@, k as int, p as int);
            }
        }
        k = k + 1;
    }
    out
}

proof fn lemma_stems_longer(rows: Seq<OutboundRow>, n: int, x: OutboundRow)
    requires
        stems_from(rows, n, x),
    ensures
        stems_from(rows, n + 1, x),
{
    let k = choose|k: int| 0 <= k < n && #[trigger] is_first_row(rows, k) && rows[k] == x;
    assert(is_first_row(rows, k));
}

proof fn lemma_keep_rows(r: Seq<OutboundRow>, rows: Seq<OutboundRow>, n: int, p: int)
    requires
        0 <= n < rows.len(),
        is_deduped(r, rows, n),
        0 <= p < r.len(),
        r[p].id == rows[n].id,
    ensures
        is_deduped(r, rows, n + 1),
{
    assert forall|i: int| 0 <= i < r.len() implies stems_from(rows, n + 1, #[trigger] r[i]) by {
        lemma_stems_longer(rows, n, r[i]);
    }
    assert forall|k: int| 0 <= k < n + 1 implies has_id(r, (#[trigger] rows[k]).id) by {
        if k == n {
            assert(r[p].id == rows[k].id);
        }
    }
}

proof fn lemma_new_is_first(r: Seq<OutboundRow>, rows: Seq<OutboundRow>, n: int, p: int)
    requires
        0 <= n < rows.len(),
        is_deduped(r, rows, n),
        0 <= p <= r.len(),
        forall|j: int| 0 <= j < p ==> (#[trigger] r[j]).id < rows[n].id,
        forall|j: int| p <= j < r.len() ==> (#[trigger] r[j]).id > rows[n].id,
    ensures
        is_first_row(rows, n),
{
    assert forall|j: int| 0 <= j < n implies (#[trigger] rows[j]).id != rows[n].id by {
        assert(has_id(r, rows[j].id));
        let i = choose|i: int| 0 <= i < r.len() && (#[trigger] r[i]).id == rows[j].id;
        assert(r[i].id == rows[j].id);
    }
}

proof fn lemma_insert_row(
    before: Seq<OutboundRow>,
    after: Seq<OutboundRow>,
    rows: Seq<OutboundRow>,
    n: int,
    p: int,
)
    requires
        0 <= n < rows.len(),
        is_deduped(before, rows, n),
        is_first_row(rows, n),
        0 <= p <= before.len(),
        after == before.insert(p, rows[n]),
        forall|j: int| 0 <= j < p ==> (#[trigger] before[j]).id < rows[n].id,
        forall|j: int| p <= j < before.len() ==> (#[trigger] before[j]).id > rows[n].id,
    ensures
        is_deduped(after, rows, n + 1),
{
    assert forall|i: int, j: int| 0 <= i < j < after.len() implies (#[trigger] after[i]).id < (
    #[trigger] after[j]).id by {
        let a = if i < p {
            i
        } else {
            i - 1
        };
        let b = if j < p {
            j
        } else {
            j - 1
        };
        if i != p && j != p {
            assert(after[i] == before[a]);
            assert(after[j] == before[b]);
        } else if i == p {
            assert(after[j] == before[b]);
        } else {
            assert(after[i] == before[a]);
        }
    }
    assert forall|i: int| 0 <= i < after.len() implies stems_from(
        rows,
        n + 1,
        #[trigger] after[i],
    ) by {
        if i == p {
            assert(rows[n] == after[i]);
        } else {
            let a = if i < p {
                i
            } else {
                i - 1
            };
            assert(after[i] == before[a]);
            lemma_stems_longer(rows, n, before[a]);
        }
    }
    assert forall|k: int| 0 <= k < n + 1 implies has_id(after, (#[trigger] rows[k]).id) by {
        if k == n {
            assert(after[p].id == rows[k].id);
        } else {
            assert(has_id(before, rows[k].id));
            let i = choose|i: int| 0 <= i < before.len() && (#[trigger] before[i]).id == rows[k].id;
            let a = if i < p {
                i
            } else {
                i + 1
            };
            assert(after[a] == before[i]);
            assert(after[a].id == rows[k].id);
        }
    }
}

/// The bytes of the first `n` files of a package.
pub open spec fn bytes_total(sizes: Seq<u64>, n: int) -> nat
    decreases n,
{
    if n <= 0 {
        0
    } else {
        bytes_total(sizes, n - 1) + sizes[n - 1] as nat
    }
}

proof fn lemma_bytes_grow(sizes: Seq<u64>, m: int, n: int)
    requires
        0 <= m <= n,
    ensures
        bytes_total(sizes, m) <= bytes_total(sizes, n),
    decreases n - m,
{
    if m < n {
        lemma_bytes_grow(sizes, m, n - 1);
    }
}

/// How many files a package has and how many bytes they are, from the sizes
/// in its manifest; nothing where the manifest cannot be read.
pub fn package_totals(sizes: Option<&Vec<u64>>) -> (r: (u32, u64))
    requires
        sizes matches Some(v) ==> bytes_total(v@, v@.len() as int) <= u64::MAX,
    ensures
        match sizes {
            Some(v) => r.0 == v@.len() as u32 && r.1 == bytes_total(v@, v@.len() as int),
            None => r.0 == 0 && r.1 == 0,
        },
{
    match sizes {
        Some(v) => {
            let mut total: u64 = 0;
            let mut i: usize = 0;
            while i < v.len()
                invariant
                    i <= v@.len(),
                    bytes_total(v@, v@.len() as int) <= u64::MAX,
                    total == bytes_total(v@, i as int),
                decreases v@.len() - i,
            {
                proof {
                    lemma_bytes_grow(v@, i as int + 1, v@.len() as int);
                }
                total = total + v[i];
                i = i + 1;
            }
            (v.len() as u32, total)
        },
        None => (0, 0),
    }
}

/// Whether a transfer waits because its receiver is busy with another one of
/// this device. The one that the receiver is busy with never waits.
pub fn row_receiver_busy(row_id: i64, peer_active: Option<i64>) -> (r: bool)
    ensures
        r == (peer_active matches Some(active) && active != row_id),
{
    match peer_active {
        Some(active) => active != row_id,
        None => false,
    }
}

/// A transfer that is sent, as it is shown.
#[derive(Debug, Clone)]
pub struct OutboundSummary {
    pub id: i64,
    pub package_short: String,
    pub state: OutboundState,
    pub attempts: u32,
    pub generation: u32,
    pub batch_uuid: String,
    pub created_at: String,
    pub peer_short: String,
    pub last_error: Option<String>,
    pub retrying: bool,
    pub next_retry_at: Option<String>,
    pub byte_size: u64,
    pub file_count: u32,
    pub display_name: Option<String>,
    pub device_name: Option<String>,
    pub display_state: String,
    pub stalled_until: Option<String>,
    pub file_counts: TransferFileCounts,
    pub resendable: bool,
}

/// What is known of a transfer that is sent besides its row: the totals of its
/// package, the word for its state at this moment, and whether its files are
/// still there.
#[derive(Debug)]
pub struct RowFacts {
    pub file_count: u32,
    pub byte_size: u64,
    pub display_state: String,
    pub has_payload: bool,
}

impl Clone for RowFacts {
    fn clone(&self) -> (r: Self)
        ensures
            r == *self,
    {
        RowFacts {
            file_count: self.file_count,
            byte_size: self.byte_size,
            display_state: self.display_state.clone(),
            has_payload: self.has_payload,
        }
    }
}

/// A name that is shown: one that is not blank.
pub open spec fn shown_name(name: Option<String>) -> Option<Seq<char>> {
    match name {
        Some(n) => if is_blank(n@) {
            None
        } else {
            Some(n@)
        },
        None => None,
    }
}

fn show_name(name: Option<String>) -> (r: Option<String>)
    ensures
        is_opt_text(r, shown_name(name)),
{
    match name {
        Some(n) => {
            if blank(n.as_str()) {
                None
            } else {
                Some(n)
            }
        },
        None => None,
    }
}

/// The counts of a transfer; all zero where there are none.
pub open spec fn counts_of(m: Map<i64, TransferFileCounts>, id: i64) -> TransferFileCounts {
    if m.contains_key(id) {
        m[id]
    } else {
        TransferFileCounts { total: 0, done: 0, failed: 0 }
    }
}

fn find_counts(m: &HashMap<i64, TransferFileCounts>, id: i64) -> (r: TransferFileCounts)
    ensures
        r == counts_of(m@, id),
{
    match m.get(&id) {
        Some(c) => *c,
        None => TransferFileCounts::default(),
    }
}

/// Whether `s` is the summary of a row.
pub open spec fn is_outbound_summary(
    s: OutboundSummary,
    row: OutboundRow,
    facts: RowFacts,
    device_names: Map<Seq<char>, Seq<char>>,
    counts: Map<i64, TransferFileCounts>,
    resendable: bool,
) -> bool {
    &&& s.id == row.id
    &&& s.package_short@ == shortened(package_key(row.package_ref@))
    &&& s.state == row.state
    &&& s.attempts == row.attempts
    &&& s.generation == row.generation
    &&& s.batch_uuid@ == package_key(row.package_ref@)
    &&& s.created_at == row.created_at
    &&& s.peer_short@ == shortened(hex_of(row.peer@))
    &&& s.last_error == row.last_error
    &&& s.retrying == (row.next_retry_at is Some)
    &&& s.next_retry_at == row.next_retry_at
    &&& s.byte_size == facts.byte_size
    &&& s.file_count == facts.file_count
    &&& is_opt_text(s.display_name, shown_name(row.display_name))
    &&& is_opt_text(s.device_name, value_at(device_names, hex_of(row.peer@)))
    &&& s.display_state == facts.display_state
    &&& s.stalled_until == if facts.display_state@ == "waiting"@ {
        row.next_retry_at
    } else {
        None
    }
    &&& s.file_counts == counts_of(counts, row.id)
    &&& s.resendable == resendable
}

/// The summary of a row. Whether the transfer can be sent again is not looked
/// at here.
pub fn outbound_summary(
    row: OutboundRow,
    facts: RowFacts,
    device_names: &TextMap,
    file_counts: &HashMap<i64, TransferFileCounts>,
) -> (r: OutboundSummary)
    ensures
        is_outbound_summary(r, row, facts, device_names@, file_counts@, false),
{
    let peer_hex = node_id_hex(&row.peer);
    let stalled_until = if same_text(facts.display_state.as_str(), "waiting") {
        copy_opt(&row.next_retry_at)
    } else {
        None
    };
    OutboundSummary {
        id: row.id,
        package_short: short_pkg(row.package_ref.as_str()),
        state: row.state,
        attempts: row.attempts,
        generation: row.generation,
        batch_uuid: outbound_package_key(row.package_ref.as_str()),
        created_at: row.created_at,
        peer_short: short_id(peer_hex.as_str()),
        last_error: row.last_error,
        retrying: row.next_retry_at.is_some(),
        next_retry_at: row.next_retry_at,
        byte_size: facts.byte_size,
        file_count: facts.file_count,
        display_name: show_name(row.display_name),
        device_name: device_names.lookup(peer_hex.as_str()),
        display_state: facts.display_state,
        stalled_until,
        file_counts: find_counts(file_counts, row.id),
        resendable: false,
    }
}

/// A transfer that is received, as it is shown.
#[derive(Debug, Clone)]
pub struct InboundSummary {
    pub id: i64,
    pub package_id: String,
    pub package_short: String,
    pub peer_short: String,
    pub display_state: String,
    pub stalled_until: Option<String>,
    pub state: InboundState,
    pub generation: u32,
    pub batch_uuid: String,
    pub frame_count: u32,
    pub byte_size: u64,
    pub bytes_done: u64,
    pub created_at: String,
    pub display_name: Option<String>,
    pub device_name: Option<String>,
    pub file_counts: TransferFileCounts,
    pub last_error: Option<String>,
    pub peer_kind: Option<String>,
}

/// The word for the state of a transfer that is received: one whose sender is
/// gone waits for it, and one that was announced and waits for a free slot is
/// queued.
pub open spec fn inbound_display(
    state: InboundState,
    package_id: Seq<char>,
    parked: Seq<String>,
) -> Seq<char> {
    if state == InboundState::Waiting {
        "waiting_peer"@
    } else if state == InboundState::Announced && holds_text(parked, package_id) {
        "queued"@
    } else {
        state.word()
    }
}

/// The key of a transfer that is received: that of its batch, or for old ones
/// the id of the package.
pub open spec fn inbound_key(row: InboundRow) -> Seq<char> {
    match row.batch_uuid {
        Some(b) => b@,
        None => row.package_id@,
    }
}

/// What the sender can do: what the row says, or else what is kept of the
/// device.
pub open spec fn sender_kind(
    row: InboundRow,
    kinds: Map<Seq<char>, Seq<char>>,
) -> Option<Seq<char>> {
    match row.peer_capability {
        Some(c) => Some(c@),
        None => value_at(kinds, row.peer@),
    }
}

/// Whether `s` is the summary of a row.
pub open spec fn is_inbound_summary(
    s: InboundSummary,
    row: InboundRow,
    device_names: Map<Seq<char>, Seq<char>>,
    device_kinds: Map<Seq<char>, Seq<char>>,
    counts: Map<i64, TransferFileCounts>,
    parked: Seq<String>,
) -> bool {
    &&& s.id == row.id
    &&& s.package_id == row.package_id
    &&& s.package_short@ == shortened(row.package_id@)
    &&& s.peer_short@ == shortened(row.peer@)
    &&& s.display_state@ == inbound_display(row.state, row.package_id@, parked)
    &&& s.stalled_until is None
    &&& s.state == row.state
    &&& s.generation == row.generation
    &&& s.batch_uuid@ == inbound_key(row)
    &&& s.frame_count == row.frame_count
    &&& s.byte_size == row.byte_size
    &&& s.bytes_done == row.bytes_done
    &&& s.created_at == row.created_at
    &&& is_opt_text(s.display_name, shown_name(row.display_name))
    &&& is_opt_text(s.device_name, value_at(device_names, row.peer@))
    &&& s.file_counts == counts_of(counts, row.id)
    &&& s.last_error == row.last_error
    &&& is_opt_text(s.peer_kind, sender_kind(row, device_kinds))
}

/// The summary of a row. `parked_for_slot` holds the packages that wait for a
/// free slot to be received in.
pub fn inbound_summary(
    row: InboundRow,
    device_names: &TextMap,
    device_kinds: &TextMap,
    file_counts: &HashMap<i64, TransferFileCounts>,
    parked_for_slot: &Vec<String>,
) -> (r: InboundSummary)
    ensures
        is_inbound_summary(
            r,
            row,
            device_names@,
            device_kinds@,
            file_counts@,
            parked_for_slot@,
        ),
{
    let batch_uuid = match &row.batch_uuid {
        Some(b) => b.clone(),
        None => row.package_id.clone(),
    };
    let peer_kind = match &row.peer_capability {
        Some(c) => Some(c.clone()),
        None => device_kinds.lookup(row.peer.as_str()),
    };
    let display_state = match row.state {
        InboundState::Waiting => "waiting_peer".to_owned(),
        InboundState::Announced => {
            if list_holds(parked_for_slot, row.package_id.as_str()) {
                "queued".to_owned()
            } else {
                row.state.as_str().to_owned()
            }
        },
        _ => row.state.as_str().to_owned(),
    };
    let package_short = short_id(row.package_id.as_str());
    let peer_short = short_id(row.peer.as_str());
    let device_name = device_names.lookup(row.peer.as_str());
    InboundSummary {
        id: row.id,
        package_id: row.package_id,
        package_short,
        peer_short,
        display_state,
        stalled_until: None,
        state: row.state,
        generation: row.generation,
        batch_uuid,
        frame_count: row.frame_count,
        byte_size: row.byte_size,
        bytes_done: row.bytes_done,
        created_at: row.created_at,
        display_name: show_name(row.display_name),
        device_name,
        file_counts: find_counts(file_counts, row.id),
        last_error: row.last_error,
        peer_kind,
    }
}

} // verus!
