//! After a restart: the engines of the devices that something is still to be
//! sent to are built anew.

use crate::api::error::{ApiError, Refusal};
use crate::api::sync::node_id::{hex_of, holds_node, list_holds_node, NodeId};
use crate::api::sync::peers::{
    account_peers, cached_authorized_peer_hexes, distinct_pending_peers, distinct_texts,
    filter_account_peers, has_rows_for, law_each_pending_peer_once, pending_peers,
};
use crate::api::sync::rows::OutboundRow;
use crate::api::sync::settings_text::lines_of;
use crate::api::sync::transfers::told;
use crate::text::{holds_text, texts};
use vstd::prelude::*;
use vstd::string::*;

verus! {

/// Why the rows of the transfers could not be read.
#[derive(Debug)]
pub enum StoreFault {
    Open(String),
    Read(String),
}

/// What is said of a fault.
pub open spec fn fault_text(fault: StoreFault) -> Seq<char> {
    match fault {
        StoreFault::Open(why) => "open catalog sync store: "@ + why@,
        StoreFault::Read(why) => "read non-terminal outbound rows: "@ + why@,
    }
}

/// Those of the first `n` devices whose engines do not run.
pub open spec fn not_started(peers: Seq<NodeId>, started: Seq<NodeId>, n: int) -> Seq<NodeId>
    decreases n,
{
    if n <= 0 {
        Seq::empty()
    } else if holds_node(started, peers[n - 1]@) {
        not_started(peers, started, n - 1)
    } else {
        not_started(peers, started, n - 1).push(peers[n - 1])
    }
}

/// The devices that something waits for and that engines may run for: with a
/// list only those that are on it.
pub open spec fn allowed_peers(rows: Seq<OutboundRow>, authorized: Option<Seq<String>>) -> Seq<
    NodeId,
> {
    let pending = pending_peers(rows, rows.len() as int);
    match authorized {
        Some(list) => account_peers(pending, list, pending.len() as int),
        None => pending,
    }
}

/// The devices that engines are built for: those of the rows that are not
/// finished, each once, with a list only those that are on it, and without
/// those whose engines run already.
pub open spec fn to_resurrect(
    rows: Seq<OutboundRow>,
    authorized: Option<Seq<String>>,
    started: Seq<NodeId>,
) -> Seq<NodeId> {
    let allowed = allowed_peers(rows, authorized);
    not_started(allowed, started, allowed.len() as int)
}

/// Leaves out the devices whose engines run.
fn drop_started(peers: Vec<NodeId>, started: &Vec<NodeId>) -> (r: Vec<NodeId>)
    ensures
        r@ == not_started(peers@, started@, peers@.len() as int),
{
    let mut out: Vec<NodeId> = Vec::new();
    let mut i: usize = 0;
    while i < peers.len()
        invariant
            i <= peers@.len(),
            out@ == not_started(peers@, started@, i as int),
        decreases peers@.len() - i,
    {
        if !list_holds_node(started, &peers[i]) {
            out.push(peers[i]);
        }
        i = i + 1;
    }
    out
}

/// The devices that engines are built for, in this order; `started` are those
/// whose engines run already. Without a list, every device may have one.
pub fn resurrect_pending_senders_with(
    rows: Result<Vec<OutboundRow>, StoreFault>,
    authorized: Option<&Vec<String>>,
    started: &Vec<NodeId>,
) -> (r: Result<Vec<NodeId>, ApiError>)
    ensures
        match rows {
            Ok(rs) => r matches Ok(peers) && peers@ == to_resurrect(
                rs@,
                match authorized {
                    Some(list) => Some(list@),
                    None => None,
                },
                started@,
            ),
            Err(fault) => told(r) == Err::<Vec<NodeId>, Refusal>(
                Refusal::Internal(fault_text(fault)),
            ),
        },
{
    match rows {
        Ok(rs) => {
            let pending = distinct_pending_peers(&rs);
            let allowed = match authorized {
                Some(list) => filter_account_peers(pending, list),
                None => pending,
            };
            Ok(drop_started(allowed, started))
        },
        Err(fault) => {
            let m = match fault {
                StoreFault::Open(why) => {
                    let mut m: String = "open catalog sync store: ".to_owned();
                    m.append(why.as_str());
                    m
                },
                StoreFault::Read(why) => {
                    let mut m: String = "read non-terminal outbound rows: ".to_owned();
                    m.append(why.as_str());
                    m
                },
            };
            Err(ApiError::Internal(m))
        },
    }
}

/// What came of building the engine of a device.
#[derive(Debug, Clone, Copy, PartialEq, Eq, Structural)]
pub enum EngineVisit {
    Built,
    /// It could not be built; the other devices do not suffer for it.
    Failed,
}

/// How many of the first `n` engines were built.
pub open spec fn built_of(visits: Seq<EngineVisit>, n: int) -> nat
    decreases n,
{
    if n <= 0 {
        0
    } else if visits[n - 1] == EngineVisit::Built {
        built_of(visits, n - 1) + 1
    } else {
        built_of(visits, n - 1)
    }
}

/// How many engines were built.
pub fn ensured_engines(visits: &Vec<EngineVisit>) -> (r: usize)
    ensures
        r == built_of(visits@, visits@.len() as int),
{
    let mut n: usize = 0;
    let mut i: usize = 0;
    while i < visits.len()
        invariant
            n <= i <= visits@.len(),
            n == built_of(visits@, i as int),
        decreases visits@.len() - i,
    {
        if visits[i] == EngineVisit::Built {
            n = n + 1;
        }
        i = i + 1;
    }
    n
}

/// The list that a device with an account keeps to; one without an account, or
/// of which that cannot be told, keeps to none.
pub fn resurrect_pending_senders(signed_in: Option<bool>, authorized: Option<&str>) -> (r: Option<
    Vec<String>,
>)
    ensures
        match signed_in {
            Some(true) => r matches Some(list) && texts(list@) == match authorized {
                Some(t) => distinct_texts(lines_of(t@), lines_of(t@).len() as int),
                None => Seq::<Seq<char>>::empty(),
            },
            _ => r is None,
        },
{
    match signed_in {
        Some(true) => Some(cached_authorized_peer_hexes(authorized)),
        _ => None,
    }
}

/// What the list leaves of different devices are different devices, all of
/// them on the list, and no device on the list is left out.
proof fn lemma_account_peers(peers: Seq<NodeId>, authorized: Seq<String>, n: int)
    requires
        0 <= n <= peers.len(),
        all_differ(peers),
    ensures
        all_differ(account_peers(peers, authorized, n)),
        forall|k: int|
            0 <= k < account_peers(peers, authorized, n).len() ==> holds_text(
                authorized,
                hex_of((#[trigger] account_peers(peers, authorized, n)[k])@),
            ) && stands_before(peers, n, account_peers(peers, authorized, n)[k]@),
        forall|i: int|
            0 <= i < n && holds_text(authorized, hex_of(peers[i]@)) ==> holds_node(
                account_peers(peers, authorized, n),
                (#[trigger] peers[i])@,
            ),
    decreases n,
{
    if n > 0 {
        lemma_account_peers(peers, authorized, n - 1);
        let before = account_peers(peers, authorized, n - 1);
        let now = account_peers(peers, authorized, n);
        let last = peers[n - 1];
        lemma_pushed(peers, before, now, n, holds_text(authorized, hex_of(last@)));
        assert forall|i: int| 0 <= i < n && holds_text(
            authorized,
            hex_of(peers[i]@),
        ) implies holds_node(now, (#[trigger] peers[i])@) by {
            if i < n - 1 {
                assert(holds_node(before, peers[i]@));
            }
        }
        assert forall|k: int| 0 <= k < now.len() implies holds_text(
            authorized,
            hex_of((#[trigger] now[k])@),
        ) && stands_before(peers, n, now[k]@) by {
            if k < before.len() {
                assert(now[k] == before[k]);
            }
        }
    }
}

/// What is left of different devices without those that run are different
/// devices, none of which runs, and no other device is left out.
proof fn lemma_not_started(peers: Seq<NodeId>, started: Seq<NodeId>, n: int)
    requires
        0 <= n <= peers.len(),
        all_differ(peers),
    ensures
        all_differ(not_started(peers, started, n)),
        forall|k: int|
            0 <= k < not_started(peers, started, n).len() ==> !holds_node(
                started,
                (#[trigger] not_started(peers, started, n)[k])@,
            ) && stands_before(peers, n, not_started(peers, started, n)[k]@),
        forall|i: int|
            0 <= i < n && !holds_node(started, peers[i]@) ==> holds_node(
                not_started(peers, started, n),
                (#[trigger] peers[i])@,
            ),
    decreases n,
{
    if n > 0 {
        lemma_not_started(peers, started, n - 1);
        let before = not_started(peers, started, n - 1);
        let now = not_started(peers, started, n);
        lemma_pushed(peers, before, now, n, !holds_node(started, peers[n - 1]@));
        assert forall|i: int| 0 <= i < n && !holds_node(started, peers[i]@) implies holds_node(
            now,
            (#[trigger] peers[i])@,
        ) by {
            if i < n - 1 {
                assert(holds_node(before, peers[i]@));
            }
        }
        assert forall|k: int| 0 <= k < now.len() implies !holds_node(
            started,
            (#[trigger] now[k])@,
        ) && stands_before(peers, n, now[k]@) by {
            if k < before.len() {
                assert(now[k] == before[k]);
            }
        }
    }
}

/// Whether no device occurs twice.
pub open spec fn all_differ(peers: Seq<NodeId>) -> bool {
    forall|i: int, j: int|
        0 <= i < j < peers.len() ==> (#[trigger] peers[i])@ != (#[trigger] peers[j])@
}

/// Whether a device is one of the first `n`.
pub open spec fn stands_before(peers: Seq<NodeId>, n: int, id: Seq<u8>) -> bool {
    exists|i: int| 0 <= i < n && (#[trigger] peers[i])@ == id
}

/// One step of choosing among different devices: the next one may be added.
proof fn lemma_pushed(
    peers: Seq<NodeId>,
    before: Seq<NodeId>,
    now: Seq<NodeId>,
    n: int,
    taken: bool,
)
    requires
        0 < n <= peers.len(),
        all_differ(peers),
        all_differ(before),
        forall|k: int|
            0 <= k < before.len() ==> stands_before(peers, n - 1, (#[trigger] before[k])@),
        now == if taken {
            before.push(peers[n - 1])
        } else {
            before
        },
    ensures
        all_differ(now),
        forall|k: int| 0 <= k < now.len() ==> stands_before(peers, n, (#[trigger] now[k])@),
        forall|id: Seq<u8>| #[trigger] holds_node(before, id) ==> holds_node(now, id),
        taken ==> holds_node(now, peers[n - 1]@),
{
    assert forall|k: int| 0 <= k < now.len() implies stands_before(
        peers,
        n,
        (#[trigger] now[k])@,
    ) by {
        if k < before.len() {
            assert(now[k] == before[k]);
            let i = choose|i: int| 0 <= i < n - 1 && (#[trigger] peers[i])@ == before[k]@;
            assert(peers[i]@ == now[k]@);
        } else {
            assert(peers[n - 1]@ == now[k]@);
        }
    }
    assert forall|i: int, j: int| 0 <= i < j < now.len() implies (#[trigger] now[i])@ != (
    #[trigger] now[j])@ by {
        assert(now[i] == before[i]);
        if j < before.len() {
            assert(now[j] == before[j]);
        } else {
            assert(stands_before(peers, n - 1, before[i]@));
        }
    }
    assert forall|id: Seq<u8>| #[trigger] holds_node(before, id) implies holds_node(now, id) by {
        let k = choose|k: int| 0 <= k < before.len() && (#[trigger] before[k])@ == id;
        assert(now[k]@ == id);
    }
    if taken {
        assert(now[before.len() as int]@ == peers[n - 1]@);
    }
}

/// Engines are built for exactly the devices that want one, each once: a
/// device gets one if and only if a transfer to it is not finished, the list,
/// where there is one, has it, and none runs for it already.
pub proof fn law_engines_are_built_where_wanted(
    rows: Seq<OutboundRow>,
    authorized: Option<Seq<String>>,
    started: Seq<NodeId>,
    id: Seq<u8>,
)
    ensures
        all_differ(to_resurrect(rows, authorized, started)),
        holds_node(to_resurrect(rows, authorized, started), id) <==> has_rows_for(rows, id) && (
        authorized matches Some(list) ==> holds_text(list, hex_of(id))) && !holds_node(
            started,
            id,
        ),
{
    let n = rows.len() as int;
    let pending = pending_peers(rows, n);
    let allowed = allowed_peers(rows, authorized);
    let built = to_resurrect(rows, authorized, started);
    law_each_pending_peer_once(rows, n);
    if let Some(list) = authorized {
        lemma_account_peers(pending, list, pending.len() as int);
    }
    lemma_not_started(allowed, started, allowed.len() as int);
    if holds_node(built, id) {
        let k = choose|k: int| 0 <= k < built.len() && (#[trigger] built[k])@ == id;
        let m = allowed.len() as int;
        assert(stands_before(allowed, m, built[k]@));
        let j = choose|j: int| 0 <= j < m && (#[trigger] allowed[j])@ == id;
        if let Some(list) = authorized {
            assert(stands_before(pending, pending.len() as int, allowed[j]@));
            let i = choose|i: int| 0 <= i < pending.len() && (#[trigger] pending[i])@ == id;
            assert(has_rows_for(rows, pending[i]@));
        } else {
            assert(has_rows_for(rows, pending[j]@));
        }
    }
    if has_rows_for(rows, id) && (authorized matches Some(list) ==> holds_text(list, hex_of(id)))
        && !holds_node(started, id) {
        let i = choose|i: int|
            0 <= i < n && (#[trigger] rows[i]).peer@ == id && !rows[i].state.terminal();
        assert(holds_node(pending, rows[i].peer@));
        let j = choose|j: int| 0 <= j < pending.len() && (#[trigger] pending[j])@ == id;
        if let Some(list) = authorized {
            assert(holds_node(allowed, pending[j]@));
        }
        assert(holds_node(allowed, id));
        let a = choose|a: int| 0 <= a < allowed.len() && (#[trigger] allowed[a])@ == id;
        assert(holds_node(built, allowed[a]@));
    }
}

} // verus!
