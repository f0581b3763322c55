//! What is known of the devices of an account, when they are turned to, and what is
//! handed to a sender.

use crate::api::sync::node_id::{hex_of, node_id_hex, NodeId};
use crate::api::sync::peers::{
    account_peer_hexes, account_peers, device_hex, device_hexes, distinct_pending_peers,
    filter_account_peers, has_pending_rows_for, hex_of_key_bytes, key_bytes,
    law_each_pending_peer_once, law_every_device_is_known, node_of_key_bytes, opt_bytes,
    pending_peers, presence_debounce_admits, pubkey_b64_to_hex, AccountDevice, PresenceSeen,
};
use crate::api::sync::rows::OutboundRow;
use crate::api::sync::selection::{
    build_and_enqueue_selection, dir_name, enqueue_sync_selection, split_rel_path, BuiltSelection,
    EnqueueOrder, EnqueueSelectionResult,
};
use crate::api::sync::status::{derive_transport_health, TransportHealth};
use crate::api::sync::summaries::{bytes_total, package_totals, row_receiver_busy};
use crate::api::sync::transfer_files::{base_name, last_slash};
use crate::text::{holds_text, texts};
use vstd::prelude::*;

verus! {

/// A key makes a node exactly if it has thirty-two bytes; the node is these bytes, and
/// its hexadecimal form is the one that the key gives.
pub proof fn law_a_key_makes_a_node(
    bytes: Option<Vec<u8>>,
    node: Option<NodeId>,
    hex: Option<String>,
    id: NodeId,
    text: String,
)
    requires
        call_ensures(node_of_key_bytes, (bytes,), node),
        call_ensures(hex_of_key_bytes, (bytes,), hex),
        node matches Some(n) ==> n == id,
        call_ensures(node_id_hex, (&id,), text),
    ensures
        node is Some <==> (bytes matches Some(b) && b@.len() == 32),
        node matches Some(n) ==> n@ == bytes->Some_0@,
        hex is Some <==> node is Some,
        hex matches Some(h) ==> h@ == text@,
{
    assert(opt_bytes(bytes) is Some <==> bytes is Some);
}

/// The node and the hexadecimal form that a public key gives are of one device.
pub proof fn law_a_public_key_is_of_one_node(
    key: &str,
    node: Option<NodeId>,
    hex: Option<String>,
    id: NodeId,
    text: String,
)
    requires
        call_ensures(key_bytes, (key,), node),
        call_ensures(pubkey_b64_to_hex, (key,), hex),
        node matches Some(n) ==> n == id,
        call_ensures(node_id_hex, (&id,), text),
    ensures
        hex is Some <==> node is Some,
        hex matches Some(h) ==> h@ == text@,
{
}

proof fn lemma_listed_is_a_device(ds: Seq<AccountDevice>, n: int, k: int)
    requires
        0 <= n <= ds.len(),
        0 <= k < device_hexes(ds, n).len(),
    ensures
        exists|i: int| 0 <= i < n && device_hex(#[trigger] ds[i]) == Some(device_hexes(ds, n)[k]),
    decreases n,
{
    if n > 0 {
        if k < device_hexes(ds, n - 1).len() {
            lemma_listed_is_a_device(ds, n - 1, k);
            let i = choose|i: int|
                0 <= i < n - 1 && device_hex(#[trigger] ds[i]) == Some(device_hexes(ds, n - 1)[k]);
            assert(device_hex(ds[i]) == Some(device_hexes(ds, n)[k]));
        } else {
            assert(device_hex(ds[n - 1]) == Some(device_hexes(ds, n)[k]));
        }
    }
}

/// Whether some device has a key that gives the hexadecimal form.
pub open spec fn is_of_a_device(ds: Seq<AccountDevice>, hex: Seq<char>) -> bool {
    exists|i: int| 0 <= i < ds.len() && device_hex(#[trigger] ds[i]) == Some(hex)
}

/// The devices that may send are those of the account, all of them and no others.
pub proof fn law_the_account_may_send(
    devices: Vec<AccountDevice>,
    r: Vec<String>,
    i: int,
    key: &str,
    hex: Option<String>,
)
    requires
        call_ensures(account_peer_hexes, (&devices,), r),
        0 <= i < devices@.len(),
        devices@[i].pubkey@ == key@,
        call_ensures(pubkey_b64_to_hex, (key,), hex),
    ensures
        hex matches Some(h) ==> texts(r@).contains(h@),
        forall|k: int| 0 <= k < r@.len() ==> is_of_a_device(devices@, (#[trigger] r@[k])@),
{
    let n = devices@.len() as int;
    if let Some(h) = hex {
        law_every_device_is_known(devices@, n, i);
    }
    assert forall|k: int| 0 <= k < r@.len() implies is_of_a_device(
        devices@,
        (#[trigger] r@[k])@,
    ) by {
        assert(texts(r@)[k] == r@[k]@);
        lemma_listed_is_a_device(devices@, n, k);
    }
}

/// The first beacon of a device is acted on; a further one only ten seconds or more
/// after the last that was. Only a beacon that is acted on is remembered, and none of
/// another device is forgotten.
pub proof fn law_beacons_are_ten_seconds_apart(
    seen: &mut PresenceSeen,
    peer: NodeId,
    now: u64,
    r: bool,
    other: Seq<u8>,
)
    requires
        call_ensures(presence_debounce_admits, (seen, peer, now), r),
    ensures
        old(seen).last(peer@) is None ==> r,
        old(seen).last(peer@) matches Some(t) ==> (r <==> now - t >= 10_000_000_000),
        r ==> final(seen).last(peer@) == Some(now),
        !r ==> final(seen).last(peer@) == old(seen).last(peer@),
        other != peer@ ==> final(seen).last(other) == old(seen).last(other),
{
}

/// Whether a transfer is still to be sent.
pub open spec fn is_pending(row: OutboundRow) -> bool {
    row.state is Preparing || row.state is Queued || row.state is Announced || row.state
        is Transferring || row.state is Delivered
}

/// Something is pending for a device exactly if a transfer to it is still to be sent.
pub proof fn law_pending_is_what_is_not_over(rows: Vec<OutboundRow>, peer: NodeId, r: bool)
    requires
        call_ensures(has_pending_rows_for, (&rows, &peer), r),
    ensures
        r <==> exists|i: int|
            0 <= i < rows@.len() && (#[trigger] rows@[i]).peer@ == peer@ && is_pending(rows@[i]),
{
    if exists|i: int|
        0 <= i < rows@.len() && (#[trigger] rows@[i]).peer@ == peer@ && is_pending(rows@[i]) {
        let i = choose|i: int|
            0 <= i < rows@.len() && (#[trigger] rows@[i]).peer@ == peer@ && is_pending(rows@[i]);
        assert(!rows@[i].state.terminal());
    }
    if r {
        let i = choose|i: int|
            0 <= i < rows@.len() && (#[trigger] rows@[i]).peer@ == peer@
                && !rows@[i].state.terminal();
        assert(is_pending(rows@[i]));
    }
}

/// Each device that something is pending for is listed once, and no other device is.
pub proof fn law_each_waiting_device_once(
    rows: Vec<OutboundRow>,
    r: Vec<NodeId>,
    peer: NodeId,
    pending: bool,
    a: int,
    b: int,
)
    requires
        call_ensures(distinct_pending_peers, (&rows,), r),
        call_ensures(has_pending_rows_for, (&rows, &peer), pending),
    ensures
        pending <==> exists|k: int| 0 <= k < r@.len() && (#[trigger] r@[k])@ == peer@,
        0 <= a < b < r@.len() ==> r@[a]@ != r@[b]@,
{
    let n = rows@.len() as int;
    law_each_pending_peer_once(rows@, n);
    if pending {
        let i = choose|i: int|
            0 <= i < n && (#[trigger] rows@[i]).peer@ == peer@ && !rows@[i].state.terminal();
        assert(!rows@[i].state.terminal());
        assert(rows@[i].peer@ == peer@);
    }
    assert(pending_peers(rows@, n) == r@);
}

proof fn lemma_account_peers(peers: Seq<NodeId>, authorized: Seq<String>, n: int)
    requires
        0 <= n <= peers.len(),
    ensures
        account_peers(peers, authorized, n) == peers.take(n).filter(
            |p: NodeId| holds_text(authorized, hex_of(p@)),
        ),
    decreases n,
{
    reveal(Seq::filter);
    if n > 0 {
        lemma_account_peers(peers, authorized, n - 1);
        assert(peers.take(n).drop_last() =~= peers.take(n - 1));
    }
}

/// Of some devices, those of the account are left, in their order.
pub proof fn law_only_the_account_is_left(
    peers: Vec<NodeId>,
    authorized: Vec<String>,
    r: Vec<NodeId>,
)
    requires
        call_ensures(filter_account_peers, (peers, &authorized), r),
    ensures
        r@ == peers@.filter(
            |p: NodeId|
                exists|k: int| 0 <= k < authorized@.len() && (#[trigger] authorized@[k])@ == hex_of(p@),
        ),
{
    lemma_account_peers(peers@, authorized@, peers@.len() as int);
    assert(peers@.take(peers@.len() as int) =~= peers@);
    let f = |p: NodeId| holds_text(authorized@, hex_of(p@));
    let g = |p: NodeId|
        exists|k: int| 0 <= k < authorized@.len() && (#[trigger] authorized@[k])@ == hex_of(p@);
    assert(f =~= g);
}

/// The sender gets a package exactly if one was built, and gets it as it was built, to
/// land in a folder of its own. What is told adds up with it.
pub proof fn law_the_sender_gets_what_was_built(
    built: BuiltSelection,
    order: Option<EnqueueOrder>,
    told: EnqueueSelectionResult,
)
    requires
        call_ensures(build_and_enqueue_selection, (built,), (order, told)),
    ensures
        order is Some <==> built.pkg_dir is Some,
        order matches Some(o) ==> o.dir == built.pkg_dir->Some_0 && o.display_name
            == built.display_name && o.files == built.files && o.layout is Batch,
        told.enqueued_count == built.eligible@.len(),
        told.eligible_count == built.eligible@.len(),
        told.total_count == built.total,
        told.ineligible == built.ineligible,
{
}

/// No sender is started for a selection of nothing, and only for that.
pub proof fn law_nothing_is_sent_for_nothing(
    frames: Vec<i64>,
    r: Option<EnqueueSelectionResult>,
)
    requires
        call_ensures(enqueue_sync_selection, (&frames,), r),
    ensures
        r is Some <==> frames@.len() == 0,
        r matches Some(t) ==> t.enqueued_count == 0 && t.eligible_count == 0 && t.total_count == 0
            && t.ineligible@.len() == 0,
{
}

proof fn lemma_slash_is_last(s: Seq<char>, n: int)
    requires
        0 <= n <= s.len(),
    ensures
        match last_slash(s, n) {
            Some(i) => 0 <= i < n && s[i] == '/' && forall|k: int| i < k < n ==> #[trigger] s[k]
                != '/',
            None => forall|k: int| 0 <= k < n ==> #[trigger] s[k] != '/',
        },
    decreases n,
{
    if n > 0 && s[n - 1] != '/' {
        lemma_slash_is_last(s, n - 1);
    }
}

/// A path is cut at its last slash, so that its two parts make it again.
pub proof fn law_a_path_is_cut_at_its_last_slash(path: &str, dir: String, name: String)
    requires
        call_ensures(split_rel_path, (path,), (dir, name)),
    ensures
        forall|i: int| 0 <= i < name@.len() ==> #[trigger] name@[i] != '/',
        path@ == name@ && dir@.len() == 0 || path@ == dir@ + seq!['/'] + name@,
{
    let s = path@;
    lemma_slash_is_last(s, s.len() as int);
    assert(dir@ == dir_name(s) && name@ == base_name(s));
    if let Some(i) = last_slash(s, s.len() as int) {
        assert(s =~= s.take(i) + seq!['/'] + s.skip(i + 1));
    }
}

/// The node says how the device can be reached. Without one, a device that has an
/// account and knows no relays lacks them; any other one has not started.
pub proof fn law_health_is_told(
    node: Option<TransportHealth>,
    device: Option<&str>,
    relays: Option<&str>,
    r: TransportHealth,
)
    requires
        call_ensures(derive_transport_health, (node, device, relays), r),
    ensures
        node matches Some(h) ==> r == h,
        node is None && device is None ==> r.status@ == "not_started"@,
        node is None && relays is None && (device matches Some(d) && d@.len() > 0) ==> r.status@
            == "no_relay_map"@,
        node is None ==> r.status@ == "not_started"@ || r.status@ == "no_relay_map"@,
{
}

/// A transfer waits for its receiver only while this one is busy with another one.
pub proof fn law_a_transfer_never_waits_for_itself(
    row: i64,
    active: Option<i64>,
    r: bool,
)
    requires
        call_ensures(row_receiver_busy, (row, active), r),
    ensures
        r ==> active is Some && active != Some(row),
        active is Some && active != Some(row) ==> r,
{
}

/// Nothing is told of a package whose manifest cannot be read; of an empty one nothing
/// is there; one file more makes it one file and its size larger.
pub proof fn law_a_package_is_as_large_as_its_files(
    sizes: Vec<u64>,
    more: Vec<u64>,
    r: (u32, u64),
    q: (u32, u64),
    none: (u32, u64),
)
    requires
        call_ensures(package_totals, (Some(&sizes),), r),
        call_ensures(package_totals, (Some(&more),), q),
        call_ensures(package_totals, (None,), none),
        more@.len() == sizes@.len() + 1,
        more@.drop_last() == sizes@,
        more@.len() <= u32::MAX,
    ensures
        none == (0u32, 0u64),
        q.0 == r.0 + 1,
        q.1 == r.1 + more@.last(),
        sizes@.len() == 0 ==> r.0 == 0 && r.1 == 0,
{
    lemma_bytes_prefix(sizes@, more@, sizes@.len() as int);
}

proof fn lemma_bytes_prefix(a: Seq<u64>, b: Seq<u64>, n: int)
    requires
        0 <= n <= a.len() <= b.len(),
        b.take(a.len() as int) == a,
    ensures
        bytes_total(a, n)
            == bytes_total(b, n),
    decreases n,
{
    if n > 0 {
        lemma_bytes_prefix(a, b, n - 1);
        assert(b.take(a.len() as int)[n - 1] == a[n - 1]);
    }
}

} // verus!
