//! Who is let in, who is turned to, and how the device comes online.

use crate::api::error::{ApiError, Refusal};
use crate::api::sync::node_id::{hex_of, holds_node, node_of_hex, NodeId};
use crate::api::sync::peers::{
    account_device_capabilities, account_device_names, account_signed_in, allow_default_relays,
    autostart_gate, base64_bytes, broadcast_presence, cached_authorized_peer_hexes, connect_gate,
    dev_pairing_enabled, device_capabilities, device_hex, device_names, distinct_texts,
    handle_peer_presence, has_rows_for, ids_of, others_of, peer_authorizer,
    sync_configured, sync_paths, AccountDevice, DeviceCapability, PresenceAction, PresenceSeen,
};
use crate::api::sync::resurrection::{
    all_differ, built_of, ensured_engines, law_engines_are_built_where_wanted,
    resurrect_pending_senders, resurrect_pending_senders_with, EngineVisit, StoreFault,
};
use crate::api::sync::rows::OutboundRow;
use crate::api::sync::settings::{
    configured_max_concurrent_receives, get_sync_auto_mode, set_sync_auto_mode,
    set_sync_max_concurrent_receives, set_sync_upload_limit, validate_max_concurrent_receives,
    validate_upload_limit,
};
use crate::api::sync::settings_text::{lined_up, lines_of};
use crate::api::sync::startup::{
    autostart_if_enabled, cleanup_orphan_blob_stores, ensure_sender_engine, get_pairing_ticket,
    incoming_resolver, law_refreshed_list_is_the_account, refresh_authorized_peers, reported_addr,
    resolve_relay_mode, sender_addr_refresher, PeerCache, RelayPlan, StartupStep,
};
use crate::api::sync::status_laws::has_ended;
use crate::api::sync::transfers::told;
use crate::paths::{joined, parent};
use crate::text::{decimal, holds_text, same_but_ascii_case, texts};
use crate::text_map::TextMap;
use vstd::prelude::*;

verus! {

/// A device that is signed in takes packages from the nodes on its list and from
/// nobody else, and so from nobody where it keeps no list; one that is not signed in
/// takes them from everybody. A connection is let in where a package is, and besides
/// where the node is a member of some project.
pub proof fn law_only_the_account_is_let_in(
    device_id: Option<&str>,
    authorized: Option<&str>,
    in_any_project: bool,
    from: NodeId,
    package: bool,
    connection: bool,
)
    requires
        call_ensures(peer_authorizer, (device_id, authorized, &from), package),
        call_ensures(connect_gate, (device_id, authorized, in_any_project, &from), connection),
    ensures
        (device_id matches Some(id) && id@.len() > 0) ==> {
            &&& package <==> (authorized matches Some(list) && lines_of(list@).contains(
                hex_of(from@),
            ))
            &&& connection <==> package || in_any_project
        },
        !(device_id matches Some(id) && id@.len() > 0) ==> package && connection,
{
}

/// After a visit to the account just its devices are let in: what is kept is a list on
/// which a node stands if and only if one of the devices has its id. Nothing is kept
/// where the device is not signed in or the account was not reached.
pub proof fn law_visit_lets_in_the_account(
    signed_in: bool,
    devices: Option<&Vec<AccountDevice>>,
    r: Option<PeerCache>,
    device_id: Option<&str>,
    list: &str,
    from: NodeId,
    package: bool,
)
    requires
        call_ensures(refresh_authorized_peers, (signed_in, devices), r),
        device_id matches Some(id) && id@.len() > 0,
        r matches Some(c) ==> list@ == c.authorized@,
        call_ensures(peer_authorizer, (device_id, Some(list), &from), package),
    ensures
        r is Some <==> signed_in && devices is Some,
        r is Some ==> (package <==> exists|k: int|
            0 <= k < devices->0@.len() && base64_bytes((#[trigger] devices->0@[k]).pubkey@) == Some(
                from@,
            )),
{
    if r is Some {
        law_refreshed_list_is_the_account(r->0, devices->0@, from@);
    }
}

proof fn lemma_device_maps(ds: Seq<AccountDevice>, n: int, h: Seq<char>)
    requires
        0 <= n <= ds.len(),
    ensures
        device_names(ds, n).contains_key(h) <==> exists|k: int|
            0 <= k < n && device_hex(#[trigger] ds[k]) == Some(h),
        device_capabilities(ds, n).contains_key(h) <==> device_names(ds, n).contains_key(h),
        device_names(ds, n).contains_key(h) ==> exists|k: int|
            0 <= k < n && device_hex(#[trigger] ds[k]) == Some(h) && device_names(ds, n)[h]
                == ds[k].name@ && device_capabilities(ds, n)[h] == match ds[k].capability {
                DeviceCapability::Athenaeum => "athenaeum"@,
                DeviceCapability::Perseus => "perseus"@,
            },
    decreases n,
{
    if n > 0 {
        lemma_device_maps(ds, n - 1, h);
        if device_hex(ds[n - 1]) == Some(h) {
            assert(device_hex(ds[n - 1]) == Some(h));
        } else if device_names(ds, n - 1).contains_key(h) {
            let k = choose|k: int|
                0 <= k < n - 1 && device_hex(#[trigger] ds[k]) == Some(h) && device_names(
                    ds,
                    n - 1,
                )[h] == ds[k].name@ && device_capabilities(ds, n - 1)[h] == match ds[k].capability {
                    DeviceCapability::Athenaeum => "athenaeum"@,
                    DeviceCapability::Perseus => "perseus"@,
                };
            assert(device_hex(ds[k]) == Some(h));
        }
    }
}

/// The names and the capabilities that are kept under a node id are those of a device
/// that has it, and each device with a usable key is kept.
pub proof fn law_names_are_of_their_devices(
    devices: Vec<AccountDevice>,
    names: TextMap,
    kinds: TextMap,
    h: Seq<char>,
)
    requires
        call_ensures(account_device_names, (&devices,), names),
        call_ensures(account_device_capabilities, (&devices,), kinds),
    ensures
        names@.contains_key(h) <==> exists|k: int|
            0 <= k < devices@.len() && device_hex(#[trigger] devices@[k]) == Some(h),
        kinds@.contains_key(h) <==> names@.contains_key(h),
        names@.contains_key(h) ==> exists|k: int|
            0 <= k < devices@.len() && device_hex(#[trigger] devices@[k]) == Some(h) && names@[h]
                == devices@[k].name@ && kinds@[h] == match devices@[k].capability {
                DeviceCapability::Athenaeum => "athenaeum"@,
                DeviceCapability::Perseus => "perseus"@,
            },
{
    lemma_device_maps(devices@, devices@.len() as int, h);
}

proof fn lemma_distinct_texts(ts: Seq<Seq<char>>, n: int, t: Seq<char>)
    requires
        0 <= n <= ts.len(),
    ensures
        distinct_texts(ts, n).no_duplicates(),
        distinct_texts(ts, n).contains(t) <==> exists|k: int| 0 <= k < n && ts[k] == t,
    decreases n,
{
    if n > 0 {
        lemma_distinct_texts(ts, n - 1, t);
        let before = distinct_texts(ts, n - 1);
        let now = distinct_texts(ts, n);
        if before.contains(t) {
            let k = choose|k: int| 0 <= k < before.len() && before[k] == t;
            assert(now[k] == t);
        }
        if now.contains(t) {
            let k = choose|k: int| 0 <= k < now.len() && now[k] == t;
            if k < before.len() {
                assert(before[k] == t);
            } else {
                assert(ts[n - 1] == t);
            }
        }
        if !before.contains(ts[n - 1]) {
            assert(now[before.len() as int] == ts[n - 1]);
        }
    }
}

/// The list of nodes that is read is the one that is kept, each node once.
pub proof fn law_kept_list_is_read(raw: Option<&str>, r: Vec<String>, h: Seq<char>)
    requires
        call_ensures(cached_authorized_peer_hexes, (raw,), r),
    ensures
        texts(r@).no_duplicates(),
        texts(r@).contains(h) <==> (raw matches Some(t) && lines_of(t@).contains(h)),
{
    if raw is Some {
        let ls = lines_of(raw->0@);
        lemma_distinct_texts(ls, ls.len() as int, h);
        if ls.contains(h) {
            let k = choose|k: int| 0 <= k < ls.len() && ls[k] == h;
            assert(ls[k] == h);
        }
    }
}

/// Whether something that has not come to its end is to be sent to the node.
pub open spec fn is_waited_for(rows: Seq<OutboundRow>, id: Seq<u8>) -> bool {
    exists|k: int|
        0 <= k < rows.len() && (#[trigger] rows[k]).peer@ == id && !has_ended(rows[k].state)
}

proof fn lemma_waited_for(rows: Seq<OutboundRow>, id: Seq<u8>)
    ensures
        is_waited_for(rows, id) <==> has_rows_for(rows, id),
{
    if is_waited_for(rows, id) {
        let k = choose|k: int|
            0 <= k < rows.len() && (#[trigger] rows[k]).peer@ == id && !has_ended(rows[k].state);
        assert(rows[k].peer@ == id && !rows[k].state.terminal());
    }
    if has_rows_for(rows, id) {
        let k = choose|k: int|
            0 <= k < rows.len() && (#[trigger] rows[k]).peer@ == id && !rows[k].state.terminal();
        assert(rows[k].peer@ == id && !has_ended(rows[k].state));
    }
}

/// A beacon makes the device go on sending only where its sender is on the list, where
/// something waits for it, and where none was acted on in the ten seconds before; of
/// two beacons within ten seconds the second one is not acted on.
pub proof fn law_a_beacon_is_acted_on_once(
    authorized: Option<&str>,
    pending: &Vec<OutboundRow>,
    first: &mut PresenceSeen,
    second: &mut PresenceSeen,
    from: NodeId,
    t: u64,
    u: u64,
    has_engine: bool,
    r: PresenceAction,
    q: PresenceAction,
)
    requires
        call_ensures(handle_peer_presence, (authorized, pending, first, from, t, has_engine), r),
        call_ensures(handle_peer_presence, (authorized, pending, second, from, u, has_engine), q),
        *old(second) == *final(first),
        t <= u,
    ensures
        r == PresenceAction::Unauthorized <==> !(authorized matches Some(list) && lines_of(
            list@,
        ).contains(hex_of(from@))),
        r == PresenceAction::NothingPending ==> !is_waited_for(pending@, from@),
        r == PresenceAction::Resume || r == PresenceAction::BuildAndResume ==> {
            &&& is_waited_for(pending@, from@)
            &&& authorized matches Some(list) && lines_of(list@).contains(hex_of(from@))
            &&& has_engine <==> r == PresenceAction::Resume
            &&& q == PresenceAction::Debounced <==> u - t < 10_000_000_000
            &&& q == PresenceAction::Debounced || q == r
        },
        r != PresenceAction::Resume && r != PresenceAction::BuildAndResume ==> *final(first)
            == *old(first),
{
    lemma_waited_for(pending@, from@);
}

proof fn lemma_others(hexes: Seq<Seq<char>>, me: Seq<u8>, n: int, id: Seq<u8>)
    requires
        0 <= n <= hexes.len(),
    ensures
        others_of(hexes, me, n).contains(id) <==> id != me && exists|k: int|
            0 <= k < n && node_of_hex(#[trigger] hexes[k]) == Some(id),
    decreases n,
{
    if n > 0 {
        lemma_others(hexes, me, n - 1, id);
        let before = others_of(hexes, me, n - 1);
        let now = others_of(hexes, me, n);
        if before.contains(id) {
            let k = choose|k: int| 0 <= k < before.len() && before[k] == id;
            assert(now[k] == id);
        }
        if now.contains(id) {
            let k = choose|k: int| 0 <= k < now.len() && now[k] == id;
            if k < before.len() {
                assert(before[k] == id);
            }
        }
        if now.len() > before.len() {
            assert(now[before.len() as int] == node_of_hex(hexes[n - 1])->0);
        }
        if exists|k: int| 0 <= k < n - 1 && node_of_hex(#[trigger] hexes[k]) == Some(id) {
            let k = choose|k: int| 0 <= k < n - 1 && node_of_hex(#[trigger] hexes[k]) == Some(id);
            assert(node_of_hex(hexes[k]) == Some(id));
        }
    }
}

/// The devices that are told that this one is back are just the others on the list,
/// and none where no relay could reach them.
pub proof fn law_all_others_are_told(
    hexes: Vec<String>,
    me: NodeId,
    has_relays: bool,
    r: Vec<NodeId>,
    id: Seq<u8>,
)
    requires
        call_ensures(broadcast_presence, (&hexes, &me, has_relays), r),
    ensures
        ids_of(r@).contains(id) <==> has_relays && id != me@ && exists|k: int|
            0 <= k < hexes@.len() && node_of_hex((#[trigger] hexes@[k])@) == Some(id),
{
    let all = texts(hexes@);
    lemma_others(all, me@, hexes@.len() as int, id);
    if exists|k: int| 0 <= k < all.len() && node_of_hex(#[trigger] all[k]) == Some(id) {
        let k = choose|k: int| 0 <= k < all.len() && node_of_hex(#[trigger] all[k]) == Some(id);
        assert(node_of_hex(hexes@[k]@) == Some(id));
    }
    if exists|k: int| 0 <= k < hexes@.len() && node_of_hex((#[trigger] hexes@[k])@) == Some(id) {
        let k = choose|k: int|
            0 <= k < hexes@.len() && node_of_hex((#[trigger] hexes@[k])@) == Some(id);
        assert(node_of_hex(all[k]) == Some(id));
    }
}

/// After a restart an engine is built for a device just where something waits for it,
/// where the list, if there is one, has it, and where none runs for it already; each
/// device gets one. Where the record could not be read none is built, and why is told.
pub proof fn law_restart_builds_what_is_waited_for(
    rows: Result<Vec<OutboundRow>, StoreFault>,
    authorized: Option<&Vec<String>>,
    started: Vec<NodeId>,
    r: Result<Vec<NodeId>, ApiError>,
    id: Seq<u8>,
)
    requires
        call_ensures(resurrect_pending_senders_with, (rows, authorized, &started), r),
    ensures
        r is Ok <==> rows is Ok,
        r matches Ok(peers) ==> {
            &&& all_differ(peers@)
            &&& holds_node(peers@, id) <==> is_waited_for(rows->Ok_0@, id) && (
            authorized matches Some(list) ==> holds_text(list@, hex_of(id))) && !holds_node(
                started@,
                id,
            )
        },
        rows matches Err(StoreFault::Open(why)) ==> told(r) == Err::<Vec<NodeId>, Refusal>(
            Refusal::Internal("open catalog sync store: "@ + why@),
        ),
        rows matches Err(StoreFault::Read(why)) ==> told(r) == Err::<Vec<NodeId>, Refusal>(
            Refusal::Internal("read non-terminal outbound rows: "@ + why@),
        ),
{
    if rows is Ok {
        lemma_waited_for(rows->Ok_0@, id);
        law_engines_are_built_where_wanted(
            rows->Ok_0@,
            match authorized {
                Some(list) => Some(list@),
                None => None,
            },
            started@,
            id,
        );
    }
}

/// A device keeps to its list after a restart just where it is known to be signed in.
pub proof fn law_restart_keeps_to_the_account(
    signed_in: Option<bool>,
    authorized: Option<&str>,
    r: Option<Vec<String>>,
    h: Seq<char>,
)
    requires
        call_ensures(resurrect_pending_senders, (signed_in, authorized), r),
    ensures
        r is Some <==> signed_in == Some(true),
        r matches Some(list) ==> (texts(list@).contains(h) <==> (authorized matches Some(t)
            && lines_of(t@).contains(h))),
{
    if r is Some && authorized is Some {
        let ls = lines_of(authorized->0@);
        lemma_distinct_texts(ls, ls.len() as int, h);
        if ls.contains(h) {
            let k = choose|k: int| 0 <= k < ls.len() && ls[k] == h;
            assert(ls[k] == h);
        }
    }
}

/// The engines that are told to run are those that were built: one more counts just
/// where it was.
pub proof fn law_only_built_engines_count(
    visits: Vec<EngineVisit>,
    longer: Vec<EngineVisit>,
    x: EngineVisit,
    n: usize,
    m: usize,
)
    requires
        call_ensures(ensured_engines, (&visits,), n),
        call_ensures(ensured_engines, (&longer,), m),
        longer@ == visits@.push(x),
    ensures
        visits@.len() == 0 ==> n == 0,
        x == EngineVisit::Built ==> m == n + 1,
        x == EngineVisit::Failed ==> m == n,
{
    lemma_built_prefix(visits@, x, visits@.len() as int);
}

proof fn lemma_built_prefix(visits: Seq<EngineVisit>, x: EngineVisit, n: int)
    requires
        0 <= n <= visits.len(),
    ensures
        built_of(visits.push(x), n) == built_of(visits, n),
    decreases n,
{
    if n > 0 {
        lemma_built_prefix(visits, x, n - 1);
    }
}

/// Whether one step comes before another in a list of steps.
pub open spec fn comes_before(steps: Seq<StartupStep>, a: StartupStep, b: StartupStep) -> bool {
    exists|i: int, j: int|
        0 <= i < j < steps.len() && #[trigger] steps[i] == a && #[trigger] steps[j] == b
}

/// Whether a device comes online in order: the node is bound first, the list of those
/// that may send is brought up to date before anything is accepted, and what was left
/// is only taken up, or swept away, once the receiver runs. No step is taken twice.
pub open spec fn is_orderly(steps: Seq<StartupStep>) -> bool {
    &&& steps.no_duplicates()
    &&& steps.len() == 10
    &&& steps[0] == StartupStep::BindNode
    &&& comes_before(steps, StartupStep::RefreshPeers, StartupStep::StartReceiver)
    &&& comes_before(steps, StartupStep::StartReceiver, StartupStep::ResurrectSenders)
    &&& comes_before(steps, StartupStep::StartReceiver, StartupStep::SweepOrphans)
    &&& comes_before(steps, StartupStep::ResurrectSenders, StartupStep::SweepOrphans)
    &&& comes_before(steps, StartupStep::RefreshRelays, StartupStep::InstallWakeHook)
    &&& comes_before(steps, StartupStep::InstallWakeHook, StartupStep::InstallPresence)
    &&& comes_before(steps, StartupStep::SchedulePeerRefresh, StartupStep::RefreshPeers)
    &&& comes_before(steps, StartupStep::SweepOrphans, StartupStep::ArmProjectSync)
}

proof fn lemma_orderly(steps: Seq<StartupStep>)
    requires
        steps == crate::api::sync::startup::startup_order(),
    ensures
        is_orderly(steps),
{
    assert(steps[0] == StartupStep::BindNode);
    assert(steps[1] == StartupStep::RefreshRelays);
    assert(steps[2] == StartupStep::InstallWakeHook);
    assert(steps[3] == StartupStep::InstallPresence);
    assert(steps[4] == StartupStep::SchedulePeerRefresh);
    assert(steps[5] == StartupStep::RefreshPeers);
    assert(steps[6] == StartupStep::StartReceiver);
    assert(steps[7] == StartupStep::ResurrectSenders);
    assert(steps[8] == StartupStep::SweepOrphans);
    assert(steps[9] == StartupStep::ArmProjectSync);
}

/// A device comes online by itself just with the developer flag or an account, and to
/// give out a ticket just with the developer flag; either way it does so in order. A
/// device that only sends binds its node and accepts nothing, and does nothing where
/// the engine runs already.
pub proof fn law_coming_online_goes_in_order(
    dev: bool,
    signed_in: bool,
    r: Option<Vec<StartupStep>>,
    ticket: Result<Vec<StartupStep>, ApiError>,
    running: bool,
    sending: Option<Vec<StartupStep>>,
)
    requires
        call_ensures(autostart_if_enabled, (dev, signed_in), r),
        call_ensures(get_pairing_ticket, (dev,), ticket),
        call_ensures(ensure_sender_engine, (running,), sending),
    ensures
        r is Some <==> dev || signed_in,
        r matches Some(steps) ==> is_orderly(steps@),
        ticket is Ok <==> dev,
        ticket matches Ok(steps) ==> is_orderly(steps@),
        ticket matches Err(e) ==> e is Forbidden,
        sending is Some <==> !running,
        sending matches Some(steps) ==> {
            &&& steps@.len() > 0
            &&& steps@[0] == StartupStep::BindNode
            &&& steps@.contains(StartupStep::InstallWakeHook)
            &&& !steps@.contains(StartupStep::StartReceiver)
            &&& !steps@.contains(StartupStep::InstallPresence)
            &&& !steps@.contains(StartupStep::SweepOrphans)
        },
{
    if r is Some {
        lemma_orderly(r->0@);
    }
    if ticket is Ok {
        lemma_orderly(ticket->Ok_0@);
    }
    if sending is Some {
        let steps = sending->0@;
        assert(steps[2] == StartupStep::InstallWakeHook);
    }
}

/// The gates: a device has an account where it has a device id that is not empty; it
/// starts to receive by itself with the developer flag or an account, and transfers
/// are set up just then; public relays are for a developer without an account.
pub proof fn law_gates(
    device_id: Option<&str>,
    flag: &str,
    account: bool,
    dev: bool,
    configured: bool,
    starts: bool,
    public_relays: bool,
)
    requires
        call_ensures(account_signed_in, (device_id,), account),
        call_ensures(dev_pairing_enabled, (flag,), dev),
        call_ensures(sync_configured, (flag, device_id), configured),
        call_ensures(autostart_gate, (dev, account), starts),
        call_ensures(allow_default_relays, (account, dev), public_relays),
    ensures
        account <==> (device_id matches Some(id) && id@.len() > 0),
        dev <==> same_but_ascii_case(flag@, "true"@),
        starts <==> dev || account,
        configured <==> starts,
        public_relays <==> dev && !account,
{
}

/// The relays that the device uses are those that were found; they are kept, one per
/// line, just where they were learned now.
pub proof fn law_relays_are_kept_when_learned(
    urls: Vec<String>,
    fresh: bool,
    signed_in: bool,
    dev_flag: bool,
    r: RelayPlan,
)
    requires
        call_ensures(resolve_relay_mode, (urls, fresh, signed_in, dev_flag), r),
    ensures
        r.urls == urls,
        r.cache is Some <==> fresh,
        r.cache matches Some(c) ==> c@ == lined_up(texts(urls@), urls@.len() as int),
        r.allow_default <==> dev_flag && !signed_in,
{
}

proof fn lemma_reported_addr(ds: Seq<AccountDevice>, peer: Seq<u8>, i: int)
    requires
        0 <= i <= ds.len(),
        peer.len() == 32,
    ensures
        reported_addr(ds, peer, i) matches Some(a) ==> exists|k: int|
            i <= k < ds.len() && base64_bytes((#[trigger] ds[k]).pubkey@) == Some(peer)
                && ds[k].endpoint_addr == Some(a),
        (forall|k: int|
            i <= k < ds.len() ==> base64_bytes((#[trigger] ds[k]).pubkey@) != Some(peer))
            ==> reported_addr(ds, peer, i) is None,
    decreases ds.len() - i,
{
    if i < ds.len() {
        lemma_reported_addr(ds, peer, i + 1);
        if reported_addr(ds, peer, i) is Some {
            let a = reported_addr(ds, peer, i)->0;
            if base64_bytes(ds[i].pubkey@) == Some(peer) {
                assert(ds[i].endpoint_addr == Some(a));
            } else {
                let k = choose|k: int|
                    i + 1 <= k < ds.len() && base64_bytes((#[trigger] ds[k]).pubkey@) == Some(peer)
                        && ds[k].endpoint_addr == Some(a);
                assert(ds[k].endpoint_addr == Some(a));
            }
        }
    }
}

/// The address that is turned to is one that the device with that very node id has
/// told the account.
pub proof fn law_address_is_of_the_device(
    devices: Vec<AccountDevice>,
    peer: NodeId,
    r: Option<String>,
)
    requires
        call_ensures(sender_addr_refresher, (&devices, &peer), r),
    ensures
        r matches Some(a) ==> exists|k: int|
            0 <= k < devices@.len() && base64_bytes((#[trigger] devices@[k]).pubkey@) == Some(peer@)
                && devices@[k].endpoint_addr == Some(a),
{
    lemma_reported_addr(devices@, peer@, 0);
}

/// What arrives is put where the user has chosen, and to the fallback only where there
/// is no choice or it cannot be read. Transfers are kept beside the catalog, and only
/// the two stores that are no longer used are removed.
pub proof fn law_places_of_transfers(
    chosen: Result<Option<String>, String>,
    fallback: &str,
    incoming: String,
    db_path: &str,
    paths: (String, String),
    dir: &str,
    stores: Vec<String>,
)
    requires
        call_ensures(incoming_resolver, (chosen, fallback), incoming),
        call_ensures(sync_paths, (db_path,), paths),
        call_ensures(cleanup_orphan_blob_stores, (dir,), stores),
    ensures
        chosen matches Ok(Some(p)) ==> incoming@ == p@,
        !(chosen matches Ok(Some(_))) ==> incoming@ == fallback@,
        paths.1@ == db_path@,
        parent(db_path@) matches Some(p) ==> paths.0@ == joined(p, "sync"@),
        parent(db_path@) is None ==> paths.0@ == "sync"@,
        texts(stores@) == seq![joined(dir@, "blobs_out"@), joined(dir@, "blobs_collab"@)],
{
}

/// A limit for uploads is taken where it is none or at least a hundred thousand bytes
/// per second, and a number of transfers at a time where it is one to eight; what is
/// taken is kept as it is, and what is not is refused.
pub proof fn law_settings_within_their_bounds(
    limit: u64,
    checked: Result<(), ApiError>,
    kept: Result<String, ApiError>,
    n: usize,
    n_checked: Result<(), ApiError>,
    n_kept: Result<String, ApiError>,
    read: Result<usize, String>,
    configured: Option<usize>,
)
    requires
        call_ensures(validate_upload_limit, (limit,), checked),
        call_ensures(set_sync_upload_limit, (limit,), kept),
        call_ensures(validate_max_concurrent_receives, (n,), n_checked),
        call_ensures(set_sync_max_concurrent_receives, (n,), n_kept),
        call_ensures(configured_max_concurrent_receives, (read,), configured),
    ensures
        checked is Ok <==> limit == 0 || limit >= 100_000,
        kept is Ok <==> checked is Ok,
        kept matches Ok(s) ==> s@ == decimal(limit as nat),
        kept matches Err(e) ==> e is Invalid,
        n_checked is Ok <==> 1 <= n <= 8,
        n_kept is Ok <==> n_checked is Ok,
        n_kept matches Ok(s) ==> s@ == decimal(n as nat),
        n_kept matches Err(e) ==> e is Invalid,
        read matches Ok(x) ==> configured == Some(x),
        read is Err ==> configured is None,
{
}

/// What is kept of whether the device sends on its own is read back as it was set.
pub proof fn law_auto_mode_round_trip(enabled: bool, kept: String, value: &str, read: bool)
    requires
        call_ensures(set_sync_auto_mode, (enabled,), kept),
        value@ == kept@,
        call_ensures(get_sync_auto_mode, (value,), read),
    ensures
        read == enabled,
{
}

} // verus!
