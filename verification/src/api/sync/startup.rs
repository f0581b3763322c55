//! Coming online: what is learned of the account, whom the device talks to,
//! and over which relays.

use crate::api::error::{ApiError, Refusal};
use crate::api::sync::node_id::{hex_of, law_hex_tells_nodes_apart, NodeId, same_node};
use crate::api::sync::peers::{
    account_device_capabilities, account_device_names, account_peer_hexes, allow_default_relays,
    autostart_gate, base64_bytes, device_capabilities, device_hex, device_hexes, device_names, is_opt_text,
    key_bytes, AccountDevice,
};
use crate::api::sync::rows::copy_opt;
use crate::api::sync::settings_text::{
    fits_a_line, law_lines_round_trip, lined_up, lines_of, string_map_of_json, write_lines,
    write_text_map,
};
use crate::api::sync::transfers::told;
use crate::paths::{join_paths, joined};
use crate::text::{texts, trim, trimmed_end, trimmed_start, CharClass};
use vstd::prelude::*;

verus! {

/// Where what arrives is put: the place that the user has chosen, or the
/// fallback where there is none or it cannot be read.
pub fn incoming_resolver(chosen: Result<Option<String>, String>, fallback: &str) -> (r: String)
    ensures
        r@ == match chosen {
            Ok(Some(p)) => p@,
            _ => fallback@,
        },
{
    match chosen {
        Ok(Some(p)) => p,
        _ => fallback.to_owned(),
    }
}

/// What is kept of the account between two visits: the node ids of its
/// devices, their names, and what they can do.
#[derive(Debug)]
pub struct PeerCache {
    pub authorized: String,
    /// The names by node id, in JSON.
    pub names: Option<String>,
    /// The capabilities by node id, in JSON.
    pub capabilities: Option<String>,
}

/// Whether `c` keeps what the account says of its devices.
pub open spec fn keeps_devices(c: PeerCache, ds: Seq<AccountDevice>) -> bool {
    let n = ds.len() as int;
    &&& c.authorized@ == lined_up(device_hexes(ds, n), device_hexes(ds, n).len() as int)
    &&& (c.names matches Some(j) && string_map_of_json(j@) == Some(device_names(ds, n)))
    &&& (c.capabilities matches Some(j) && string_map_of_json(j@) == Some(
        device_capabilities(ds, n),
    ))
}

/// What is kept of the account after a visit; nothing changes where the device
/// is not signed in or the account cannot be reached.
pub fn refresh_authorized_peers(signed_in: bool, devices: Option<&Vec<AccountDevice>>) -> (r: Option<
    PeerCache,
>)
    ensures
        match devices {
            Some(ds) if signed_in => r matches Some(c) && keeps_devices(c, ds@),
            _ => r is None,
        },
{
    if !signed_in {
        return None;
    }
    match devices {
        None => None,
        Some(ds) => {
            let hexes = account_peer_hexes(ds);
            Some(
                PeerCache {
                    authorized: write_lines(&hexes),
                    names: write_text_map(&account_device_names(ds)),
                    capabilities: write_text_map(&account_device_capabilities(ds)),
                },
            )
        },
    }
}

/// The relays as they are kept: one per line.
pub fn store_cached_relays(urls: &Vec<String>) -> (r: String)
    ensures
        r@ == lined_up(texts(urls@), urls@.len() as int),
{
    write_lines(urls)
}

/// The relays that the device uses.
#[derive(Debug)]
pub struct RelayPlan {
    pub urls: Vec<String>,
    /// What is to be kept of them, where they were just learned.
    pub cache: Option<String>,
    /// Whether public relays may be used where there are none.
    pub allow_default: bool,
}

/// The relays that the device uses, from those that were found; `fresh` says
/// whether they were just learned.
pub fn resolve_relay_mode(urls: Vec<String>, fresh: bool, signed_in: bool, dev_flag: bool) -> (r:
    RelayPlan)
    ensures
        r.urls == urls,
        is_opt_text(
            r.cache,
            if fresh {
                Some(lined_up(texts(urls@), urls@.len() as int))
            } else {
                None
            },
        ),
        r.allow_default == (!signed_in && dev_flag),
{
    let cache = if fresh {
        Some(store_cached_relays(&urls))
    } else {
        None
    };
    RelayPlan { urls, cache, allow_default: allow_default_relays(signed_in, dev_flag) }
}

/// What is done to come online, in order. A step that fails ends the start.
#[derive(Debug, Clone, Copy, PartialEq, Eq, Structural)]
pub enum StartupStep {
    /// The one endpoint of the device is bound, if it is not yet.
    BindNode,
    /// The relays are looked up again from time to time.
    RefreshRelays,
    /// What waits is sent as soon as a relay is back.
    InstallWakeHook,
    /// Beacons of other devices are heeded, and the first own one is sent.
    InstallPresence,
    /// The devices of the account are looked up again from time to time.
    SchedulePeerRefresh,
    /// The devices of the account are looked up now.
    RefreshPeers,
    /// From here on packages are accepted.
    StartReceiver,
    /// The engines of the devices that something waits for are built.
    ResurrectSenders,
    /// What earlier transfers have left behind is removed.
    SweepOrphans,
    /// The packages of projects are fetched without being asked for.
    ArmProjectSync,
}

/// What is done to come online. The list of those that may send is brought up
/// to date before anything is accepted, and nothing is built or removed before
/// the receiver runs.
pub open spec fn startup_order() -> Seq<StartupStep> {
    seq![
        StartupStep::BindNode,
        StartupStep::RefreshRelays,
        StartupStep::InstallWakeHook,
        StartupStep::InstallPresence,
        StartupStep::SchedulePeerRefresh,
        StartupStep::RefreshPeers,
        StartupStep::StartReceiver,
        StartupStep::ResurrectSenders,
        StartupStep::SweepOrphans,
        StartupStep::ArmProjectSync,
    ]
}

fn startup_steps() -> (r: Vec<StartupStep>)
    ensures
        r@ == startup_order(),
{
    let mut r: Vec<StartupStep> = Vec::new();
    r.push(StartupStep::BindNode);
    r.push(StartupStep::RefreshRelays);
    r.push(StartupStep::InstallWakeHook);
    r.push(StartupStep::InstallPresence);
    r.push(StartupStep::SchedulePeerRefresh);
    r.push(StartupStep::RefreshPeers);
    r.push(StartupStep::StartReceiver);
    r.push(StartupStep::ResurrectSenders);
    r.push(StartupStep::SweepOrphans);
    r.push(StartupStep::ArmProjectSync);
    assert(r@ =~= startup_order());
    r
}

/// How the device comes online by itself: with the developer flag or an
/// account; otherwise it does not.
pub fn autostart_if_enabled(dev: bool, signed_in: bool) -> (r: Option<Vec<StartupStep>>)
    ensures
        if dev || signed_in {
            r matches Some(steps) && steps@ == startup_order()
        } else {
            r is None
        },
{
    if autostart_gate(dev, signed_in) {
        Some(startup_steps())
    } else {
        None
    }
}

/// How the device comes online to give out a ticket for pairing: only with the
/// developer flag.
pub fn get_pairing_ticket(dev_flag: bool) -> (r: Result<Vec<StartupStep>, ApiError>)
    ensures
        if dev_flag {
            r matches Ok(steps) && steps@ == startup_order()
        } else {
            told(r) == Err::<Vec<StartupStep>, Refusal>(
                Refusal::Forbidden(
                    "personal sync is dev-gated; enable sync.dev_ticket_pairing first"@,
                ),
            )
        },
{
    if dev_flag {
        Ok(startup_steps())
    } else {
        Err(
            ApiError::Forbidden(
                "personal sync is dev-gated; enable sync.dev_ticket_pairing first".to_owned(),
            ),
        )
    }
}

/// What is done before the first engine that sends to a device is built. A
/// device that comes online only to send accepts nothing and heeds no beacons.
pub open spec fn sender_order() -> Seq<StartupStep> {
    seq![
        StartupStep::BindNode,
        StartupStep::RefreshRelays,
        StartupStep::InstallWakeHook,
        StartupStep::SchedulePeerRefresh,
    ]
}

/// What is done before the engine that sends to a device is built; nothing
/// where it runs already.
pub fn ensure_sender_engine(running: bool) -> (r: Option<Vec<StartupStep>>)
    ensures
        if running {
            r is None
        } else {
            r matches Some(steps) && steps@ == sender_order()
        },
{
    if running {
        return None;
    }
    let mut steps: Vec<StartupStep> = Vec::new();
    steps.push(StartupStep::BindNode);
    steps.push(StartupStep::RefreshRelays);
    steps.push(StartupStep::InstallWakeHook);
    steps.push(StartupStep::SchedulePeerRefresh);
    assert(steps@ =~= sender_order());
    Some(steps)
}

/// The stores that are no longer used and are removed once the endpoint is
/// bound.
pub fn cleanup_orphan_blob_stores(sync_dir: &str) -> (r: Vec<String>)
    ensures
        texts(r@) == seq![joined(sync_dir@, "blobs_out"@), joined(sync_dir@, "blobs_collab"@)],
{
    let mut r: Vec<String> = Vec::new();
    r.push(join_paths(sync_dir, "blobs_out"));
    r.push(join_paths(sync_dir, "blobs_collab"));
    assert(texts(r@) =~= seq![
        joined(sync_dir@, "blobs_out"@),
        joined(sync_dir@, "blobs_collab"@),
    ]);
    r
}

/// The address that the first device at or behind `i` with the given node id
/// has told the account.
pub open spec fn reported_addr(ds: Seq<AccountDevice>, peer: Seq<u8>, i: int) -> Option<String>
    decreases ds.len() - i,
{
    if i >= ds.len() {
        None
    } else if peer.len() == 32 && base64_bytes(ds[i].pubkey@) == Some(peer) {
        ds[i].endpoint_addr
    } else {
        reported_addr(ds, peer, i + 1)
    }
}

/// The address that a device has told the account last.
pub fn sender_addr_refresher(devices: &Vec<AccountDevice>, peer: &NodeId) -> (r: Option<String>)
    ensures
        r == reported_addr(devices@, peer@, 0),
{
    let mut i: usize = 0;
    while i < devices.len()
        invariant
            i <= devices@.len(),
            reported_addr(devices@, peer@, 0) == reported_addr(devices@, peer@, i as int),
        decreases devices@.len() - i,
    {
        match key_bytes(devices[i].pubkey.as_str()) {
            Some(id) => {
                if same_node(&id, peer) {
                    return copy_opt(&devices[i].endpoint_addr);
                }
            },
            None => {},
        }
        i = i + 1;
    }
    None
}

/// No white space stands in hexadecimal digits.
proof fn lemma_hex_is_not_white(bytes: Seq<u8>)
    ensures
        hex_of(bytes).len() == 2 * bytes.len(),
        forall|k: int|
            0 <= k < hex_of(bytes).len() ==> !CharClass::White.has(#[trigger] hex_of(bytes)[k])
                && hex_of(bytes)[k] != '\n',
    decreases bytes.len(),
{
    if bytes.len() > 0 {
        lemma_hex_is_not_white(bytes.drop_last());
    }
}

proof fn lemma_hex_fits_a_line(bytes: Seq<u8>)
    requires
        bytes.len() > 0,
    ensures
        fits_a_line(hex_of(bytes)),
{
    lemma_hex_is_not_white(bytes);
    let s = hex_of(bytes);
    assert(!CharClass::White.has(s[0]));
    assert(!CharClass::White.has(s[s.len() - 1]));
    assert(trimmed_end(s, CharClass::White, s.len() as int) == s.len());
    assert(trimmed_start(s, CharClass::White, 0) == 0);
    assert(trim(s, CharClass::White) =~= s);
}

proof fn lemma_device_hexes(ds: Seq<AccountDevice>, n: int, h: Seq<char>)
    requires
        0 <= n <= ds.len(),
    ensures
        device_hexes(ds, n).contains(h) == exists|k: int|
            0 <= k < n && device_hex(#[trigger] ds[k]) == Some(h),
        forall|k: int|
            0 <= k < device_hexes(ds, n).len() ==> fits_a_line(#[trigger] device_hexes(ds, n)[k]),
    decreases n,
{
    if n > 0 {
        lemma_device_hexes(ds, n - 1, h);
        let before = device_hexes(ds, n - 1);
        let now = device_hexes(ds, n);
        match device_hex(ds[n - 1]) {
            Some(x) => {
                lemma_hex_fits_a_line(base64_bytes(ds[n - 1].pubkey@)->Some_0);
                assert(now == before.push(x));
                if before.contains(h) {
                    let j = choose|j: int| 0 <= j < before.len() && before[j] == h;
                    assert(now[j] == h);
                    let k = choose|k: int|
                        0 <= k < n - 1 && device_hex(#[trigger] ds[k]) == Some(h);
                    assert(device_hex(ds[k]) == Some(h));
                }
                if x == h {
                    assert(now[before.len() as int] == h);
                }
                if now.contains(h) && !before.contains(h) {
                    let j = choose|j: int| 0 <= j < now.len() && now[j] == h;
                    if j < before.len() {
                        assert(before[j] == h);
                    }
                }
                assert forall|k: int| 0 <= k < now.len() implies fits_a_line(#[trigger] now[k]) by {
                    if k < before.len() {
                        assert(now[k] == before[k]);
                    }
                }
            },
            None => {
                assert(now == before);
            },
        }
        if exists|k: int| 0 <= k < n && device_hex(#[trigger] ds[k]) == Some(h) {
            let k = choose|k: int| 0 <= k < n && device_hex(#[trigger] ds[k]) == Some(h);
            if k < n - 1 {
                assert(device_hex(ds[k]) == Some(h));
                assert(before.contains(h));
            }
        }
        if before.contains(h) {
            let k = choose|k: int| 0 <= k < n - 1 && device_hex(#[trigger] ds[k]) == Some(h);
            assert(device_hex(ds[k]) == Some(h));
        }
    }
}

/// After a visit the list that is kept admits exactly the devices of the
/// account: a node is on it where one of them has that node id.
pub proof fn law_refreshed_list_is_the_account(c: PeerCache, ds: Seq<AccountDevice>, id: Seq<u8>)
    requires
        keeps_devices(c, ds),
        id.len() == 32,
    ensures
        lines_of(c.authorized@).contains(hex_of(id)) == exists|k: int|
            0 <= k < ds.len() && base64_bytes((#[trigger] ds[k]).pubkey@) == Some(id),
{
    let n = ds.len() as int;
    let h = hex_of(id);
    lemma_device_hexes(ds, n, h);
    law_lines_round_trip(device_hexes(ds, n));
    if device_hexes(ds, n).contains(h) {
        let k = choose|k: int| 0 <= k < n && device_hex(#[trigger] ds[k]) == Some(h);
        law_hex_tells_nodes_apart(base64_bytes(ds[k].pubkey@)->Some_0, id);
        assert(base64_bytes(ds[k].pubkey@) == Some(id));
    }
    if exists|k: int| 0 <= k < n && base64_bytes((#[trigger] ds[k]).pubkey@) == Some(id) {
        let k = choose|k: int| 0 <= k < n && base64_bytes((#[trigger] ds[k]).pubkey@) == Some(id);
        assert(device_hex(ds[k]) == Some(h));
    }
}

} // verus!
