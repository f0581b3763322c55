//! Which devices may send to this one, and which ones it turns to.

use crate::api::sync::node_id::{
    hex_of, hex_text, holds_node, list_holds_node, node_id_from_hex, node_id_hex, node_of_hex,
    same_node, NodeId,
};
use crate::api::sync::rows::OutboundRow;
use crate::api::sync::settings_text::{flag_on, lines_of, read_flag, read_lines};
use crate::paths::{join_paths, joined, parent, parent_of};
use crate::text::{holds_text, list_holds, texts};
use crate::text_map::TextMap;
use vstd::prelude::*;
use vstd::string::*;

verus! {

/// What a device can do.
#[derive(Debug, Clone, Copy, PartialEq, Eq, Structural)]
pub enum DeviceCapability {
    /// A full peer.
    Athenaeum,
    /// An agent that only sends.
    Perseus,
}

impl DeviceCapability {
    /// The word for the capability.
    pub open spec fn word(self) -> Seq<char> {
        match self {
            DeviceCapability::Athenaeum => "athenaeum"@,
            DeviceCapability::Perseus => "perseus"@,
        }
    }

    /// The word for the capability.
    pub fn as_str(&self) -> (r: &'static str)
        ensures
            r@ == self.word(),
    {
        match self {
            DeviceCapability::Athenaeum => "athenaeum",
            DeviceCapability::Perseus => "perseus",
        }
    }
}

/// A device of the account.
#[derive(Debug)]
pub struct AccountDevice {
    pub id: String,
    pub name: String,
    /// The public key, in Base64.
    pub pubkey: String,
    pub capability: DeviceCapability,
    pub created_at: String,
    pub last_seen_at: Option<String>,
    pub endpoint_addr: Option<String>,
}

/// The bytes that a text in standard, padded Base64 stands for; none where it
/// is no such text.
pub uninterp spec fn base64_bytes(s: Seq<char>) -> Option<Seq<u8>>;

/// `decode` of `base64::engine::general_purpose::STANDARD`: what comes out is a
/// function of the text.
#[verifier::external_body]
fn decode_base64(s: &str) -> (r: Option<Vec<u8>>)
    ensures
        (r is Some) == (base64_bytes(s@) is Some),
        r is Some ==> base64_bytes(s@) == Some(r->Some_0@),
{
    base64::Engine::decode(&base64::engine::general_purpose::STANDARD, s).ok()
}

/// The hexadecimal form of a node id, where the bytes are one.
pub open spec fn key_hex(bytes: Option<Seq<u8>>) -> Option<Seq<char>> {
    match bytes {
        Some(b) => if b.len() == 32 {
            Some(hex_of(b))
        } else {
            None
        },
        None => None,
    }
}

/// Whether an optional text is the given one.
pub open spec fn is_opt_text(r: Option<String>, t: Option<Seq<char>>) -> bool {
    match t {
        Some(s) => r matches Some(x) && x@ == s,
        None => r is None,
    }
}

/// The optional bytes of a value.
pub open spec fn opt_bytes(v: Option<Vec<u8>>) -> Option<Seq<u8>> {
    match v {
        Some(b) => Some(b@),
        None => None,
    }
}

/// The hexadecimal form of a node id, where the decoded bytes are one: there
/// must be exactly thirty-two.
pub fn hex_of_key_bytes(bytes: Option<Vec<u8>>) -> (r: Option<String>)
    ensures
        is_opt_text(r, key_hex(opt_bytes(bytes))),
{
    match bytes {
        Some(b) => {
            if b.len() == 32 {
                Some(hex_text(b.as_slice()))
            } else {
                None
            }
        },
        None => None,
    }
}

/// The hexadecimal node id of a device, from its public key in Base64.
pub fn pubkey_b64_to_hex(pubkey_b64: &str) -> (r: Option<String>)
    ensures
        is_opt_text(r, key_hex(base64_bytes(pubkey_b64@))),
{
    hex_of_key_bytes(decode_base64(pubkey_b64))
}

/// The node id that the decoded bytes of a key are, where there are exactly
/// thirty-two.
pub fn node_of_key_bytes(bytes: Option<Vec<u8>>) -> (r: Option<NodeId>)
    ensures
        match opt_bytes(bytes) {
            Some(b) if b.len() == 32 => r matches Some(id) && id@ == b,
            _ => r is None,
        },
{
    match bytes {
        Some(b) => {
            if b.len() != 32 {
                return None;
            }
            let mut id: NodeId = [0u8; 32];
            let mut i: usize = 0;
            while i < 32
                invariant
                    i <= 32,
                    b@.len() == 32,
                    forall|k: int| 0 <= k < i ==> id@[k] == b@[k],
                decreases 32 - i,
            {
                let ghost before = id@;
                id[i] = b[i];
                assert(id@ =~= before.update(i as int, b@[i as int]));
                i = i + 1;
            }
            assert(id@ =~= b@);
            Some(id)
        },
        None => None,
    }
}

/// The node id of a device, from its public key in Base64.
pub fn key_bytes(pubkey_b64: &str) -> (r: Option<NodeId>)
    ensures
        match base64_bytes(pubkey_b64@) {
            Some(b) if b.len() == 32 => r matches Some(id) && id@ == b,
            _ => r is None,
        },
{
    node_of_key_bytes(decode_base64(pubkey_b64))
}

/// The hexadecimal node id of a device; none where its key is not one.
pub open spec fn device_hex(d: AccountDevice) -> Option<Seq<char>> {
    key_hex(base64_bytes(d.pubkey@))
}

/// The node ids of the first `n` devices, in order; a device whose key is not
/// one is passed over.
pub open spec fn device_hexes(ds: Seq<AccountDevice>, n: int) -> Seq<Seq<char>>
    decreases n,
{
    if n <= 0 {
        Seq::empty()
    } else {
        match device_hex(ds[n - 1]) {
            Some(h) => device_hexes(ds, n - 1).push(h),
            None => device_hexes(ds, n - 1),
        }
    }
}

/// The node ids of all devices of the account, whatever they can do: these may
/// send to this device.
pub fn account_peer_hexes(devices: &Vec<AccountDevice>) -> (r: Vec<String>)
    ensures
        texts(r@) == device_hexes(devices@, devices@.len() as int),
{
    let mut out: Vec<String> = Vec::new();
    let mut i: usize = 0;
    assert(texts(out@) =~= device_hexes(devices@, 0));
    while i < devices.len()
        invariant
            i <= devices@.len(),
            texts(out@) == device_hexes(devices@, i as int),
        decreases devices@.len() - i,
    {
        if let Some(hex) = pubkey_b64_to_hex(devices[i].pubkey.as_str()) {
            let ghost before = texts(out@);
            let ghost h = hex@;
            out.push(hex);
            assert(texts(out@) =~= before.push(h));
        }
        i = i + 1;
    }
    out
}

/// The names of the first `n` devices by their node ids; of two devices with
/// one id, the later name.
pub open spec fn device_names(ds: Seq<AccountDevice>, n: int) -> Map<Seq<char>, Seq<char>>
    decreases n,
{
    if n <= 0 {
        Map::empty()
    } else {
        match device_hex(ds[n - 1]) {
            Some(h) => device_names(ds, n - 1).insert(h, ds[n - 1].name@),
            None => device_names(ds, n - 1),
        }
    }
}

/// The names of the devices of the account by their node ids.
pub fn account_device_names(devices: &Vec<AccountDevice>) -> (r: TextMap)
    ensures
        r@ == device_names(devices@, devices@.len() as int),
{
    let mut out = TextMap::new();
    let mut i: usize = 0;
    while i < devices.len()
        invariant
            i <= devices@.len(),
            out@ == device_names(devices@, i as int),
        decreases devices@.len() - i,
    {
        if let Some(hex) = pubkey_b64_to_hex(devices[i].pubkey.as_str()) {
            out.insert(hex, devices[i].name.clone());
        }
        i = i + 1;
    }
    out
}

/// What the first `n` devices can do, by their node ids.
pub open spec fn device_capabilities(ds: Seq<AccountDevice>, n: int) -> Map<Seq<char>, Seq<char>>
    decreases n,
{
    if n <= 0 {
        Map::empty()
    } else {
        match device_hex(ds[n - 1]) {
            Some(h) => device_capabilities(ds, n - 1).insert(h, ds[n - 1].capability.word()),
            None => device_capabilities(ds, n - 1),
        }
    }
}

/// What the devices of the account can do, by their node ids.
pub fn account_device_capabilities(devices: &Vec<AccountDevice>) -> (r: TextMap)
    ensures
        r@ == device_capabilities(devices@, devices@.len() as int),
{
    let mut out = TextMap::new();
    let mut i: usize = 0;
    while i < devices.len()
        invariant
            i <= devices@.len(),
            out@ == device_capabilities(devices@, i as int),
        decreases devices@.len() - i,
    {
        if let Some(hex) = pubkey_b64_to_hex(devices[i].pubkey.as_str()) {
            out.insert(hex, devices[i].capability.as_str().to_owned());
        }
        i = i + 1;
    }
    out
}

/// Every device of the account with a usable key is on the list of those that
/// may send, and has its name and capability on record under the same id.
pub proof fn law_every_device_is_known(ds: Seq<AccountDevice>, n: int, i: int)
    requires
        0 <= i < n <= ds.len(),
        device_hex(ds[i]) is Some,
    ensures
        device_hexes(ds, n).contains(device_hex(ds[i])->Some_0),
        device_names(ds, n).contains_key(device_hex(ds[i])->Some_0),
        device_capabilities(ds, n).contains_key(device_hex(ds[i])->Some_0),
    decreases n,
{
    let h = device_hex(ds[i])->Some_0;
    let before = device_hexes(ds, n - 1);
    if i < n - 1 {
        law_every_device_is_known(ds, n - 1, i);
        let k = choose|k: int| 0 <= k < before.len() && before[k] == h;
        assert(device_hexes(ds, n)[k] == h);
    } else {
        assert(device_hexes(ds, n)[before.len() as int] == h);
    }
}

/// Where the data of transfers is kept: beside the catalog.
pub open spec fn sync_dir(db_path: Seq<char>) -> Seq<char> {
    match parent(db_path) {
        Some(p) => joined(p, "sync"@),
        None => "sync"@,
    }
}

/// The directory of the transfers and the path of the catalog.
pub fn sync_paths(db_path: &str) -> (r: (String, String))
    ensures
        r.0@ == sync_dir(db_path@),
        r.1@ == db_path@,
{
    let dir = match parent_of(db_path) {
        Some(p) => join_paths(p.as_str(), "sync"),
        None => "sync".to_owned(),
    };
    (dir, db_path.to_owned())
}

/// The relays that were learned last, as they are kept: one per line.
pub fn cached_relays(raw: Option<&str>) -> (r: Vec<String>)
    ensures
        texts(r@) == match raw {
            Some(t) => lines_of(t@),
            None => Seq::<Seq<char>>::empty(),
        },
{
    read_lines(raw)
}

/// Whether public relays may be used: only by a device that is not signed in,
/// and only with the developer flag. A device that is signed in stays on the
/// relays of its account.
pub fn allow_default_relays(signed_in: bool, dev_flag: bool) -> (r: bool)
    ensures
        r == (!signed_in && dev_flag),
{
    !signed_in && dev_flag
}

/// Whether the device has an account: it has a device id that is not empty.
pub open spec fn signed_in(device_id: Option<&str>) -> bool {
    device_id matches Some(id) && id@.len() > 0
}

/// Whether the device has an account.
pub fn account_signed_in(device_id: Option<&str>) -> (r: bool)
    ensures
        r == signed_in(device_id),
{
    match device_id {
        Some(id) => !id.is_empty(),
        None => false,
    }
}

/// Whether the developer flag for pairing by ticket is on.
pub fn dev_pairing_enabled(value: &str) -> (r: bool)
    ensures
        r == flag_on(value@),
{
    read_flag(value)
}

/// Whether receiving starts by itself: with the developer flag, or on any
/// device that is signed in.
pub fn autostart_gate(dev: bool, signed_in: bool) -> (r: bool)
    ensures
        r == (dev || signed_in),
{
    dev || signed_in
}

/// Whether transfers between devices are set up: the same as whether receiving
/// starts by itself.
pub fn sync_configured(dev_flag: &str, device_id: Option<&str>) -> (r: bool)
    ensures
        r == (flag_on(dev_flag@) || signed_in(device_id)),
{
    autostart_gate(dev_pairing_enabled(dev_flag), account_signed_in(device_id))
}

/// Whether a node is on the list that is kept.
pub open spec fn is_listed(raw: Option<&str>, id: Seq<u8>) -> bool {
    raw matches Some(t) && lines_of(t@).contains(hex_of(id))
}

/// Whether a node is on the list that is kept; nobody is where nothing is.
fn listed(raw: Option<&str>, id: &NodeId) -> (r: bool)
    ensures
        r == is_listed(raw, id@),
{
    let lines = read_lines(raw);
    let hex = node_id_hex(id);
    let r = list_holds(&lines, hex.as_str());
    proof {
        if r {
            let i = choose|i: int| 0 <= i < lines@.len() && (#[trigger] lines@[i])@ == hex@;
            assert(texts(lines@)[i] == hex@);
        } else if is_listed(raw, id@) {
            let all = texts(lines@);
            let i = choose|i: int| 0 <= i < all.len() && all[i] == hex@;
            assert(lines@[i]@ == hex@);
        }
    }
    r
}

/// Whether a package from a node is accepted. A device with an account accepts
/// the devices on its list, and nobody while it has none; one without an
/// account accepts everybody.
pub fn peer_authorizer(device_id: Option<&str>, authorized: Option<&str>, from: &NodeId) -> (r:
    bool)
    ensures
        r == (!signed_in(device_id) || is_listed(authorized, from@)),
{
    !account_signed_in(device_id) || listed(authorized, from)
}

/// Whether a connection from a node is accepted: as a package is, or because
/// the node is a member of some project.
pub fn connect_gate(
    device_id: Option<&str>,
    authorized: Option<&str>,
    in_any_project: bool,
    from: &NodeId,
) -> (r: bool)
    ensures
        r == (!signed_in(device_id) || is_listed(authorized, from@) || in_any_project),
{
    !account_signed_in(device_id) || listed(authorized, from) || in_any_project
}

/// The distinct ones of the first `n` texts, each where it first stands.
pub open spec fn distinct_texts(ts: Seq<Seq<char>>, n: int) -> Seq<Seq<char>>
    decreases n,
{
    if n <= 0 {
        Seq::empty()
    } else {
        let before = distinct_texts(ts, n - 1);
        if before.contains(ts[n - 1]) {
            before
        } else {
            before.push(ts[n - 1])
        }
    }
}

/// The node ids on the list that is kept, each once.
pub fn cached_authorized_peer_hexes(raw: Option<&str>) -> (r: Vec<String>)
    ensures
        texts(r@) == match raw {
            Some(t) => distinct_texts(lines_of(t@), lines_of(t@).len() as int),
            None => Seq::<Seq<char>>::empty(),
        },
{
    let lines = read_lines(raw);
    let ghost all = texts(lines@);
    let mut out: Vec<String> = Vec::new();
    let mut i: usize = 0;
    assert(texts(out@) =~= distinct_texts(all, 0));
    while i < lines.len()
        invariant
            i <= lines@.len(),
            all == texts(lines@),
            texts(out@) == distinct_texts(all, i as int),
        decreases lines@.len() - i,
    {
        let seen = list_holds(&out, lines[i].as_str());
        proof {
            let before = texts(out@);
            if seen {
                let k = choose|k: int|
                    0 <= k < out@.len() && (#[trigger] out@[k])@ == lines@[i as int]@;
                assert(before[k] == all[i as int]);
            } else if before.contains(all[i as int]) {
                let k = choose|k: int| 0 <= k < before.len() && before[k] == all[i as int];
                assert(out@[k]@ == lines@[i as int]@);
            }
        }
        if !seen {
            let ghost before = texts(out@);
            out.push(lines[i].clone());
            assert(texts(out@) =~= before.push(all[i as int]));
        }
        i = i + 1;
    }
    out
}

/// How long, in nanoseconds, further beacons of a device go unheeded.
pub const PRESENCE_DEBOUNCE: u64 = 10_000_000_000;

/// When a beacon of a device was last acted on.
#[derive(Debug)]
pub struct Seen {
    pub peer: NodeId,
    pub at: u64,
}

/// When beacons were last acted on, by device. Times are nanoseconds of a
/// clock that does not run backwards.
#[derive(Debug)]
pub struct PresenceSeen {
    pub seen: Vec<Seen>,
}

/// The first place at or behind `i` with the given device, or the length.
pub open spec fn seen_place(seen: Seq<Seen>, peer: Seq<u8>, i: int) -> int
    decreases seen.len() - i,
{
    if i >= seen.len() {
        seen.len() as int
    } else if seen[i].peer@ == peer {
        i
    } else {
        seen_place(seen, peer, i + 1)
    }
}

impl PresenceSeen {
    /// When a beacon of a device was last acted on.
    pub open spec fn last(self, peer: Seq<u8>) -> Option<u64> {
        let i = seen_place(self.seen@, peer, 0);
        if i >= self.seen@.len() {
            None
        } else {
            Some(self.seen@[i].at)
        }
    }

    /// Nothing was acted on yet.
    pub fn new() -> (r: Self)
        ensures
            forall|peer: Seq<u8>| r.last(peer) is None,
    {
        PresenceSeen { seen: Vec::new() }
    }
}

/// Whether a beacon comes after the time in which further ones go unheeded.
pub open spec fn debounce_passed(last: Option<u64>, now: u64) -> bool {
    match last {
        Some(t) => now - t >= PRESENCE_DEBOUNCE,
        None => true,
    }
}

proof fn lemma_seen_place(seen: Seq<Seen>, peer: Seq<u8>, i: int)
    requires
        0 <= i <= seen.len(),
    ensures
        i <= seen_place(seen, peer, i) <= seen.len(),
        seen_place(seen, peer, i) < seen.len() ==> seen[seen_place(seen, peer, i)].peer@ == peer,
        forall|k: int|
            i <= k < seen_place(seen, peer, i) ==> (#[trigger] seen[k]).peer@ != peer,
    decreases seen.len() - i,
{
    if i < seen.len() && seen[i].peer@ != peer {
        lemma_seen_place(seen, peer, i + 1);
    }
}

proof fn lemma_seen_is(seen: Seq<Seen>, peer: Seq<u8>, i: int, j: int)
    requires
        0 <= i <= j <= seen.len(),
        j < seen.len() ==> seen[j].peer@ == peer,
        forall|k: int| i <= k < j ==> (#[trigger] seen[k]).peer@ != peer,
    ensures
        seen_place(seen, peer, i) == j,
    decreases j - i,
{
    if i < j {
        lemma_seen_is(seen, peer, i + 1, j);
    }
}

/// Whether a beacon is acted on: the first one of a device is, and so is each
/// one that comes long enough after the last. Only these are remembered, and
/// those of other devices do not matter.
pub fn presence_debounce_admits(seen: &mut PresenceSeen, peer: NodeId, now: u64) -> (r: bool)
    ensures
        r == debounce_passed(old(seen).last(peer@), now),
        r ==> final(seen).last(peer@) == Some(now),
        !r ==> *final(seen) == *old(seen),
        forall|other: Seq<u8>|
            other != peer@ ==> final(seen).last(other) == old(seen).last(other),
{
    let ghost before = seen.seen@;
    let mut i: usize = 0;
    while i < seen.seen.len() && !same_node(&seen.seen[i].peer, &peer)
        invariant
            i <= seen.seen@.len(),
            seen.seen@ == before,
            seen_place(before, peer@, 0) == seen_place(before, peer@, i as int),
        decreases before.len() - i,
    {
        i = i + 1;
    }
    proof {
        lemma_seen_place(before, peer@, 0);
    }
    if i < seen.seen.len() {
        let last = seen.seen[i].at;
        if now < last || now - last < PRESENCE_DEBOUNCE {
            return false;
        }
        seen.seen.set(i, Seen { peer, at: now });
        proof {
            let after = seen.seen@;
            assert forall|k: int| 0 <= k < after.len() implies (#[trigger] after[k]).peer@
                == before[k].peer@ by {}
            assert forall|other: Seq<u8>| seen_place(after, other, 0) == seen_place(
                before,
                other,
                0,
            ) by {
                lemma_seen_place(before, other, 0);
                let j = seen_place(before, other, 0);
                assert forall|k: int| 0 <= k < j implies (#[trigger] after[k]).peer@ != other by {
                    assert(before[k].peer@ != other);
                }
                lemma_seen_is(after, other, 0, j);
            }
            assert forall|other: Seq<u8>| other != peer@ implies seen.last(other) == old(
                seen,
            ).last(other) by {
                lemma_seen_place(before, other, 0);
            }
        }
    } else {
        seen.seen.push(Seen { peer, at: now });
        proof {
            let after = seen.seen@;
            assert forall|other: Seq<u8>| other != peer@ implies seen.last(other) == old(
                seen,
            ).last(other) by {
                lemma_seen_place(before, other, 0);
                let j = seen_place(before, other, 0);
                if j < before.len() {
                    assert forall|k: int| 0 <= k < j implies (#[trigger] after[k]).peer@
                        != other by {
                        assert(after[k] == before[k]);
                    }
                    lemma_seen_is(after, other, 0, j);
                } else {
                    assert forall|k: int| 0 <= k < after.len() implies (#[trigger] after[k]).peer@
                        != other by {
                        if k < before.len() {
                            assert(after[k] == before[k]);
                        }
                    }
                    lemma_seen_is(after, other, 0, after.len() as int);
                }
            }
            assert forall|k: int| 0 <= k < before.len() implies (#[trigger] after[k]).peer@
                != peer@ by {
                assert(after[k] == before[k]);
            }
            lemma_seen_is(after, peer@, 0, before.len() as int);
        }
    }
    true
}

/// Whether something is still to be sent to a device.
pub open spec fn has_rows_for(rows: Seq<OutboundRow>, peer: Seq<u8>) -> bool {
    exists|i: int|
        0 <= i < rows.len() && (#[trigger] rows[i]).peer@ == peer && !rows[i].state.terminal()
}

/// Whether one of the rows is for the device and not finished.
pub fn has_pending_rows_for(rows: &Vec<OutboundRow>, peer: &NodeId) -> (r: bool)
    ensures
        r == has_rows_for(rows@, peer@),
{
    let mut i: usize = 0;
    while i < rows.len()
        invariant
            i <= rows@.len(),
            forall|k: int|
                0 <= k < i ==> (#[trigger] rows@[k]).peer@ != peer@ || rows@[k].state.terminal(),
        decreases rows@.len() - i,
    {
        if !rows[i].state.is_terminal() && same_node(&rows[i].peer, peer) {
            return true;
        }
        i = i + 1;
    }
    false
}

/// What is done about a beacon.
#[derive(Debug, Clone, Copy, PartialEq, Eq, Structural)]
pub enum PresenceAction {
    /// The device is not one of the account.
    Unauthorized,
    /// There is nothing to send to the device.
    NothingPending,
    /// The device was heard of a moment ago.
    Debounced,
    /// Sending goes on; first the engine for the device is built.
    BuildAndResume,
    /// Sending goes on.
    Resume,
}

/// What is done about a beacon: nothing unless the device is one of the
/// account, something is to be sent to it and it was not heard of a moment
/// ago, looked at in this order. A beacon that is refused for one of the first
/// two reasons is not remembered.
pub fn handle_peer_presence(
    authorized: Option<&str>,
    pending: &Vec<OutboundRow>,
    seen: &mut PresenceSeen,
    from: NodeId,
    now: u64,
    has_engine: bool,
) -> (r: PresenceAction)
    ensures
        r == if !is_listed(authorized, from@) {
            PresenceAction::Unauthorized
        } else if !has_rows_for(pending@, from@) {
            PresenceAction::NothingPending
        } else if !debounce_passed(old(seen).last(from@), now) {
            PresenceAction::Debounced
        } else if has_engine {
            PresenceAction::Resume
        } else {
            PresenceAction::BuildAndResume
        },
        r == PresenceAction::Unauthorized || r == PresenceAction::NothingPending || r
            == PresenceAction::Debounced ==> *final(seen) == *old(seen),
        r == PresenceAction::Resume || r == PresenceAction::BuildAndResume ==> final(seen).last(
            from@,
        ) == Some(now),
        forall|other: Seq<u8>|
            other != from@ ==> final(seen).last(other) == old(seen).last(other),
{
    if !listed(authorized, &from) {
        return PresenceAction::Unauthorized;
    }
    if !has_pending_rows_for(pending, &from) {
        return PresenceAction::NothingPending;
    }
    if !presence_debounce_admits(seen, from, now) {
        return PresenceAction::Debounced;
    }
    if has_engine {
        PresenceAction::Resume
    } else {
        PresenceAction::BuildAndResume
    }
}

/// The ids of the devices.
pub open spec fn ids_of(ids: Seq<NodeId>) -> Seq<Seq<u8>> {
    Seq::new(ids.len(), |i: int| ids[i]@)
}

/// The other devices among the first `n` of the list, in order; an entry that
/// is no node id is passed over.
pub open spec fn others_of(hexes: Seq<Seq<char>>, me: Seq<u8>, n: int) -> Seq<Seq<u8>>
    decreases n,
{
    if n <= 0 {
        Seq::empty()
    } else {
        match node_of_hex(hexes[n - 1]) {
            Some(id) => if id == me {
                others_of(hexes, me, n - 1)
            } else {
                others_of(hexes, me, n - 1).push(id)
            },
            None => others_of(hexes, me, n - 1),
        }
    }
}

/// The devices that are told that this one is back: all on the list but itself.
/// Without relays nobody can be reached, so nobody is told.
pub fn broadcast_presence(hexes: &Vec<String>, me: &NodeId, has_relays: bool) -> (r: Vec<NodeId>)
    ensures
        ids_of(r@) == if has_relays {
            others_of(texts(hexes@), me@, hexes@.len() as int)
        } else {
            Seq::<Seq<u8>>::empty()
        },
{
    let mut out: Vec<NodeId> = Vec::new();
    if !has_relays {
        assert(ids_of(out@) =~= Seq::<Seq<u8>>::empty());
        return out;
    }
    let ghost all = texts(hexes@);
    let mut i: usize = 0;
    assert(ids_of(out@) =~= others_of(all, me@, 0));
    while i < hexes.len()
        invariant
            i <= hexes@.len(),
            all == texts(hexes@),
            ids_of(out@) == others_of(all, me@, i as int),
        decreases hexes@.len() - i,
    {
        if let Some(id) = node_id_from_hex(hexes[i].as_str()) {
            if !same_node(&id, me) {
                let ghost before = ids_of(out@);
                out.push(id);
                assert(ids_of(out@) =~= before.push(id@));
            }
        }
        i = i + 1;
    }
    out
}

/// The distinct devices of those of the first `n` rows that are not finished,
/// in the order in which they are first met.
pub open spec fn pending_peers(rows: Seq<OutboundRow>, n: int) -> Seq<NodeId>
    decreases n,
{
    if n <= 0 {
        Seq::empty()
    } else {
        let before = pending_peers(rows, n - 1);
        if rows[n - 1].state.terminal() || holds_node(before, rows[n - 1].peer@) {
            before
        } else {
            before.push(rows[n - 1].peer)
        }
    }
}

/// The distinct devices that something is still to be sent to, in the order in
/// which they are first met.
pub fn distinct_pending_peers(rows: &Vec<OutboundRow>) -> (r: Vec<NodeId>)
    ensures
        r@ == pending_peers(rows@, rows@.len() as int),
{
    let mut out: Vec<NodeId> = Vec::new();
    let mut i: usize = 0;
    while i < rows.len()
        invariant
            i <= rows@.len(),
            out@ == pending_peers(rows@, i as int),
        decreases rows@.len() - i,
    {
        if !rows[i].state.is_terminal() && !list_holds_node(&out, &rows[i].peer) {
            out.push(rows[i].peer);
        }
        i = i + 1;
    }
    out
}

/// Each device that something is still to be sent to occurs exactly once, and
/// no other device does.
pub proof fn law_each_pending_peer_once(rows: Seq<OutboundRow>, n: int)
    requires
        0 <= n <= rows.len(),
    ensures
        forall|i: int, j: int|
            0 <= i < j < pending_peers(rows, n).len() ==> (#[trigger] pending_peers(rows, n)[i])@
                != (#[trigger] pending_peers(rows, n)[j])@,
        forall|i: int|
            0 <= i < n && !rows[i].state.terminal() ==> holds_node(
                pending_peers(rows, n),
                (#[trigger] rows[i]).peer@,
            ),
        forall|k: int|
            0 <= k < pending_peers(rows, n).len() ==> has_rows_for(
                rows,
                (#[trigger] pending_peers(rows, n)[k])@,
            ),
    decreases n,
{
    if n > 0 {
        law_each_pending_peer_once(rows, n - 1);
        let before = pending_peers(rows, n - 1);
        let now = pending_peers(rows, n);
        assert forall|k: int| 0 <= k < now.len() implies has_rows_for(
            rows,
            (#[trigger] now[k])@,
        ) by {
            if k < before.len() {
                assert(now[k] == before[k]);
            } else {
                assert(rows[n - 1].peer@ == now[k]@);
            }
        }
        assert forall|i: int| 0 <= i < n && !rows[i].state.terminal() implies holds_node(
            now,
            (#[trigger] rows[i]).peer@,
        ) by {
            if holds_node(before, rows[i].peer@) {
                let k = choose|k: int|
                    0 <= k < before.len() && (#[trigger] before[k])@ == rows[i].peer@;
                assert(now[k]@ == rows[i].peer@);
            } else {
                assert(now[before.len() as int]@ == rows[i].peer@);
            }
        }
        assert forall|i: int, j: int| 0 <= i < j < now.len() implies (#[trigger] now[i])@ != (
        #[trigger] now[j])@ by {
            assert(now[i] == before[i]);
            if j < before.len() {
                assert(now[j] == before[j]);
            }
        }
    }
}

/// Those of the first `n` devices that are on the list of the account.
pub open spec fn account_peers(
    peers: Seq<NodeId>,
    authorized: Seq<String>,
    n: int,
) -> Seq<NodeId>
    decreases n,
{
    if n <= 0 {
        Seq::empty()
    } else if holds_text(authorized, hex_of(peers[n - 1]@)) {
        account_peers(peers, authorized, n - 1).push(peers[n - 1])
    } else {
        account_peers(peers, authorized, n - 1)
    }
}

/// The devices that are on the list of the account.
pub fn filter_account_peers(peers: Vec<NodeId>, authorized_hex: &Vec<String>) -> (r: Vec<NodeId>)
    ensures
        r@ == account_peers(peers@, authorized_hex@, peers@.len() as int),
{
    let mut out: Vec<NodeId> = Vec::new();
    let mut i: usize = 0;
    while i < peers.len()
        invariant
            i <= peers@.len(),
            out@ == account_peers(peers@, authorized_hex@, i as int),
        decreases peers@.len() - i,
    {
        let hex = node_id_hex(&peers[i]);
        if list_holds(authorized_hex, hex.as_str()) {
            out.push(peers[i]);
        }
        i = i + 1;
    }
    out
}

} // verus!
