use athenaeum_core::api::error::ApiError;
use athenaeum_core::api::sync::node_id::{node_id_from_hex, node_id_hex, NodeId};
use athenaeum_core::api::sync::peers::{
    account_device_capabilities, account_device_names, account_peer_hexes, account_signed_in,
    allow_default_relays, autostart_gate, cached_authorized_peer_hexes, cached_relays,
    connect_gate, distinct_pending_peers, filter_account_peers, handle_peer_presence,
    peer_authorizer, presence_debounce_admits, broadcast_presence,
    pubkey_b64_to_hex, sync_configured, sync_paths, AccountDevice, DeviceCapability,
    PresenceAction, PresenceSeen, PRESENCE_DEBOUNCE,
};
use athenaeum_core::api::sync::rows::{OutboundRow, OutboundState, PackageLayout};
use athenaeum_core::api::sync::resurrection::{
    ensured_engines, resurrect_pending_senders, resurrect_pending_senders_with, EngineVisit,
    StoreFault,
};
use athenaeum_core::api::sync::startup::{
    autostart_if_enabled, cleanup_orphan_blob_stores, ensure_sender_engine, get_pairing_ticket,
    incoming_resolver, refresh_authorized_peers, resolve_relay_mode, sender_addr_refresher,
    store_cached_relays, StartupStep,
};
use athenaeum_core::api::sync::summaries::{cached_device_kind_map, cached_device_names};
use athenaeum_core::api::sync::transfer_files::{
    get_sync_device_capabilities, get_sync_device_names, resolve_dest_node,
};
use base64::Engine;

fn node(b: u8) -> NodeId {
    node_id_from_hex(&format!("{b:02x}").repeat(32)).unwrap()
}

fn row(id: i64, peer: NodeId, state: OutboundState) -> OutboundRow {
    OutboundRow {
        id,
        package_ref: format!("/pkgs/{id}"),
        peer,
        state,
        attempts: 0,
        next_retry_at: None,
        last_error: None,
        created_at: "2026-07-20T00:00:00Z".into(),
        confirmed_at: None,
        display_name: None,
        wire_package_id: None,
        generation: 1,
        layout: PackageLayout::Batch,
    }
}

fn dev(seed: u8, capability: DeviceCapability) -> AccountDevice {
    AccountDevice {
        id: format!("dev-{seed}"),
        name: format!("n{seed}"),
        pubkey: base64::engine::general_purpose::STANDARD.encode([seed; 32]),
        capability,
        created_at: "2026-07-11T00:00:00Z".into(),
        last_seen_at: None,
        endpoint_addr: Some(format!("addr-{seed}")),
    }
}

#[test]
fn presence_debounce_admits_once_per_window_per_peer() {
    let a: NodeId = [0x01; 32];
    let b: NodeId = [0x02; 32];
    let mut seen = PresenceSeen::new();
    assert!(presence_debounce_admits(&mut seen, a, 1_000), "first beacon from a peer is admitted");
    assert!(
        !presence_debounce_admits(&mut seen, a, 2_000),
        "a second beacon inside the window is not"
    );
    assert!(
        presence_debounce_admits(&mut seen, b, 2_000),
        "the window is per peer — another device is unaffected"
    );
    assert!(
        presence_debounce_admits(&mut seen, a, 1_000 + PRESENCE_DEBOUNCE),
        "behind the window the device is heard again"
    );
}

#[test]
fn distinct_pending_peers_dedups_and_excludes_terminal() {
    let (peer_a, peer_b, peer_c) = (node(0xaa), node(0xbb), node(0xcc));
    let rows = vec![
        row(1, peer_a, OutboundState::Queued),
        row(2, peer_a, OutboundState::Transferring),
        row(3, peer_b, OutboundState::Queued),
        row(4, peer_b, OutboundState::Confirmed),
        row(5, peer_c, OutboundState::Failed),
    ];
    assert_eq!(
        distinct_pending_peers(&rows),
        vec![peer_a, peer_b],
        "distinct non-terminal peers, first-seen order; the all-terminal peer_c is excluded"
    );
}

#[test]
fn filter_account_peers_keeps_only_authorized() {
    let member = node(0xaa);
    let stranger = node(0xbb);
    let authorized = vec![node_id_hex(&member)];
    let kept = filter_account_peers(vec![member, stranger], &authorized);
    assert_eq!(kept, vec![member], "only the account member survives the filter");
}

#[test]
fn resurrect_pending_senders_with_skips_non_account_peers() {
    let (member, stranger) = (node(0x55), node(0x66));
    let rows = || {
        vec![
            row(1, member, OutboundState::Queued),
            row(2, stranger, OutboundState::Queued),
            row(3, member, OutboundState::Queued),
        ]
    };
    let none = Vec::new();
    let list = resurrect_pending_senders(Some(true), Some(&node_id_hex(&member)));
    let peers = resurrect_pending_senders_with(Ok(rows()), list.as_ref(), &none).unwrap();
    assert_eq!(peers, vec![member], "never the stranger");
    assert_eq!(ensured_engines(&vec![EngineVisit::Built]), 1);
    assert_eq!(ensured_engines(&vec![EngineVisit::Failed, EngineVisit::Built]), 1);

    let nobody = resurrect_pending_senders(Some(true), None);
    let peers = resurrect_pending_senders_with(Ok(rows()), nobody.as_ref(), &none).unwrap();
    assert!(peers.is_empty());
    assert!(resurrect_pending_senders(None, None).is_none());
    let everybody = resurrect_pending_senders(Some(false), None);
    assert_eq!(
        resurrect_pending_senders_with(Ok(rows()), everybody.as_ref(), &none).unwrap(),
        vec![member, stranger]
    );
    match resurrect_pending_senders_with(Err(StoreFault::Open("locked".into())), None, &none) {
        Err(ApiError::Internal(m)) => assert_eq!(m, "open catalog sync store: locked"),
        other => panic!("{other:?}"),
    }
    match resurrect_pending_senders_with(Err(StoreFault::Read("bad".into())), None, &none) {
        Err(ApiError::Internal(m)) => assert_eq!(m, "read non-terminal outbound rows: bad"),
        other => panic!("{other:?}"),
    }
}

#[test]
fn engines_are_built_only_where_none_runs_and_something_waits() {
    let (a, b, c, d) = (node(0x0a), node(0x0b), node(0x0c), node(0x0d));
    let rows = || {
        vec![
            row(1, c, OutboundState::Queued),
            row(2, d, OutboundState::Failed),
            row(3, a, OutboundState::Delivered),
            row(4, b, OutboundState::Announced),
            row(5, c, OutboundState::Confirmed),
        ]
    };
    let built = |started: Vec<NodeId>| {
        resurrect_pending_senders_with(Ok(rows()), None, &started).unwrap()
    };
    assert_eq!(built(vec![]), vec![c, a, b], "the finished transfer to d builds nothing");
    assert_eq!(built(vec![a, d]), vec![c, b], "one runs for a already");
    assert!(built(vec![b, c, a]).is_empty());
    let listed = vec![node_id_hex(&a), node_id_hex(&d)];
    let peers = resurrect_pending_senders_with(Ok(rows()), Some(&listed), &vec![a]).unwrap();
    assert!(peers.is_empty());
}

#[test]
fn a_sender_comes_online_without_a_receiver() {
    assert!(ensure_sender_engine(true).is_none());
    assert_eq!(
        ensure_sender_engine(false).unwrap(),
        vec![
            StartupStep::BindNode,
            StartupStep::RefreshRelays,
            StartupStep::InstallWakeHook,
            StartupStep::SchedulePeerRefresh,
        ]
    );
}

#[test]
fn a_device_comes_online_with_an_account_or_the_flag() {
    assert!(autostart_if_enabled(false, false).is_none());
    let steps = autostart_if_enabled(false, true).unwrap();
    assert_eq!(autostart_if_enabled(true, false).unwrap(), steps);
    let at = |s: StartupStep| steps.iter().position(|x| *x == s).unwrap();
    assert!(at(StartupStep::RefreshPeers) < at(StartupStep::StartReceiver));
    assert!(at(StartupStep::StartReceiver) < at(StartupStep::SweepOrphans));
    assert_eq!(
        cleanup_orphan_blob_stores("/d/sync"),
        vec!["/d/sync/blobs_out", "/d/sync/blobs_collab"]
    );
}

#[test]
fn account_peer_hexes_includes_every_device_regardless_of_role() {
    let devices = vec![
        dev(1, DeviceCapability::Athenaeum),
        dev(2, DeviceCapability::Perseus),
        dev(3, DeviceCapability::Athenaeum),
    ];
    let hexes = account_peer_hexes(&devices);
    assert_eq!(hexes.len(), 3, "every account device is authorized, not just paired captures");
    assert!(hexes.contains(&"01".repeat(32)));
    assert!(hexes.contains(&"02".repeat(32)));
    assert!(hexes.contains(&"03".repeat(32)));

    let names = account_device_names(&devices);
    assert_eq!(names.len(), 3);
    assert_eq!(names.get(&"01".repeat(32)).map(String::as_str), Some("n1"));
    assert_eq!(names.get(&"02".repeat(32)).map(String::as_str), Some("n2"));
    assert_eq!(names.get(&"03".repeat(32)).map(String::as_str), Some("n3"));
}

#[test]
fn account_device_capabilities_maps_hex_to_capability_string() {
    let devices = vec![dev(1, DeviceCapability::Athenaeum), dev(2, DeviceCapability::Perseus)];
    let caps = account_device_capabilities(&devices);
    assert_eq!(caps.len(), 2);
    assert_eq!(caps.get(&"01".repeat(32)).map(String::as_str), Some("athenaeum"));
    assert_eq!(caps.get(&"02".repeat(32)).map(String::as_str), Some("perseus"));

    let mut bad = dev(3, DeviceCapability::Perseus);
    bad.pubkey = "not-base64!!".into();
    let caps = account_device_capabilities(&vec![bad]);
    assert!(caps.is_empty(), "an undecodable pubkey yields no capability entry");
}

#[test]
fn cached_relays_round_trip() {
    assert_eq!(cached_relays(None), Vec::<String>::new());
    let urls = vec![
        "https://relay1.example.org".to_string(),
        "https://relay2.example.org".to_string(),
    ];
    let kept = store_cached_relays(&urls);
    assert_eq!(cached_relays(Some(&kept)), urls);
}

#[test]
fn device_names_cache_resolves_present_absent_and_malformed() {
    let peer_a = "aa".repeat(32);
    let peer_z = "99".repeat(32);
    assert!(cached_device_names(None).is_empty(), "no cache yet → empty");

    let json = format!(r#"{{"{peer_a}":"My Mac"}}"#);
    let map = cached_device_names(Some(&json));
    assert_eq!(map.get(&peer_a).map(String::as_str), Some("My Mac"));
    assert!(map.get(&peer_z).is_none(), "an uncached peer resolves to None");

    assert!(
        cached_device_names(Some("not json")).is_empty(),
        "malformed cache → empty, best-effort"
    );
}

#[test]
fn device_names_empty_when_signed_out() {
    assert!(get_sync_device_names(None).is_empty());
    assert!(get_sync_device_capabilities(None).is_empty());
    let devices = vec![dev(1, DeviceCapability::Perseus)];
    assert_eq!(get_sync_device_names(Some(&devices)).len(), 1);
    assert_eq!(
        get_sync_device_capabilities(Some(&devices)).get(&"01".repeat(32)).map(String::as_str),
        Some("perseus")
    );
}

#[test]
fn autostart_gate_matrix() {
    assert!(autostart_gate(true, false), "dev flag alone must start");
    assert!(autostart_gate(false, true), "signed-in alone must start");
    assert!(autostart_gate(true, true), "both true still starts");
    assert!(!autostart_gate(false, false), "neither condition: must not start");
}

#[test]
fn autostart_gate_starts_for_any_signed_in_node() {
    assert!(autostart_gate(true, false));
    assert!(autostart_gate(false, true));
    assert!(!autostart_gate(false, false));
}

#[test]
fn account_signed_in_matrix() {
    assert!(!account_signed_in(None), "no identity yet -> not signed in");
    assert!(account_signed_in(Some("device-1")), "identity present -> signed in");
    assert!(!account_signed_in(None), "identity cleared (sign-out) -> not signed in");
    assert!(sync_configured("TRUE", None));
    assert!(sync_configured("false", Some("device-1")));
    assert!(!sync_configured("false", None));
}

#[test]
fn allow_default_relays_signed_in_always_refuses_even_with_dev_flag() {
    assert!(!allow_default_relays(true, true), "signed-in + dev flag: still refused");
    assert!(!allow_default_relays(true, false), "signed-in, no dev flag: refused");
    assert!(
        allow_default_relays(false, true),
        "signed-out + dev flag: pure dev/ticket mode allowed"
    );
    assert!(!allow_default_relays(false, false), "signed-out, no dev flag: refused");
}

#[test]
fn relays_that_were_just_learned_are_kept() {
    let urls = vec!["https://r1".to_string(), "https://r2".to_string()];
    let plan = resolve_relay_mode(urls.clone(), true, true, true);
    assert_eq!(plan.urls, urls);
    assert_eq!(plan.cache.as_deref(), Some("https://r1\nhttps://r2"));
    assert!(!plan.allow_default);
    let plan = resolve_relay_mode(vec![], false, false, true);
    assert!(plan.cache.is_none());
    assert!(plan.allow_default);
}

#[test]
fn signed_in_with_dev_flag_on_still_prefers_hub_relay_map_over_default() {
    let urls = vec!["https://relay1.example.org".to_string()];
    assert!(
        !allow_default_relays(true, true),
        "a signed-in device must never get the Default-relay opt-in"
    );
    let plan = resolve_relay_mode(urls.clone(), true, true, true);
    assert_eq!(plan.urls, urls);
    assert_eq!(plan.cache.as_deref(), Some("https://relay1.example.org"));
    assert!(!plan.allow_default, "must use the hub's relay map, not the public defaults");
}

/// After a visit to the account its devices are let in, and nobody else is.
#[test]
fn a_refreshed_list_lets_the_account_in() {
    let devices = vec![dev(1, DeviceCapability::Athenaeum), dev(2, DeviceCapability::Perseus)];
    let cache = refresh_authorized_peers(true, Some(&devices)).unwrap();
    let list = cache.authorized.as_str();
    assert!(peer_authorizer(Some("me"), Some(list), &[1u8; 32]));
    assert!(peer_authorizer(Some("me"), Some(list), &[2u8; 32]));
    assert!(!peer_authorizer(Some("me"), Some(list), &[3u8; 32]));
    assert!(!peer_authorizer(Some("me"), None, &[1u8; 32]), "no list lets nobody in");
    assert!(peer_authorizer(None, None, &[3u8; 32]), "without an account everybody may");
    assert!(connect_gate(Some("me"), Some(list), true, &[3u8; 32]), "members of a project may");
    assert!(!connect_gate(Some("me"), Some(list), false, &[3u8; 32]));

    let names = cached_device_names(cache.names.as_deref());
    assert_eq!(names.get(&"02".repeat(32)).map(String::as_str), Some("n2"));
    let kinds = cached_device_kind_map(cache.capabilities.as_deref());
    assert_eq!(kinds.get(&"02".repeat(32)).map(String::as_str), Some("perseus"));

    assert!(refresh_authorized_peers(false, Some(&devices)).is_none());
    assert!(refresh_authorized_peers(true, None).is_none());
}

#[test]
fn a_beacon_is_acted_on_only_where_it_helps() {
    let me = node(0xaa);
    let list = node_id_hex(&me);
    let pending = vec![row(1, me, OutboundState::Queued)];
    let mut seen = PresenceSeen::new();
    assert_eq!(
        handle_peer_presence(None, &pending, &mut seen, me, 1, false),
        PresenceAction::Unauthorized
    );
    assert_eq!(
        handle_peer_presence(Some(&list), &vec![], &mut seen, me, 1, false),
        PresenceAction::NothingPending
    );
    let finished = vec![row(1, me, OutboundState::Confirmed), row(2, me, OutboundState::Failed)];
    assert_eq!(
        handle_peer_presence(Some(&list), &finished, &mut seen, me, 1, false),
        PresenceAction::NothingPending,
        "finished transfers wait for nobody"
    );
    assert_eq!(
        handle_peer_presence(Some(&list), &pending, &mut seen, me, 1, false),
        PresenceAction::BuildAndResume
    );
    assert_eq!(
        handle_peer_presence(Some(&list), &pending, &mut seen, me, 2, true),
        PresenceAction::Debounced
    );
    assert_eq!(
        handle_peer_presence(Some(&list), &pending, &mut seen, me, PRESENCE_DEBOUNCE + 1, true),
        PresenceAction::Resume
    );
}

#[test]
fn beacons_go_to_the_others() {
    let (me, other) = (node(0xaa), node(0xbb));
    let hexes = vec![node_id_hex(&me), node_id_hex(&other), "junk".to_string()];
    assert_eq!(broadcast_presence(&hexes, &me, true), vec![other]);
    assert!(broadcast_presence(&hexes, &me, false).is_empty());
}

#[test]
fn node_ids_round_trip() {
    let id: NodeId = [0xab; 32];
    assert_eq!(node_id_hex(&id), "ab".repeat(32));
    assert_eq!(node_id_from_hex(&"AB".repeat(32)), Some(id));
    assert_eq!(node_id_from_hex("ab"), None);
    assert_eq!(node_id_from_hex(&"zz".repeat(32)), None);
    assert_eq!(pubkey_b64_to_hex("AAAA"), None, "three bytes are no key");
    let key = base64::engine::general_purpose::STANDARD.encode([7u8; 32]);
    assert_eq!(pubkey_b64_to_hex(&key), Some("07".repeat(32)));
}

#[test]
fn listed_peers_come_once_each() {
    assert_eq!(
        cached_authorized_peer_hexes(Some("aa\n bb \n\naa\n")),
        vec!["aa".to_string(), "bb".to_string()]
    );
    assert!(cached_authorized_peer_hexes(None).is_empty());
}

#[test]
fn destinations_must_be_able_to_receive() {
    let mut broken = dev(3, DeviceCapability::Athenaeum);
    broken.pubkey = "??".into();
    let devices =
        vec![dev(1, DeviceCapability::Athenaeum), dev(2, DeviceCapability::Perseus), broken];
    let dest = resolve_dest_node(&devices, "dev-1", "").unwrap();
    assert_eq!(dest.node, [1u8; 32]);
    assert_eq!(dest.endpoint_addr.as_deref(), Some("addr-1"));
    let refused = |id: &str| match resolve_dest_node(&devices, id, "no key at all") {
        Err(ApiError::Invalid(m)) => m,
        other => panic!("{other:?}"),
    };
    assert_eq!(refused("dev-9"), "destination device dev-9 is not in the account's device list");
    assert_eq!(
        refused("dev-2"),
        "device dev-2 is a send-only Perseus agent and cannot receive frames"
    );
    assert_eq!(
        refused("dev-3"),
        "destination device dev-3 has an invalid pubkey: no key at all"
    );
}

#[test]
fn the_address_of_a_device_is_what_it_told() {
    let devices = vec![dev(1, DeviceCapability::Athenaeum), dev(2, DeviceCapability::Perseus)];
    assert_eq!(sender_addr_refresher(&devices, &[2u8; 32]).as_deref(), Some("addr-2"));
    assert_eq!(sender_addr_refresher(&devices, &[9u8; 32]), None);
}

#[test]
fn small_gates() {
    assert!(get_pairing_ticket(true).is_ok());
    assert!(matches!(get_pairing_ticket(false), Err(ApiError::Forbidden(_))));
    assert_eq!(incoming_resolver(Ok(Some("/in".into())), "/fallback"), "/in");
    assert_eq!(incoming_resolver(Ok(None), "/fallback"), "/fallback");
    assert_eq!(incoming_resolver(Err("db".into()), "/fallback"), "/fallback");
    assert_eq!(
        sync_paths("/data/catalog.db"),
        ("/data/sync".to_string(), "/data/catalog.db".to_string())
    );
}

#[test]
fn presence_from_an_unauthorized_peer_builds_no_engine() {
    let authorized = "aa".repeat(32);
    let stranger: NodeId = [0x77; 32];
    let pending = vec![row(1, stranger, OutboundState::Queued)];
    let mut seen = PresenceSeen::new();
    assert_eq!(
        handle_peer_presence(Some(&authorized), &pending, &mut seen, stranger, 1, false),
        PresenceAction::Unauthorized,
        "a stranger's beacon must not build an engine"
    );
    assert!(
        presence_debounce_admits(&mut seen, stranger, 1),
        "a refused beacon must not have reached the debounce stamp"
    );
}

#[test]
fn presence_with_no_pending_rows_builds_no_engine() {
    let peer: NodeId = [0xbb; 32];
    let mut seen = PresenceSeen::new();
    assert_eq!(
        handle_peer_presence(Some(&node_id_hex(&peer)), &vec![], &mut seen, peer, 1, false),
        PresenceAction::NothingPending,
        "an authorized peer with no non-terminal rows has nothing to resume"
    );
    assert!(
        presence_debounce_admits(&mut seen, peer, 1),
        "the pending-rows gate must stop the beacon before the debounce stamp"
    );
}

#[test]
fn autostart_signed_out_dev_off_never_starts_the_receiver() {
    assert!(
        autostart_if_enabled(false, account_signed_in(None)).is_none(),
        "signed-out + dev off must not start"
    );
}

#[test]
fn autostart_starts_when_signed_in_without_primary_role() {
    let steps = autostart_if_enabled(false, account_signed_in(Some("device-1")))
        .expect("a signed-in node must pass the autostart gate regardless of role");
    assert!(steps.contains(&StartupStep::StartReceiver));
}
