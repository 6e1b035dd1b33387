use hbbs::addr::{IpAddress, SockAddr};
use hbbs::control::RendezvousCmdReply;
use hbbs::peer::{StoreWrite, StoredPeer};
use hbbs::rendezvous::{
    get_servers, NatType, PunchFailure, PunchOutcome, RegisterPkResult, RendezvousServer,
};

fn v4(a: u8, b: u8, c: u8, d: u8, port: u16) -> SockAddr {
    SockAddr { ip: IpAddress::V4(u32::from_be_bytes([a, b, c, d])), port }
}

fn server(key: &str, sk: Option<Vec<u8>>) -> RendezvousServer {
    RendezvousServer::new(
        3,
        key.to_string(),
        sk,
        None,
        String::new(),
        String::new(),
        String::new(),
        vec![],
        vec!["relay1".to_string()],
        false,
    )
}

fn register(s: &mut RendezvousServer, id: &str, addr: SockAddr, ip: &str, pk: u8, now: u64) {
    let r = s.handle_register_pk(&id.to_string(), &vec![1u8], &vec![pk], addr, &ip.to_string(), None, now);
    assert_eq!(r.result, RegisterPkResult::Success);
    let rp = s.update_addr(&id.to_string(), 3, addr, &ip.to_string(), now).unwrap();
    assert!(!rp.request_pk);
}

#[test]
fn fresh_peer_registration() {
    let mut s = server("", None);
    let a = v4(1, 2, 3, 4, 50000);
    let id = "AAAAAA".to_string();
    let rp = s.update_addr(&id, 0, a, &"1.2.3.4".to_string(), 1_000_000).unwrap();
    assert!(rp.request_pk);
    assert!(rp.config_update);
    let r = s.handle_register_pk(&id, &vec![1u8; 16], &vec![2u8; 32], a, &"1.2.3.4".to_string(), None, 1_000_100);
    assert_eq!(r.result, RegisterPkResult::Success);
    match r.write {
        Some(StoreWrite::Insert { id: i, uuid, pk, ip }) => {
            assert_eq!(i, id);
            assert_eq!(uuid, vec![1u8; 16]);
            assert_eq!(pk, vec![2u8; 32]);
            assert_eq!(ip, "1.2.3.4");
        }
        _ => panic!("expected an insert"),
    }
    assert_eq!(s.pm.get_in_memory(&id).unwrap().pk, vec![2u8; 32]);
}

#[test]
fn registered_key_served_from_memory() {
    let mut s = server("", None);
    let id = "AAAAAA".to_string();
    register(&mut s, "AAAAAA", v4(1, 2, 3, 4, 50000), "1.2.3.4", 9, 1_000_000);
    assert!(s.pm.get(&id, None, 1_000_500));
    assert_eq!(s.pm.get_in_memory(&id).unwrap().pk, vec![9u8]);
    let rp = s.update_addr(&id, 3, v4(1, 2, 3, 4, 50001), &"1.2.3.4".to_string(), 1_000_600).unwrap();
    assert!(!rp.request_pk);
    assert!(!rp.config_update);
}

#[test]
fn register_pk_rejections() {
    let mut s = server("", None);
    let a = v4(1, 2, 3, 4, 50000);
    let ip = "1.2.3.4".to_string();
    let r = s.handle_register_pk(&"SHORT".to_string(), &vec![1u8], &vec![2u8], a, &ip, None, 1_000_000);
    assert_eq!(r.result, RegisterPkResult::UuidMismatch);
    let r = s.handle_register_pk(&"AAAAAA".to_string(), &vec![], &vec![2u8], a, &ip, None, 1_000_000);
    assert_eq!(r.result, RegisterPkResult::UuidMismatch);
    assert!(r.write.is_none());
    let r = s.handle_register_pk(&"AAAAAA".to_string(), &vec![1u8], &vec![], a, &ip, None, 1_000_000);
    assert_eq!(r.result, RegisterPkResult::UuidMismatch);
    assert!(!s.pm.is_in_memory(&"AAAAAA".to_string()));
    assert!(s.ip_blocker.entries.is_empty());
    register(&mut s, "AAAAAA", a, "1.2.3.4", 2, 1_000_000);
    let other = v4(5, 6, 7, 8, 1);
    let r = s.handle_register_pk(&"AAAAAA".to_string(), &vec![7u8], &vec![2u8], a, &ip, None, 1_000_100);
    assert_eq!(r.result, RegisterPkResult::UuidMismatch);
    let r = s.handle_register_pk(&"AAAAAA".to_string(), &vec![1u8], &vec![3u8], other, &"5.6.7.8".to_string(), None, 1_000_200);
    assert_eq!(r.result, RegisterPkResult::UuidMismatch);
    let r = s.handle_register_pk(&"AAAAAA".to_string(), &vec![1u8], &vec![2u8], a, &ip, None, 1_000_300);
    assert_eq!(r.result, RegisterPkResult::Success);
    assert!(r.write.is_none());
    let r = s.handle_register_pk(&"AAAAAA".to_string(), &vec![1u8], &vec![2u8], a, &ip, None, 1_000_400);
    assert_eq!(r.result, RegisterPkResult::Success);
    let r = s.handle_register_pk(&"AAAAAA".to_string(), &vec![1u8], &vec![2u8], a, &ip, None, 1_000_500);
    assert_eq!(r.result, RegisterPkResult::TooFrequent);
    let r = s.handle_register_pk(&"AAAAAA".to_string(), &vec![1u8], &vec![2u8], a, &ip, None, 1_008_000);
    assert_eq!(r.result, RegisterPkResult::Success);
}

#[test]
fn register_pk_loads_stored_row_and_updates() {
    let mut s = server("", None);
    let row = StoredPeer { guid: vec![42u8; 16], uuid: vec![1u8], pk: vec![2u8], ip: "1.2.3.4".to_string() };
    let r = s.handle_register_pk(&"CCCCCC".to_string(), &vec![1u8], &vec![3u8], v4(1, 2, 3, 4, 9), &"1.2.3.4".to_string(), Some(row), 1_000_000);
    assert_eq!(r.result, RegisterPkResult::Success);
    match r.write {
        Some(StoreWrite::Update { guid, pk, .. }) => {
            assert_eq!(guid, vec![42u8; 16]);
            assert_eq!(pk, vec![3u8]);
        }
        _ => panic!("expected an update"),
    }
}

#[test]
fn punch_hole_happy_path_direct() {
    let (_, sk) = sodiumoxide::crypto::sign::gen_keypair();
    let mut s = server("", Some(sk.0.to_vec()));
    let a = v4(1, 2, 3, 4, 50000);
    let b = v4(5, 6, 7, 8, 40000);
    register(&mut s, "BBBBBB", b, "5.6.7.8", 7, 1_000_000);
    let out = s.handle_punch_hole_request(a, &"BBBBBB".to_string(), &String::new(), NatType::Asymmetric, false, None, 1_010_000);
    match out {
        PunchOutcome::PunchHole { to, socket_addr, nat_type, relay_server } => {
            assert_eq!(to, b);
            assert_eq!(socket_addr, a);
            assert_eq!(nat_type, NatType::Asymmetric);
            assert_eq!(relay_server, "relay1");
        }
        _ => panic!("expected a punch hole"),
    }
    let resp = s.handle_hole_sent(vec![1, 2, 3], &"BBBBBB".to_string(), &"1.2.0".to_string(), Some(NatType::Asymmetric), "relay1".to_string(), None, 1_010_100);
    assert_eq!(resp.socket_addr, vec![1, 2, 3]);
    assert_eq!(resp.relay_server, "relay1");
    assert!(!resp.is_local);
    assert_eq!(resp.pk.len(), 64 + hbbs::identity::id_pk_encode("BBBBBB", &[7]).len());
    let none = s.handle_hole_sent(vec![1], &"BBBBBB".to_string(), &String::new(), None, String::new(), None, 1_010_100);
    assert!(none.pk.is_empty());
}

#[test]
fn same_intranet_fallback() {
    let mut s = server("", None);
    let a = v4(1, 2, 3, 4, 50000);
    let b = v4(1, 2, 3, 4, 40000);
    register(&mut s, "BBBBBB", b, "1.2.3.4", 7, 1_000_000);
    match s.handle_punch_hole_request(a, &"BBBBBB".to_string(), &String::new(), NatType::Asymmetric, false, None, 1_001_000) {
        PunchOutcome::FetchLocalAddr { to, socket_addr, relay_server } => {
            assert_eq!(to, b);
            assert_eq!(socket_addr, a);
            assert_eq!(relay_server, "relay1");
        }
        _ => panic!("expected a local address fetch"),
    }
    assert!(matches!(
        s.handle_punch_hole_request(a, &"BBBBBB".to_string(), &String::new(), NatType::Asymmetric, true, None, 1_001_000),
        PunchOutcome::PunchHole { .. }
    ));
    let resp = s.handle_local_addr(vec![192, 168, 1, 5], &"BBBBBB".to_string(), &String::new(), "relay1".to_string(), None, 1_001_100);
    assert!(resp.is_local);
    assert_eq!(resp.socket_addr, vec![192, 168, 1, 5]);
}

#[test]
fn offline_missing_and_wrong_key() {
    let mut s = server("K", None);
    register(&mut s, "BBBBBB", v4(5, 6, 7, 8, 40000), "5.6.7.8", 7, 1_000_000);
    let a = v4(1, 2, 3, 4, 50000);
    let k = "K".to_string();
    assert!(matches!(
        s.handle_punch_hole_request(a, &"BBBBBB".to_string(), &k, NatType::Asymmetric, false, None, 1_035_000),
        PunchOutcome::Failure(PunchFailure::Offline)
    ));
    assert!(matches!(
        s.handle_punch_hole_request(a, &"ZZZZZZ".to_string(), &k, NatType::Asymmetric, false, None, 1_001_000),
        PunchOutcome::Failure(PunchFailure::IdNotExist)
    ));
    assert!(matches!(
        s.handle_punch_hole_request(a, &"BBBBBB".to_string(), &"X".to_string(), NatType::Asymmetric, false, None, 1_001_000),
        PunchOutcome::Failure(PunchFailure::LicenseMismatch)
    ));
}

#[test]
fn stored_peer_counts_as_offline() {
    let mut s = server("", None);
    let row = StoredPeer { guid: vec![1u8], uuid: vec![1u8], pk: vec![2u8], ip: "5.6.7.8".to_string() };
    assert!(matches!(
        s.handle_punch_hole_request(v4(1, 2, 3, 4, 1), &"BBBBBB".to_string(), &String::new(), NatType::Asymmetric, false, Some(row), 10_000_000),
        PunchOutcome::Failure(PunchFailure::Offline)
    ));
    assert!(s.pm.is_in_memory(&"BBBBBB".to_string()));
}

#[test]
fn online_bitmap_msb_first() {
    let mut s = server("", None);
    register(&mut s, "P00000", v4(5, 6, 7, 8, 1), "5.6.7.8", 1, 1_000_000);
    register(&mut s, "P00008", v4(5, 6, 7, 9, 1), "5.6.7.9", 1, 1_000_000);
    register(&mut s, "OLDOLD", v4(5, 6, 7, 10, 1), "5.6.7.10", 1, 900_000);
    let ids: Vec<String> = ["P00000", "x", "OLDOLD", "x", "x", "x", "x", "x", "P00008"].iter().map(|x| x.to_string()).collect();
    let states = s.online_states(&ids, 1_010_000);
    assert_eq!(states, vec![0x80u8, 0x80u8]);
    assert_eq!(s.online_states(&vec![], 1_010_000), Vec::<u8>::new());
}

#[test]
fn relay_rotation_round_robin() {
    let mut s = RendezvousServer::new(0, String::new(), None, None, String::new(), String::new(), String::new(), vec![], vec!["r1".to_string(), "r2".to_string()], false);
    assert_eq!(s.get_relay_server(), "r1");
    assert_eq!(s.get_relay_server(), "r2");
    assert_eq!(s.get_relay_server(), "r1");
    s.parse_relay_servers("a,,b");
    assert_eq!(s.relay_servers0, vec!["a".to_string(), "b".to_string()]);
    assert_eq!(get_servers(""), Vec::<String>::new());
}

#[test]
fn configure_and_software_update() {
    let mut s = RendezvousServer::new(1, String::new(), None, None, String::new(), "1.2.0".to_string(), "http://x/1.2.0".to_string(), vec![], vec![], false);
    assert!(!s.configure_update(v4(1, 2, 3, 4, 1), 5, &vec!["a".to_string()]));
    assert!(!s.configure_update(v4(127, 0, 0, 1, 1), 1, &vec!["a".to_string()]));
    let mapped = SockAddr { ip: IpAddress::V6(0xffff_7f00_0001), port: 1 };
    assert!(s.configure_update(mapped, 5, &vec!["a".to_string(), String::new()]));
    assert_eq!(s.serial, 5);
    assert_eq!(s.rendezvous_servers, vec!["a".to_string()]);
    assert_eq!(s.software_update(&"1.1.0".to_string()), Some("http://x/1.2.0".to_string()));
    assert_eq!(s.software_update(&"1.2.0".to_string()), None);
    assert_eq!(s.test_nat(1234, 2), (1234, true));
}

#[test]
fn operator_always_use_relay_forces_relay() {
    let mut s = server("", None);
    register(&mut s, "BBBBBB", v4(5, 6, 7, 8, 40000), "5.6.7.8", 7, 1_000_000);
    match s.check_cmd("aur Y\n", 1_000_000) {
        RendezvousCmdReply::Text(t) => assert_eq!(t, ""),
        _ => panic!("expected text"),
    }
    assert!(s.always_use_relay);
    match s.check_cmd("aur", 1_000_000) {
        RendezvousCmdReply::Text(t) => assert_eq!(t, "ALWAYS_USE_RELAY: true\n"),
        _ => panic!("expected text"),
    }
    match s.handle_punch_hole_request(v4(1, 2, 3, 4, 1), &"BBBBBB".to_string(), &String::new(), NatType::Asymmetric, false, None, 1_001_000) {
        PunchOutcome::PunchHole { nat_type, .. } => assert_eq!(nat_type, NatType::Symmetric),
        _ => panic!("expected a punch hole"),
    }
}

#[test]
fn operator_ip_blocker_listing() {
    let mut s = server("", None);
    let id = "AAAAAA".to_string();
    assert!(s.ip_blocker.check_ip_blocker(&"1.2.3.4".to_string(), &id, 1_000_000));
    assert!(s.ip_blocker.check_ip_blocker(&"1.2.3.4".to_string(), &id, 1_000_000));
    match s.check_cmd("ib", 3_000_000) {
        RendezvousCmdReply::Text(t) => assert_eq!(t, "1\n1.2.3.4: 2/2000s 1/2000s\n"),
        _ => panic!("expected text"),
    }
    match s.check_cmd("ib 1.2.3.4 -", 3_000_000) {
        RendezvousCmdReply::Text(t) => assert_eq!(t, "1\n2/2000s 1/2000s\n"),
        _ => panic!("expected text"),
    }
    match s.check_cmd("ib", 3_000_000) {
        RendezvousCmdReply::Text(t) => assert_eq!(t, "0\n"),
        _ => panic!("expected text"),
    }
    match s.check_cmd("tg 1.1.1.1", 3_000_000) {
        RendezvousCmdReply::TestGeo { a, b } => {
            assert_eq!(a, "1.1.1.1");
            assert!(b.is_none());
        }
        _ => panic!("expected test-geo"),
    }
    match s.check_cmd("rs", 3_000_000) {
        RendezvousCmdReply::Text(t) => assert_eq!(t, "relay1\n"),
        _ => panic!("expected text"),
    }
}

#[test]
fn operator_ip_changes_listing() {
    let mut s = server("", None);
    s.ip_changes.record(&"AAAAAA".to_string(), &"1.1.1.1".to_string(), 1_000_000);
    s.ip_changes.record(&"AAAAAA".to_string(), &"2.2.2.2".to_string(), 1_001_000);
    s.ip_changes.record(&"AAAAAA".to_string(), &"2.2.2.2".to_string(), 1_002_000);
    s.ip_changes.record(&"BBBBBB".to_string(), &"3.3.3.3".to_string(), 1_002_000);
    match s.check_cmd("ic", 1_010_000) {
        RendezvousCmdReply::Text(t) => assert_eq!(t, "1\nAAAAAA: 10s {\"1.1.1.1\": 1, \"2.2.2.2\": 2}\n"),
        _ => panic!("expected text"),
    }
}

#[test]
fn register_peer_without_id_is_dropped() {
    let mut s = server("", None);
    assert!(s.update_addr(&String::new(), 0, v4(1, 2, 3, 4, 1), &"1.2.3.4".to_string(), 1_000_000).is_none());
}

#[test]
fn register_peer_refreshes_address_when_key_is_asked() {
    let mut s = server("", None);
    let id = "BBBBBB".to_string();
    register(&mut s, "BBBBBB", v4(5, 6, 7, 8, 40000), "5.6.7.8", 7, 1_000_000);
    let moved = v4(9, 9, 9, 9, 40001);
    let rp = s.update_addr(&id, 3, moved, &"9.9.9.9".to_string(), 1_005_000).unwrap();
    assert!(rp.request_pk);
    let p = s.pm.get_in_memory(&id).unwrap();
    assert_eq!(p.socket_addr, moved);
    assert_eq!(p.last_reg_time, Some(1_005_000));
}

#[test]
fn register_peer_from_loopback_history_keeps_key() {
    let mut s = server("", None);
    let id = "LLLLLL".to_string();
    register(&mut s, "LLLLLL", v4(127, 0, 0, 1, 40000), "127.0.0.1", 7, 1_000_000);
    let rp = s.update_addr(&id, 3, v4(9, 9, 9, 9, 1), &"9.9.9.9".to_string(), 1_001_000).unwrap();
    assert!(!rp.request_pk);
}
