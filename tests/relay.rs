use hbbs::addr::{IpAddress, SockAddr};
use hbbs::relay::{
    both_raw, usage_rows, Admission, PendingHalves, RelayCmdReply, RelayControl, RelayDecision,
    RelaySession, SessionStep, Tunable,
};

#[test]
fn relay_pairing() {
    let mut p = PendingHalves::new();
    let k = "K".to_string();
    let tok = "tok-1".to_string();
    assert_eq!(p.request(&k, &k, &tok, 1, 1_000_000), RelayDecision::Wait);
    assert_eq!(p.request(&k, &k, &tok, 2, 1_020_000), RelayDecision::Pair(1));
    assert!(!p.expire(&tok, 1));
    assert_eq!(p.request(&k, &k, &tok, 3, 1_021_000), RelayDecision::Wait);
}

#[test]
fn relay_half_expires_once() {
    let mut p = PendingHalves::new();
    let tok = "tok-2".to_string();
    assert_eq!(p.request(&String::new(), &String::new(), &tok, 1, 0), RelayDecision::Wait);
    assert!(p.expire(&tok, 1));
    assert!(!p.expire(&tok, 1));
    assert_eq!(p.request(&String::new(), &String::new(), &tok, 2, 10_000), RelayDecision::Wait);
    assert_eq!(p.request(&String::new(), &String::new(), &tok, 3, 45_000), RelayDecision::Wait);
}

#[test]
fn relay_rejects_wrong_key_and_empty_token() {
    let mut p = PendingHalves::new();
    assert_eq!(p.request(&"K".to_string(), &"X".to_string(), &"t".to_string(), 1, 0), RelayDecision::Reject);
    assert_eq!(p.request(&String::new(), &String::new(), &String::new(), 1, 0), RelayDecision::Reject);
}

#[test]
fn session_usage_after_sixty_seconds() {
    let c = RelayControl::new();
    let mut s = RelaySession::new(&c, 0);
    let ip = "1.2.3.4".to_string();
    let mut last = None;
    for sec in 1..=60u64 {
        let (strict, bits) = s.on_bytes(1000, sec * 1000 - 500);
        assert!(!strict);
        assert_eq!(bits, 8000);
        last = Some(s.evaluate(&c, &ip, sec * 1000));
    }
    match last.unwrap() {
        SessionStep::Report((elapsed, total, highest, speed)) => {
            assert_eq!(elapsed, 60_000);
            assert_eq!(total, 480_000);
            assert_eq!(highest, 8);
            assert_eq!(speed, 8);
        }
        _ => panic!("expected a report"),
    }
    assert!(matches!(s.evaluate(&c, &ip, 60_500), SessionStep::Continue));
    assert!(!s.idle(90_000));
    assert!(s.idle(91_000));
}

#[test]
fn session_downgrade_and_block() {
    let mut c = RelayControl::new();
    assert!(matches!(c.check_cmd("t 1"), RelayCmdReply::Text(_)));
    assert_eq!(c.downgrade_start_check, 1000);
    let mut s = RelaySession::new(&c, 0);
    assert_eq!(s.downgrade_threshold, 11072);
    let ip = "1.2.3.4".to_string();
    s.on_bytes(10_000_000, 900);
    s.evaluate(&c, &ip, 1000);
    assert!(!s.downgrade);
    s.on_bytes(10_000_000, 1900);
    s.evaluate(&c, &ip, 2000);
    assert!(s.downgrade);
    assert!(s.on_bytes(1, 2100).0);
    c.check_cmd("Ba 1.2.3.4");
    assert!(matches!(s.evaluate(&c, &ip, 3000), SessionStep::Blocked));
}

#[test]
fn usage_rows_sorted_by_total() {
    let rows = vec![
        ("a:1".to_string(), (1000u64, 10u64, 1u64, 1u64)),
        ("b:2".to_string(), (0, 99, 0, 0)),
        ("c:3".to_string(), (2000, 30, 2, 2)),
        ("d:4".to_string(), (3000, 20, 3, 3)),
    ];
    let r = usage_rows(&rows);
    let names: Vec<&str> = r.iter().map(|x| x.0.as_str()).collect();
    assert_eq!(names, vec!["c:3", "d:4", "a:1"]);
}

#[test]
fn relay_operator_lists() {
    let mut c = RelayControl::new();
    c.check_cmd("ba 1.1.1.1|2.2.2.2");
    match c.check_cmd("b 1.1.1.1") {
        RelayCmdReply::Text(t) => assert_eq!(t, "true\n"),
        _ => panic!(),
    }
    match c.check_cmd("b") {
        RelayCmdReply::Text(t) => assert_eq!(t, "1.1.1.1\n2.2.2.2\n"),
        _ => panic!(),
    }
    c.check_cmd("br 1.1.1.1");
    match c.check_cmd("b 1.1.1.1") {
        RelayCmdReply::Text(t) => assert_eq!(t, "false\n"),
        _ => panic!(),
    }
    c.check_cmd("br all");
    assert!(c.blacklist.is_empty());
    match c.check_cmd("t") {
        RelayCmdReply::Text(t) => assert_eq!(t, "1800s\n"),
        _ => panic!(),
    }
    match c.check_cmd("dt 0.5") {
        RelayCmdReply::Tunable { which, arg } => {
            assert_eq!(which, Tunable::DowngradeThreshold);
            assert_eq!(arg, Some("0.5".to_string()));
        }
        _ => panic!(),
    }
    assert!(matches!(c.check_cmd("u\n"), RelayCmdReply::Usage));
    match c.check_cmd("h") {
        RelayCmdReply::Text(t) => assert!(t.starts_with("blacklist-add(ba) <ip>\n") && t.ends_with("usage(u)\n")),
        _ => panic!(),
    }
    match c.check_cmd("nonsense") {
        RelayCmdReply::Text(t) => assert_eq!(t, ""),
        _ => panic!(),
    }
}

#[test]
fn relay_connection_kinds() {
    let mut c = RelayControl::new();
    let lo = SockAddr { ip: IpAddress::V4(0x7f00_0001), port: 5 };
    let far = SockAddr { ip: IpAddress::V4(0x0102_0304), port: 5 };
    assert_eq!(c.accept_kind(lo, &"127.0.0.1".to_string(), false), Admission::Control);
    assert_eq!(c.accept_kind(lo, &"127.0.0.1".to_string(), true), Admission::Pair);
    assert_eq!(c.accept_kind(far, &"1.2.3.4".to_string(), false), Admission::Pair);
    c.check_cmd("Ba 1.2.3.4");
    assert_eq!(c.accept_kind(far, &"1.2.3.4".to_string(), false), Admission::Drop);
    assert!(both_raw(false, false));
    assert!(!both_raw(true, false));
}

#[test]
fn list_file_loading() {
    let mut c = RelayControl::new();
    c.load_list("1.1.1.1 spammer\n  2.2.2.2\n", false);
    match c.check_cmd("B 2.2.2.2") {
        RelayCmdReply::Text(t) => assert_eq!(t, "true\n"),
        _ => panic!(),
    }
    match c.check_cmd("B spammer") {
        RelayCmdReply::Text(t) => assert_eq!(t, "false\n"),
        _ => panic!(),
    }
    assert!(c.blacklist.is_empty());
    assert_eq!(c.blocklist.len(), 3);
}
