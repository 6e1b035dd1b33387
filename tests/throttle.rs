use hbbs::throttle::{IpBlocker, IpChanges};

#[test]
fn ip_blocker_rate_window() {
    let mut b = IpBlocker::new();
    let ip = "1.2.3.4".to_string();
    let id = "AAAAAA".to_string();
    for _ in 0..31 {
        assert!(b.check_ip_blocker(&ip, &id, 1_000_000));
    }
    assert!(!b.check_ip_blocker(&ip, &id, 1_000_000));
    assert!(!b.check_ip_blocker(&ip, &id, 1_060_999));
    assert!(b.check_ip_blocker(&ip, &id, 1_061_000));
}

#[test]
fn ip_blocker_distinct_id_limit() {
    let mut b = IpBlocker::new();
    let ip = "1.2.3.4".to_string();
    let mut t = 1_000_000u64;
    assert!(b.check_ip_blocker(&ip, &"seed00".to_string(), t));
    for i in 0..300 {
        t += 61_000;
        assert!(b.check_ip_blocker(&ip, &format!("id{:04}", i), t));
    }
    t += 61_000;
    assert!(!b.check_ip_blocker(&ip, &"newone".to_string(), t));
    assert!(b.check_ip_blocker(&ip, &"id0007".to_string(), t));
    t += 86_401_000;
    assert!(b.check_ip_blocker(&ip, &"newone".to_string(), t));
}

#[test]
fn ip_changes_window_restarts() {
    let mut c = IpChanges::new();
    let id = "AAAAAA".to_string();
    c.record(&id, &"1.1.1.1".to_string(), 0);
    c.record(&id, &"1.1.1.1".to_string(), 1000);
    assert_eq!(c.entries[0].1.ips, vec![("1.1.1.1".to_string(), 2u32)]);
    c.record(&id, &"2.2.2.2".to_string(), 181_000);
    assert_eq!(c.entries[0].1.start, 181_000);
    assert_eq!(c.entries[0].1.ips, vec![("2.2.2.2".to_string(), 1u32)]);
}
