use hbbs::common::{arg_name, get_arg, get_arg_or, start, stop};
use hbbs::database::{max_connections, DbPool};
use hbbs::peer::get_expired_time;
use hbbs::service::{DesktopServiceState, WindowsDesktopService};

#[test]
fn setting_names() {
    assert_eq!(arg_name("relay_servers"), "RELAY-SERVERS");
    assert_eq!(arg_name("key"), "KEY");
    assert_eq!(get_arg(None), "");
    assert_eq!(get_arg(Some("x".to_string())), "x");
    assert_eq!(get_arg_or(None, "d".to_string()), "d");
}

#[test]
fn run_switch() {
    let mut f = false;
    stop(&mut f);
    assert!(f);
    start(&mut f);
    assert!(!f);
}

#[test]
fn clock_and_expiry() {
    assert!(hbbs::common::now() > 1_600_000_000);
    assert_eq!(get_expired_time(5_000_000), 1_400_000);
    assert_eq!(get_expired_time(5_000), 5_000);
}

#[test]
fn pool_settings() {
    assert_eq!(max_connections(Some("4".to_string())), 4);
    assert_eq!(max_connections(Some("x".to_string())), 1);
    assert_eq!(max_connections(None), 1);
    assert_eq!(DbPool::new("db_v2.sqlite3".to_string()).url, "db_v2.sqlite3");
}

#[test]
fn service_status() {
    let mut w = WindowsDesktopService::new();
    assert_eq!(w.state, DesktopServiceState::Stopped);
    assert_eq!(w.check_status("Running"), DesktopServiceState::Started);
    assert_eq!(w.check_status("StopPending"), DesktopServiceState::Stopped);
}
