use sysmon::network::{Error, Info, Interface, InterfaceScan, Network, OperState, Stats};
use sysmon::scan::ScanFile;

fn stat_file(name: &str, content: &str) -> ScanFile {
    ScanFile {
        name: name.to_string(),
        path: format!("/tmp/net/testing/statistics/{}", name),
        content: Ok(content.to_string()),
    }
}

fn info_file(name: &str, content: &str) -> ScanFile {
    ScanFile {
        name: name.to_string(),
        path: format!("/tmp/net/testing/{}", name),
        content: Ok(content.to_string()),
    }
}

fn setup(
    operstate: OperState,
    stat: &str,
    miss_stat: bool,
    miss_info: bool,
    null_speed: bool,
) -> Vec<InterfaceScan> {
    let mut stats = vec![stat_file("rx_packets", stat)];
    if !miss_stat {
        stats.push(stat_file("tx_packets", "2"));
    }
    stats.push(stat_file("rx_bytes", "3"));
    stats.push(stat_file("tx_bytes", "4"));

    let mut info = Vec::new();
    if !miss_info {
        info.push(info_file("address", "testaddr"));
    }
    info.push(info_file("operstate", operstate.as_str()));
    let speed = if null_speed { "" } else { "1000" };
    info.push(info_file("speed", speed));

    vec![InterfaceScan {
        name: "testing".to_string(),
        path: "/tmp/net/testing".to_string(),
        stats_dir: Ok(stats),
        info_dir: Ok(info),
    }]
}

fn network() -> Network {
    let interfaces = vec![Interface {
        path: "/tmp/net/testing".into(),
        name: "testing".to_string(),
        stats: Stats {
            rx_packets: 1,
            tx_packets: 2,
            rx_bytes: 3,
            tx_bytes: 4,
        },
        info: Info {
            address: "testaddr".to_string(),
            operstate: OperState::Up,
            speed: 1000,
        },
    }];

    Network { interfaces }
}

#[test]
fn test_probe_network_null_speed_link_down() {
    let scans = setup(OperState::Down, "1", false, false, true);

    let nw = Network::from_scan(&scans).unwrap();

    let testing = nw
        .interfaces
        .get(0)
        .expect("testing interface doesn't exist");

    assert_eq!(testing.info.speed, 0);
}

#[test]
fn test_probe_network_null_speed_link_up() {
    let scans = setup(OperState::Up, "1", false, false, true);

    let err = Network::from_scan(&scans).unwrap_err();

    assert!(matches!(err, Error::InvalidLinkState { .. }));
}

#[test]
fn test_probe_network_missing_stat() {
    let scans = setup(OperState::Up, "1", true, false, false);

    let err = Network::from_scan(&scans).unwrap_err();

    assert!(matches!(err, Error::MissingStat { .. }));
}

#[test]
fn test_probe_network_missing_info() {
    let scans = setup(OperState::Up, "1", false, true, false);

    let err = Network::from_scan(&scans).unwrap_err();

    assert!(matches!(err, Error::MissingInfo { .. }));
}

#[test]
fn test_probe_network_success() {
    let scans = setup(OperState::Up, "1", false, false, false);

    let nw = Network::from_scan(&scans).unwrap();

    assert_eq!(nw, network());
}

#[test]
fn test_probe_network_parse() {
    let scans = setup(OperState::Up, "abc", false, false, false);

    let err = Network::from_scan(&scans).unwrap_err();

    assert!(matches!(err, Error::ParseError { .. }));
}

#[test]
fn network_unreadable_statistics_dir_is_io() {
    let mut scans = setup(OperState::Up, "1", false, false, false);
    scans[0].stats_dir = Err("permission denied".to_string());

    let err = Network::from_scan(&scans).unwrap_err();

    assert!(matches!(err, Error::Io(_)));
}

#[test]
fn network_null_speed_link_unknown_is_zero() {
    let scans = setup(OperState::Unknown, "1", false, false, true);

    let nw = Network::from_scan(&scans).unwrap();

    assert_eq!(nw.interfaces[0].info.speed, 0);
}

#[test]
fn network_readable_speed_wins_when_down() {
    let scans = setup(OperState::Down, "1", false, false, false);

    let nw = Network::from_scan(&scans).unwrap();

    assert_eq!(nw.interfaces[0].info.speed, 1000);
}

#[test]
fn network_bad_operstate_is_parse_error() {
    let mut scans = setup(OperState::Up, "1", false, false, false);
    let fs = scans[0].info_dir.as_mut().unwrap();
    for f in fs.iter_mut() {
        if f.name == "operstate" {
            f.content = Ok("sideways".to_string());
        }
    }

    let err = Network::from_scan(&scans).unwrap_err();

    assert!(matches!(err, Error::ParseError { .. }));
}

#[test]
fn network_empty_scan_is_empty_snapshot() {
    let scans: Vec<InterfaceScan> = Vec::new();

    let nw = Network::from_scan(&scans).unwrap();

    assert_eq!(nw.interfaces.len(), 0);
}

#[test]
fn network_keeps_discovery_order() {
    let mut scans = setup(OperState::Up, "1", false, false, false);
    let mut second = setup(OperState::Down, "7", false, false, false);
    second[0].name = "second".to_string();
    scans.append(&mut second);

    let nw = Network::from_scan(&scans).unwrap();

    assert_eq!(nw.interfaces[0].name, "testing");
    assert_eq!(nw.interfaces[1].name, "second");
    assert_eq!(nw.interfaces[1].stats.rx_packets, 7);
}

#[test]
fn network_probe_is_idempotent() {
    let scans = setup(OperState::Up, "1", false, false, false);

    let a = Network::from_scan(&scans).unwrap();
    let b = Network::from_scan(&scans).unwrap();

    assert_eq!(a, b);
}

#[test]
fn operstate_round_trips_through_text() {
    assert_eq!(OperState::from_str("up"), Some(OperState::Up));
    assert_eq!(OperState::from_str("down"), Some(OperState::Down));
    assert_eq!(OperState::from_str("unknown"), Some(OperState::Unknown));
    assert_eq!(OperState::from_str("sideways"), None);
    assert_eq!(OperState::from_str(OperState::Up.as_str()), Some(OperState::Up));
}

#[test]
fn test_probe_network_io() {
    let err = Network::probe_scan(Err("No such file or directory".to_string())).unwrap_err();

    assert!(matches!(err, Error::Io(_)));
}
