//! The presence pipeline piece by piece: round aggregation, identity
//! resolution, snapshot building, differencing and the dispatch gate.
use std::collections::HashMap;

use netlyser::addr::parse_ipv4;
use netlyser::config::{Config, ConnectType, General, Host as ConfigHost, HostInfo};
use netlyser::config::{get_mac_info_map, ErrorType, NotifyType, AwarnessType};
use netlyser::db::{get_notifies, migrate_to_host_list, Host, NotifyInfo};
use netlyser::db::{notification_body, notification_summary, should_notify, to_log_row};
use netlyser::net::{aggregate_rounds, build_neighbor_table, get_unknown};
use netlyser::net::{Address, Gateway, Host as ScanHost, ScanInfo, Status, Times};
use netlyser::run::{verbosity_level, ExitCodes, LogLevel};

fn ip(text: &str) -> u32 {
    parse_ipv4(text).unwrap()
}

fn snapshot_host(addr: &str) -> Host {
    Host {
        ip: ip(addr),
        mac: 0,
        name: String::from("x"),
        device_name: String::from("y"),
    }
}

fn scan_host(addr: &str) -> ScanHost {
    scan_host_with_vendor(addr, "Unknown")
}

fn scan_host_with_vendor(addr: &str, vendor: &str) -> ScanHost {
    ScanHost {
        status: Status {
            state: String::from("up"),
            reason: String::from("arp-response"),
            reason_ttl: String::from("0"),
        },
        address: vec![Address {
            addr: String::from(addr),
            addrtype: String::from("ipv4"),
            vendor: String::from(vendor),
        }],
    }
}

fn general(on_connect: bool, on_disconnect: bool) -> General {
    General {
        interval: 1000,
        round: 5,
        notify_on_connect: on_connect,
        notify_on_disconnect: on_disconnect,
    }
}

#[test]
fn same_size_membership_swap_dispatches_nothing() {
    let olds = vec![snapshot_host("10.0.0.2"), snapshot_host("10.0.0.3")];
    let news = vec![snapshot_host("10.0.0.2"), snapshot_host("10.0.0.4")];
    let batch = get_notifies(&olds, &news);
    assert!(batch.is_empty());
}

#[test]
fn unchanged_snapshot_dispatches_nothing() {
    let olds = vec![snapshot_host("10.0.0.2"), snapshot_host("10.0.0.3")];
    let news = vec![snapshot_host("10.0.0.3"), snapshot_host("10.0.0.2")];
    let batch = get_notifies(&olds, &news);
    assert!(batch.is_empty());
}

#[test]
fn disconnects_come_before_connects() {
    let olds = vec![snapshot_host("10.0.0.2"), snapshot_host("10.0.0.3")];
    let news = vec![
        snapshot_host("10.0.0.3"),
        snapshot_host("10.0.0.5"),
        snapshot_host("10.0.0.6"),
    ];
    let batch = get_notifies(&olds, &news);
    assert_eq!(batch.len(), 3);
    assert_eq!(batch[0].host.ip, ip("10.0.0.2"));
    assert_eq!(batch[0].kind, ConnectType::Disconnected);
    assert_eq!(batch[1].host.ip, ip("10.0.0.5"));
    assert_eq!(batch[1].kind, ConnectType::Connected);
    assert_eq!(batch[2].host.ip, ip("10.0.0.6"));
    assert_eq!(batch[2].kind, ConnectType::Connected);
}

#[test]
fn departures_keep_previous_snapshot_order() {
    let olds = vec![
        snapshot_host("10.0.0.7"),
        snapshot_host("10.0.0.8"),
        snapshot_host("10.0.0.9"),
    ];
    let news = vec![snapshot_host("10.0.0.8")];
    let batch = get_notifies(&olds, &news);
    assert_eq!(batch.len(), 2);
    assert_eq!(batch[0].host.ip, ip("10.0.0.7"));
    assert_eq!(batch[1].host.ip, ip("10.0.0.9"));
    assert!(batch.iter().all(|t| t.kind == ConnectType::Disconnected));
}

#[test]
fn aggregate_unions_rounds_first_occurrence_wins() {
    let rounds = vec![
        vec![scan_host_with_vendor("10.0.0.2", "FirstSeen")],
        vec![
            scan_host_with_vendor("10.0.0.2", "SecondSeen"),
            scan_host("10.0.0.3"),
        ],
        vec![scan_host("10.0.0.3")],
    ];
    let merged = aggregate_rounds(rounds);
    assert_eq!(merged.len(), 2);
    assert_eq!(merged[0].address[0].addr, "10.0.0.2");
    assert_eq!(merged[0].address[0].vendor, "FirstSeen");
    assert_eq!(merged[1].address[0].addr, "10.0.0.3");
}

#[test]
fn aggregate_is_order_independent_as_a_set() {
    let forward = aggregate_rounds(vec![
        vec![scan_host("10.0.0.2"), scan_host("10.0.0.3")],
        vec![scan_host("10.0.0.4")],
    ]);
    let backward = aggregate_rounds(vec![
        vec![scan_host("10.0.0.4")],
        vec![scan_host("10.0.0.2"), scan_host("10.0.0.3")],
    ]);
    let mut a: Vec<String> = forward.iter().map(|h| h.address[0].addr.clone()).collect();
    let mut b: Vec<String> = backward.iter().map(|h| h.address[0].addr.clone()).collect();
    a.sort();
    b.sort();
    assert_eq!(a, b);
}

#[test]
fn aggregate_of_repeated_round_adds_nothing() {
    let round = || vec![scan_host("10.0.0.2"), scan_host("10.0.0.3")];
    let once = aggregate_rounds(vec![round()]);
    let twice = aggregate_rounds(vec![round(), round()]);
    assert_eq!(once.len(), twice.len());
    for (x, y) in once.iter().zip(twice.iter()) {
        assert_eq!(x.address[0].addr, y.address[0].addr);
    }
}

#[test]
fn blank_fields_default_to_unknown_independently() {
    let mut h = Host::new();
    h.set_info(&HostInfo {
        name: String::from("   "),
        device_name: String::from("Laptop"),
    });
    assert_eq!(h.name, "Unknown");
    assert_eq!(h.device_name, "Laptop");

    let mut h = Host::new();
    h.set_info(&HostInfo {
        name: String::from("Alice"),
        device_name: String::from("\t"),
    });
    assert_eq!(h.name, "Alice");
    assert_eq!(h.device_name, "Unknown");

    let mut h = Host::new();
    h.set_info(&HostInfo {
        name: String::from(""),
        device_name: String::from(""),
    });
    assert_eq!(h.name, "Unknown");
    assert_eq!(h.device_name, "Unknown");
}

#[test]
fn unknown_label_helper_matches_fallback() {
    assert_eq!(get_unknown(), "Unknown");
}

#[test]
fn snapshot_excludes_self_and_labels_gateway() {
    let gw = Gateway { ip: ip("10.0.0.1"), mac: 0x111111111111 };
    let own = ip("10.0.0.5");
    let alice_mac = 0xaaaaaaaaaaaa_u64;
    let mut macmap: HashMap<u64, HostInfo> = HashMap::new();
    macmap.insert(
        alice_mac,
        HostInfo { name: String::from("Alice"), device_name: String::from("Laptop") },
    );
    let mut arps: HashMap<u32, u64> = HashMap::new();
    arps.insert(ip("10.0.0.10"), alice_mac);
    arps.insert(ip("10.0.0.11"), 0xbbbbbbbbbbbb);

    let scanned = vec![
        scan_host("10.0.0.1"),
        scan_host("10.0.0.5"),
        scan_host("10.0.0.10"),
        scan_host("10.0.0.11"),
        scan_host("10.0.0.12"),
    ];
    let snapshot = migrate_to_host_list(&macmap, &gw, scanned, arps, own);

    assert_eq!(snapshot.len(), 4);
    assert_eq!(snapshot[0].ip, ip("10.0.0.1"));
    assert_eq!(snapshot[0].name, "GATEWAY");
    assert_eq!(snapshot[0].device_name, "GATEWAY");
    assert_eq!(snapshot[0].mac, 0);

    assert_eq!(snapshot[1].ip, ip("10.0.0.10"));
    assert_eq!(snapshot[1].mac, alice_mac);
    assert_eq!(snapshot[1].name, "Alice");
    assert_eq!(snapshot[1].device_name, "Laptop");

    assert_eq!(snapshot[2].ip, ip("10.0.0.11"));
    assert_eq!(snapshot[2].mac, 0xbbbbbbbbbbbb);
    assert_eq!(snapshot[2].name, "Unknown");
    assert_eq!(snapshot[2].device_name, "Unknown");

    assert_eq!(snapshot[3].ip, ip("10.0.0.12"));
    assert_eq!(snapshot[3].mac, 0);
    assert_eq!(snapshot[3].name, "");
    assert_eq!(snapshot[3].device_name, "");

    assert!(snapshot.iter().all(|h| h.ip != own));
}

#[test]
fn neighbor_table_discards_zero_hardware_addresses() {
    let entries = vec![
        (String::from("10.0.0.2"), String::from("aa:bb:cc:dd:ee:ff")),
        (String::from("10.0.0.3"), String::from("00:00:00:00:00:00")),
        (String::from("10.0.0.4"), String::from("11:22:33:44:55:66")),
    ];
    let table = build_neighbor_table(&entries);
    assert_eq!(table.len(), 2);
    assert_eq!(table.get(&ip("10.0.0.2")), Some(&0xaabbccddeeff));
    assert_eq!(table.get(&ip("10.0.0.3")), None);
    assert_eq!(table.get(&ip("10.0.0.4")), Some(&0x112233445566));
}

#[test]
fn config_validation_demands_parsable_hardware_addresses() {
    let good = Config {
        general: general(true, true),
        hosts: vec![ConfigHost {
            mac: String::from("aa:bb:cc:dd:ee:ff"),
            name: String::from("Alice"),
            device: String::from("Laptop"),
        }],
        is_root: false,
    };
    assert!(good.is_valid());

    let bad = Config {
        general: general(true, true),
        hosts: vec![ConfigHost {
            mac: String::from("not-a-mac"),
            name: String::from("Bob"),
            device: String::from("Phone"),
        }],
        is_root: false,
    };
    assert!(!bad.is_valid());
}

#[test]
fn directory_maps_hardware_address_to_identity() {
    let config = Config {
        general: general(false, false),
        hosts: vec![
            ConfigHost {
                mac: String::from("aa:bb:cc:dd:ee:ff"),
                name: String::from("Alice"),
                device: String::from("Laptop"),
            },
            ConfigHost {
                mac: String::from("11:22:33:44:55:66"),
                name: String::from("Bob"),
                device: String::from("Phone"),
            },
        ],
        is_root: false,
    };
    assert!(config.is_valid());
    let map = get_mac_info_map(config);
    assert_eq!(map.len(), 2);
    let alice = map.get(&0xaabbccddeeff).unwrap();
    assert_eq!(alice.name, "Alice");
    assert_eq!(alice.device_name, "Laptop");
    let bob = map.get(&0x112233445566).unwrap();
    assert_eq!(bob.name, "Bob");
    assert_eq!(bob.device_name, "Phone");
}

#[test]
fn notification_policy_follows_privilege_and_flags() {
    let mut conf = Config { general: general(true, false), hosts: vec![], is_root: false };
    assert!(should_notify(&conf, ConnectType::Connected));
    assert!(!should_notify(&conf, ConnectType::Disconnected));
    conf.is_root = true;
    assert!(!should_notify(&conf, ConnectType::Connected));
    conf.is_root = false;
    conf.general.notify_on_connect = false;
    conf.general.notify_on_disconnect = true;
    assert!(!should_notify(&conf, ConnectType::Connected));
    assert!(should_notify(&conf, ConnectType::Disconnected));
}

#[test]
fn notification_texts_are_exact() {
    assert_eq!(notification_summary(ConnectType::Connected), "CONNECT!");
    assert_eq!(notification_summary(ConnectType::Disconnected), "DISCONNECT!");
    let host = Host {
        ip: ip("10.0.0.10"),
        mac: 0xaabbccddeeff,
        name: String::from("Alice"),
        device_name: String::from("Laptop"),
    };
    assert_eq!(notification_body(&host), "Name: Alice\nDevice: Laptop");
}

#[test]
fn log_rows_carry_text_forms_and_type_literal() {
    let host = Host {
        ip: ip("10.0.0.10"),
        mac: 0xaabbccddeeff,
        name: String::from("Alice"),
        device_name: String::from("Laptop"),
    };
    let row = to_log_row(&host, true, 1700000000);
    assert_eq!(row.log_name, "Alice");
    assert_eq!(row.log_device, "Laptop");
    assert_eq!(row.log_ip, "10.0.0.10");
    assert_eq!(row.log_mac, "aa:bb:cc:dd:ee:ff");
    assert_eq!(row.log_type, "connect");
    assert_eq!(row.log_time, 1700000000);
    let row = to_log_row(&host, false, 42);
    assert_eq!(row.log_type, "disconnect");
    assert_eq!(row.log_time, 42);
}

#[test]
fn verbosity_maps_to_five_levels_and_clamps() {
    assert_eq!(verbosity_level(0, false), LogLevel::Error);
    assert_eq!(verbosity_level(1, false), LogLevel::Warn);
    assert_eq!(verbosity_level(2, false), LogLevel::Info);
    assert_eq!(verbosity_level(3, false), LogLevel::Debug);
    assert_eq!(verbosity_level(4, false), LogLevel::Trace);
    assert_eq!(verbosity_level(9, false), LogLevel::Trace);
    assert_eq!(verbosity_level(3, true), LogLevel::Off);
}

#[test]
fn exit_codes_are_distinct_and_stable() {
    assert_eq!(ExitCodes::RootRequired.code(), 1);
    assert_eq!(ExitCodes::ConfigFileDoesNotExist.code(), 2);
    assert_eq!(ExitCodes::ConfigInvalid.code(), 3);
    assert_eq!(ExitCodes::NmapNotInstalled.code(), 4);
    assert_eq!(ExitCodes::NmapRunError.code(), 5);
    assert_eq!(ExitCodes::ResultWriteError.code(), 6);
    assert_eq!(ExitCodes::RootCheckError.code(), 7);
    assert_eq!(ExitCodes::RootCommandError.code(), 8);
    assert_eq!(ExitCodes::HostnameNotFound.code(), 9);
    assert_eq!(ExitCodes::HostnameRunError.code(), 10);
    assert_eq!(ExitCodes::HostnameParseError.code(), 11);
    assert_eq!(ExitCodes::DBCreateError.code(), 12);
}

#[test]
fn auxiliary_records_hold_their_fields() {
    let info = NotifyInfo { host: snapshot_host("10.0.0.2"), connected: true, disconnected: false };
    assert!(info.connected && !info.disconnected);
    let range = ScanInfo { addr: ip("192.168.1.0"), mask: 24 };
    assert_eq!(range.mask, 24);
    let times = Times {
        srtt: String::from("1"),
        rttvar: String::from("2"),
        to: String::from("3"),
    };
    assert_eq!(times.srtt, "1");
    let kind = NotifyType::All;
    assert!(matches!(kind, NotifyType::All));
    let seen = AwarnessType::Unknown;
    assert!(matches!(seen, AwarnessType::Unknown));
    let err = ErrorType::ParseError;
    assert_eq!(err, ErrorType::ParseError);
}
