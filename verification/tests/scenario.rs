//! The end-to-end cycle scenario and the round trip through the persisted
//! event log.
use std::collections::HashMap;

use netlyser::addr::parse_ipv4;
use netlyser::config::{Config, ConnectType, General, HostInfo};
use netlyser::db::{notification_body, should_notify, to_log_row, LogRow};
use netlyser::net::{Address, Gateway, Host as ScanHost, Status};
use netlyser::run::cycle;

use rusqlite::Connection;

fn ip(text: &str) -> u32 {
    parse_ipv4(text).unwrap()
}

fn scan_host(addr: &str) -> ScanHost {
    ScanHost {
        status: Status {
            state: String::from("up"),
            reason: String::from("arp-response"),
            reason_ttl: String::from("0"),
        },
        address: vec![Address {
            addr: String::from(addr),
            addrtype: String::from("ipv4"),
            vendor: String::from("Unknown"),
        }],
    }
}

const CREATE_LOGS: &str = "CREATE TABLE IF NOT EXISTS logs (
               log_id           INTEGER PRIMARY KEY AUTOINCREMENT
              ,log_name         TEXT NOT NULL
              ,log_device       TEXT NOT NULL
              ,log_ip           TEXT NOT NULL
              ,log_mac          TEXT NOT NULL
              ,log_type         TEXT NOT NULL
              ,log_time         INTEGER NOT NULL
              )";

fn insert_row(conn: &Connection, row: &LogRow) {
    conn.execute(CREATE_LOGS, []).unwrap();
    conn.execute(
        "INSERT INTO logs (log_name, log_device, log_ip, log_mac, log_type, log_time) \
         VALUES (?1, ?2, ?3, ?4, ?5, ?6)",
        (
            &row.log_name,
            &row.log_device,
            &row.log_ip,
            &row.log_mac,
            &row.log_type,
            &row.log_time,
        ),
    )
    .unwrap();
}

#[test]
fn persisted_host_reads_back_identically() {
    let host = netlyser::db::Host {
        ip: ip("10.0.0.10"),
        mac: 0xaabbccddeeff,
        name: String::from("Alice"),
        device_name: String::from("Laptop"),
    };
    let row = to_log_row(&host, false, 1700000321);
    let conn = Connection::open_in_memory().unwrap();
    insert_row(&conn, &row);
    let read: (String, String, String, String, String, i64) = conn
        .query_row(
            "SELECT log_name, log_device, log_ip, log_mac, log_type, log_time FROM logs",
            [],
            |r| {
                Ok((
                    r.get(0)?,
                    r.get(1)?,
                    r.get(2)?,
                    r.get(3)?,
                    r.get(4)?,
                    r.get(5)?,
                ))
            },
        )
        .unwrap();
    assert_eq!(read.0, "Alice");
    assert_eq!(read.1, "Laptop");
    assert_eq!(read.2, "10.0.0.10");
    assert_eq!(read.3, "aa:bb:cc:dd:ee:ff");
    assert_eq!(read.4, "disconnect");
    assert_eq!(read.5, 1700000321);
}

#[test]
fn two_cycle_scenario_dispatches_one_departure() {
    let gw = Gateway { ip: ip("10.0.0.1"), mac: 0x010101010101 };
    let own = ip("10.0.0.5");
    let alice_mac = 0xaaaaaaaaaaaa_u64;
    let mut macmap: HashMap<u64, HostInfo> = HashMap::new();
    macmap.insert(
        alice_mac,
        HostInfo { name: String::from("Alice"), device_name: String::from("Laptop") },
    );
    let mut arps: HashMap<u32, u64> = HashMap::new();
    arps.insert(ip("10.0.0.10"), alice_mac);

    let rounds1 = vec![vec![
        scan_host("10.0.0.1"),
        scan_host("10.0.0.5"),
        scan_host("10.0.0.10"),
    ]];
    let (first, batch1) = cycle(None, rounds1, &macmap, &gw, arps.clone(), own);
    assert_eq!(first.len(), 2);
    assert_eq!(first[0].name, "GATEWAY");
    assert_eq!(first[1].name, "Alice");
    assert!(batch1.is_empty());

    let rounds2 = vec![vec![scan_host("10.0.0.1"), scan_host("10.0.0.5")]];
    let (second, batch2) = cycle(Some(&first), rounds2, &macmap, &gw, arps, own);
    assert_eq!(second.len(), 1);
    assert_eq!(second[0].name, "GATEWAY");
    assert_eq!(batch2.len(), 1);
    assert_eq!(batch2[0].kind, ConnectType::Disconnected);
    assert_eq!(batch2[0].host.ip, ip("10.0.0.10"));
    assert_eq!(batch2[0].host.name, "Alice");

    let conf = Config {
        general: General {
            interval: 1000,
            round: 5,
            notify_on_connect: false,
            notify_on_disconnect: true,
        },
        hosts: vec![],
        is_root: false,
    };
    assert!(should_notify(&conf, batch2[0].kind));
    assert_eq!(notification_body(&batch2[0].host), "Name: Alice\nDevice: Laptop");

    let row = to_log_row(&batch2[0].host, false, 1700000500);
    let conn = Connection::open_in_memory().unwrap();
    insert_row(&conn, &row);
    let (logged_type, logged_name): (String, String) = conn
        .query_row("SELECT log_type, log_name FROM logs", [], |r| {
            Ok((r.get(0)?, r.get(1)?))
        })
        .unwrap();
    assert_eq!(logged_type, "disconnect");
    assert_eq!(logged_name, "Alice");
}

#[test]
fn gateway_and_self_are_never_transition_subjects() {
    let gw = Gateway { ip: ip("10.0.0.1"), mac: 0x010101010101 };
    let own = ip("10.0.0.5");
    let macmap: HashMap<u64, HostInfo> = HashMap::new();
    let arps: HashMap<u32, u64> = HashMap::new();

    let mut prev: Option<Vec<netlyser::db::Host>> = None;
    let cycles = [
        vec!["10.0.0.1", "10.0.0.5", "10.0.0.10"],
        vec!["10.0.0.1", "10.0.0.5"],
        vec!["10.0.0.1", "10.0.0.5", "10.0.0.11", "10.0.0.12"],
        vec!["10.0.0.1", "10.0.0.5", "10.0.0.12"],
    ];
    for addrs in cycles {
        let round: Vec<ScanHost> = addrs.iter().map(|a| scan_host(a)).collect();
        let (snapshot, batch) = cycle(
            prev.as_ref(),
            vec![round],
            &macmap,
            &gw,
            arps.clone(),
            own,
        );
        for t in &batch {
            assert_ne!(t.host.ip, own);
            assert_ne!(t.host.ip, gw.ip);
        }
        prev = Some(snapshot);
    }
}
