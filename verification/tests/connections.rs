use proxier::connections::{
    connection_candidates, discovered_processes, get_active_system_connections, Tables,
};
use proxier::engine::EngineState;

fn tcp4(local: [u8; 4], lport: u16, remote: [u8; 4], rport: u16, pid: u32) -> Vec<u8> {
    let mut r = vec![0u8; 24];
    r[4..8].copy_from_slice(&local);
    r[8..10].copy_from_slice(&lport.to_be_bytes());
    r[12..16].copy_from_slice(&remote);
    r[16..18].copy_from_slice(&rport.to_be_bytes());
    r[20..24].copy_from_slice(&pid.to_le_bytes());
    r
}

fn tcp6(local: [u8; 16], lport: u16, remote: [u8; 16], rport: u16, pid: u32) -> Vec<u8> {
    let mut r = vec![0u8; 56];
    r[0..16].copy_from_slice(&local);
    r[20..22].copy_from_slice(&lport.to_be_bytes());
    r[24..40].copy_from_slice(&remote);
    r[44..46].copy_from_slice(&rport.to_be_bytes());
    r[52..56].copy_from_slice(&pid.to_le_bytes());
    r
}

fn udp4(local: [u8; 4], port: u16, pid: u32) -> Vec<u8> {
    let mut r = vec![0u8; 12];
    r[0..4].copy_from_slice(&local);
    r[4..6].copy_from_slice(&port.to_be_bytes());
    r[8..12].copy_from_slice(&pid.to_le_bytes());
    r
}

fn udp6(local: [u8; 16], port: u16, pid: u32) -> Vec<u8> {
    let mut r = vec![0u8; 28];
    r[0..16].copy_from_slice(&local);
    r[20..22].copy_from_slice(&port.to_be_bytes());
    r[24..28].copy_from_slice(&pid.to_le_bytes());
    r
}

fn table(rows: &[Vec<u8>]) -> Option<Vec<u8>> {
    let mut b = (rows.len() as u32).to_le_bytes().to_vec();
    for r in rows {
        b.extend_from_slice(r);
    }
    Some(b)
}

fn utf16(s: &str) -> Option<Vec<u16>> {
    Some(s.encode_utf16().collect())
}

fn six(last: u8) -> [u8; 16] {
    let mut o = [0u8; 16];
    o[0] = 0x20;
    o[15] = last;
    o
}

#[test]
fn rows_that_are_left_out() {
    let mut lo = [0u8; 16];
    lo[15] = 1;
    let t = Tables {
        tcp4: table(&[
            tcp4([1, 2, 3, 4], 1, [5, 6, 7, 8], 2, 0),
            tcp4([1, 2, 3, 4], 1, [5, 6, 7, 8], 2, 4),
            tcp4([127, 0, 0, 1], 1, [5, 6, 7, 8], 2, 9),
            tcp4([1, 2, 3, 4], 1, [127, 0, 0, 1], 2, 9),
            tcp4([1, 2, 3, 4], 1, [0, 0, 0, 0], 2, 9),
            tcp4([0, 0, 0, 0], 1, [5, 6, 7, 8], 2, 9),
        ]),
        tcp6: table(&[
            tcp6(lo, 1, six(2), 2, 9),
            tcp6(six(1), 1, lo, 2, 9),
            tcp6(six(1), 1, [0; 16], 2, 9),
        ]),
        udp4: table(&[udp4([127, 0, 0, 1], 1, 9), udp4([0, 0, 0, 0], 1, 9)]),
        udp6: table(&[udp6(lo, 1, 9)]),
    };
    let c = connection_candidates(&t);
    assert_eq!(c.len(), 2);
    assert!(c[0].remote.is_some());
    assert!(c[1].remote.is_none());
}

#[test]
fn reports_in_order() {
    let t = Tables {
        tcp4: table(&[
            tcp4([10, 0, 0, 2], 1000, [8, 8, 8, 8], 443, 20),
            tcp4([10, 0, 0, 2], 1001, [8, 8, 4, 4], 443, 21),
            tcp4([10, 0, 0, 2], 1002, [9, 9, 9, 9], 443, 22),
        ]),
        tcp6: table(&[tcp6(six(1), 1003, six(2), 80, 20)]),
        udp4: table(&[udp4([10, 0, 0, 2], 5353, 20)]),
        udp6: table(&[udp6(six(3), 5354, 23)]),
    };
    let images = vec![
        utf16("C:\\b.exe"),
        utf16("C:\\a.exe"),
        None,
        utf16("C:\\b.exe"),
        utf16("C:\\b.exe"),
        utf16("C:\\B.exe"),
    ];
    let mut state = EngineState::new();
    state.traffic_stats.record("b.exe", 3, 4, 1);
    let r = get_active_system_connections(&mut state, &t, &images, 77);
    let ids: Vec<&str> = r.iter().map(|c| c.id.as_str()).collect();
    assert_eq!(
        ids,
        vec![
            "B.exe:5354-UDP6:[2000::3]",
            "a.exe:1001-8.8.4.4:443",
            "b.exe:1000-8.8.8.8:443",
            "b.exe:1003-2000::2:80",
            "b.exe:5353-UDP:10.0.0.2",
        ]
    );
    assert_eq!(r[0].protocol, "UDP");
    assert_eq!(r[0].source_addr, "[2000::3]:5354");
    assert_eq!(r[0].original_dest, "UDP Endpoint");
    assert_eq!(r[2].protocol, "TCP");
    assert_eq!(r[2].source_addr, "10.0.0.2:1000");
    assert_eq!(r[2].original_dest, "8.8.8.8:443");
    assert_eq!(r[2].pid, 20);
    assert_eq!(r[2].process_name, "b.exe");
    assert_eq!(r[2].action, "Direct");
    assert_eq!(r[2].status, "Active");
    assert_eq!((r[2].bytes_sent, r[2].bytes_received, r[2].timestamp), (0, 0, 77));
    assert_eq!(r[3].source_addr, "[2000::1]:1003");
    assert_eq!(r[3].original_dest, "[2000::2]:80");
    assert_eq!(state.traffic_stats.get("b.exe"), Some((3, 4, 77)));
    assert_eq!(state.traffic_stats.get("a.exe"), Some((0, 0, 77)));
    assert_eq!(state.traffic_stats.get("PID_22"), None);
}

#[test]
fn tables_that_cannot_be_read() {
    let t = Tables { tcp4: None, tcp6: None, udp4: None, udp6: None };
    let mut state = EngineState::new();
    assert!(get_active_system_connections(&mut state, &t, &vec![], 1).is_empty());
    assert!(proxier::engine::get_traffic_stats(&state).is_empty());
}

#[test]
fn the_list_is_limited() {
    let rows: Vec<Vec<u8>> = (0..1200u16)
        .map(|i| udp4([10, 0, 0, 2], i, 30))
        .collect();
    let t = Tables { tcp4: None, tcp6: None, udp4: table(&rows), udp6: None };
    let images: Vec<Option<Vec<u16>>> =
        (0..1200).map(|i| utf16(if i % 2 == 0 { "z" } else { "a" })).collect();
    let mut state = EngineState::new();
    let r = get_active_system_connections(&mut state, &t, &images, 1);
    assert_eq!(r.len(), 1000);
    assert_eq!(r[599].id, "a:1199-UDP:10.0.0.2");
    assert_eq!(r[600].id, "z:0-UDP:10.0.0.2");
    assert_eq!(r[999].id, "z:798-UDP:10.0.0.2");
}

#[test]
fn discovery() {
    let t = Tables {
        tcp4: None,
        tcp6: None,
        udp4: table(&[
            udp4([10, 0, 0, 2], 1, 30),
            udp4([10, 0, 0, 2], 2, 30),
            udp4([10, 0, 0, 2], 3, 31),
            udp4([10, 0, 0, 2], 4, 32),
        ]),
        udp6: None,
    };
    let images = vec![utf16("b"), utf16("b"), utf16("Proxier.exe"), utf16("A")];
    let mut state = EngineState::new();
    let r = get_active_system_connections(&mut state, &t, &images, 1);
    assert_eq!(discovered_processes(&r), vec!["A".to_string(), "b".to_string()]);
}
