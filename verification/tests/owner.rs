use proxier::owner::{
    count_rows, find_port_owner, get_process_name_for_pid, image_name, PidCache, ResolveStep,
    Resolver, TableKind,
};

const SECOND: u64 = 1_000_000_000;

fn table(rows: &[Vec<u8>]) -> Vec<u8> {
    let mut b = (rows.len() as u32).to_le_bytes().to_vec();
    for r in rows {
        b.extend_from_slice(r);
    }
    b
}

fn row(size: usize, port_at: usize, port: u16, pid_at: usize, pid: u32) -> Vec<u8> {
    let mut r = vec![0u8; size];
    r[port_at..port_at + 2].copy_from_slice(&port.to_be_bytes());
    r[pid_at..pid_at + 4].copy_from_slice(&pid.to_le_bytes());
    r
}

fn tcp4(port: u16, pid: u32) -> Vec<u8> {
    row(24, 8, port, 20, pid)
}

fn tcp6(port: u16, pid: u32) -> Vec<u8> {
    row(56, 20, port, 52, pid)
}

fn utf16(s: &str) -> Option<Vec<u16>> {
    Some(s.encode_utf16().collect())
}

#[test]
fn owners_in_tables() {
    let t = table(&[tcp4(80, 11), tcp4(443, 12), tcp4(443, 13)]);
    assert_eq!(find_port_owner(TableKind::Tcp4, &t, 443), Some(12));
    assert_eq!(find_port_owner(TableKind::Tcp4, &t, 444), None);
    let t = table(&[tcp6(80, 0x01020304)]);
    assert_eq!(find_port_owner(TableKind::Tcp6, &t, 80), Some(0x01020304));
    let t = table(&[row(12, 4, 53, 8, 7)]);
    assert_eq!(find_port_owner(TableKind::Udp4, &t, 53), Some(7));
    let t = table(&[row(28, 20, 53, 24, 8)]);
    assert_eq!(find_port_owner(TableKind::Udp6, &t, 53), Some(8));
}

#[test]
fn tables_are_read_as_far_as_they_go() {
    assert_eq!(count_rows(TableKind::Tcp4, &vec![]), 0);
    let mut t = table(&[tcp4(80, 11), tcp4(81, 12)]);
    assert_eq!(count_rows(TableKind::Tcp4, &t), 2);
    t.pop();
    assert_eq!(count_rows(TableKind::Tcp4, &t), 1);
    assert_eq!(find_port_owner(TableKind::Tcp4, &t, 81), None);
    let mut t = table(&[tcp4(80, 11), tcp4(81, 12)]);
    t[0] = 1;
    assert_eq!(find_port_owner(TableKind::Tcp4, &t, 81), None);
}

#[test]
fn process_names() {
    assert_eq!(get_process_name_for_pid(0, &None), "System");
    assert_eq!(get_process_name_for_pid(4, &utf16("C:\\x.exe")), "System");
    assert_eq!(get_process_name_for_pid(99, &None), "PID_99");
    assert_eq!(get_process_name_for_pid(99, &utf16("C:\\Program Files\\a b\\Tele.exe")), "Tele.exe");
    assert_eq!(get_process_name_for_pid(99, &utf16("plain")), "plain");
    assert_eq!(get_process_name_for_pid(99, &Some(vec![0xD800, 0x41])), "\u{FFFD}A");
    assert_eq!(image_name("a\\"), "");
}

#[test]
fn search_asks_and_remembers() {
    let mut cache = PidCache::new();
    let (mut r, step) = Resolver::begin(443, true, &cache, 0);
    assert_eq!(step, ResolveStep::Table(TableKind::Tcp4));
    let step = r.on_table(&Some(table(&[tcp4(80, 1)])), &mut cache, 0);
    assert_eq!(step, ResolveStep::Table(TableKind::Tcp6));
    assert!(cache.get(443).is_none());
    let step = r.on_table(&Some(table(&[tcp6(443, 55)])), &mut cache, 0);
    assert_eq!(step, ResolveStep::Image(55));
    let step = r.on_image(&utf16("C:\\a.exe"), &mut cache, 5 * SECOND);
    assert_eq!(step, ResolveStep::Resolved(55, "a.exe".to_string()));
    assert_eq!(cache.get(443), Some((55, "a.exe".to_string())));

    let (_, step) = Resolver::begin(443, true, &cache, 35 * SECOND - 1);
    assert_eq!(step, ResolveStep::Resolved(55, "a.exe".to_string()));
    let (_, step) = Resolver::begin(443, true, &cache, 35 * SECOND);
    assert_eq!(step, ResolveStep::Table(TableKind::Tcp4));
    let (_, step) = Resolver::begin(443, true, &cache, 0);
    assert_eq!(step, ResolveStep::Resolved(55, "a.exe".to_string()));
    let (_, step) = Resolver::begin(444, false, &cache, 6 * SECOND);
    assert_eq!(step, ResolveStep::Table(TableKind::Udp4));
}

#[test]
fn search_without_owner() {
    let mut cache = PidCache::new();
    let (mut r, _) = Resolver::begin(53, false, &cache, 0);
    assert_eq!(r.on_table(&None, &mut cache, 0), ResolveStep::Table(TableKind::Udp6));
    let step = r.on_table(&None, &mut cache, 0);
    assert_eq!(step, ResolveStep::Resolved(0, "Unknown".to_string()));
    assert_eq!(cache.lookup(53, 0), Some((0, "Unknown".to_string())));
}

#[test]
fn search_finds_system() {
    let mut cache = PidCache::new();
    let (mut r, _) = Resolver::begin(80, true, &cache, 0);
    let step = r.on_table(&Some(table(&[tcp4(80, 4)])), &mut cache, 0);
    assert_eq!(step, ResolveStep::Resolved(4, "System".to_string()));
    let (mut r, _) = Resolver::begin(81, true, &cache, 0);
    let step = r.on_table(&Some(table(&[tcp4(81, 0)])), &mut cache, 0);
    assert_eq!(step, ResolveStep::Resolved(0, "Unknown".to_string()));
}
