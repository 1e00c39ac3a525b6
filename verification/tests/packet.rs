use proxier::address::{ip_to_text, ipv4, IpAddr, SocketAddr};
use proxier::engine::EngineState;
use proxier::model::{ProxyConfig, Rule, RuleAction};
use proxier::packet::{
    after_capture, answer_fits, choose_action, classify_packet, count_inbound, parse_packet, relay_port_for,
    restore_fits, restore_source, resume_packet, route_packet, route_packet_if_counted,
    select_proxy, take_packet, CaptureAction, CaptureEvent, PacketClass, PacketHeader, PacketStep,
    Routed,
};

fn packet4(proto: u8, src: [u8; 4], sport: u16, dest: [u8; 4], dport: u16) -> Vec<u8> {
    let mut d = vec![0u8; 28];
    d[0] = 0x45;
    d[9] = proto;
    d[12..16].copy_from_slice(&src);
    d[16..20].copy_from_slice(&dest);
    d[20..22].copy_from_slice(&sport.to_be_bytes());
    d[22..24].copy_from_slice(&dport.to_be_bytes());
    d[24..28].copy_from_slice(&[0xAA, 0xBB, 0xCC, 0xDD]);
    d
}

fn packet6(proto: u8, src: [u8; 16], sport: u16, dest: [u8; 16], dport: u16) -> Vec<u8> {
    let mut d = vec![0u8; 46];
    d[0] = 0x60;
    d[6] = proto;
    d[8..24].copy_from_slice(&src);
    d[24..40].copy_from_slice(&dest);
    d[40..42].copy_from_slice(&sport.to_be_bytes());
    d[42..44].copy_from_slice(&dport.to_be_bytes());
    d
}

fn header(d: &Vec<u8>) -> PacketHeader {
    parse_packet(d).unwrap()
}

fn proxy(id: &str, primary: bool) -> ProxyConfig {
    ProxyConfig {
        id: id.to_string(),
        name: id.to_string(),
        proxy_type: "SOCKS5".to_string(),
        host: "h".to_string(),
        port: 1080,
        username: None,
        password: None,
        is_primary: primary,
    }
}

fn rule(name: &str, action: RuleAction, proxy: Option<&str>) -> Rule {
    Rule {
        id: name.to_string(),
        process_name: name.to_string(),
        action,
        proxy_id: proxy.map(|s| s.to_string()),
    }
}

#[test]
fn headers() {
    let d = packet4(6, [10, 0, 0, 2], 50000, [8, 8, 8, 8], 443);
    let h = header(&d);
    assert!(h.is_tcp);
    assert_eq!(h.src_ip, ipv4(10, 0, 0, 2));
    assert_eq!(h.dest_ip, ipv4(8, 8, 8, 8));
    assert_eq!((h.src_port, h.dest_port, h.header_len), (50000, 443, 20));
    let mut dest = [0u8; 16];
    dest[0] = 0x20;
    let d = packet6(17, [1; 16], 5, dest, 53);
    let h = header(&d);
    assert!(!h.is_tcp);
    assert_eq!(h.src_ip, IpAddr::V6([1; 16]));
    assert_eq!(h.dest_ip, IpAddr::V6(dest));
    assert_eq!((h.src_port, h.dest_port, h.header_len), (5, 53, 40));
}

#[test]
fn packets_without_ports() {
    let d = packet4(6, [1; 4], 1, [2; 4], 2);
    assert!(parse_packet(&d[..19].to_vec()).is_none());
    assert!(parse_packet(&d[..23].to_vec()).is_none());
    assert!(parse_packet(&d[..24].to_vec()).is_some());
    assert!(parse_packet(&packet4(1, [1; 4], 1, [2; 4], 2)).is_none());
    let d = packet6(6, [1; 16], 1, [2; 16], 2);
    assert!(parse_packet(&d[..39].to_vec()).is_none());
    assert!(parse_packet(&d[..43].to_vec()).is_none());
    let mut d = packet4(6, [1; 4], 1, [2; 4], 2);
    d[0] = 0x55;
    assert!(parse_packet(&d).is_none());
    d[0] = 0x46;
    assert_eq!(header(&d).header_len, 24);
}

#[test]
fn classes() {
    let mut state = EngineState::new();
    let relay = relay_port_for(true);
    assert_eq!(relay, 34010);
    assert_eq!(relay_port_for(false), 34011);
    let dest = SocketAddr { ip: ipv4(8, 8, 8, 8), port: 443 };
    let answer = packet4(6, [127, 0, 0, 1], relay, [10, 0, 0, 2], 50000);
    assert_eq!(
        classify_packet(&answer, true, &state.redirect_table),
        PacketClass::Outbound(header(&answer))
    );
    state.redirect_table.insert(50000, dest, "p".to_string());
    assert_eq!(
        classify_packet(&answer, true, &state.redirect_table),
        PacketClass::Answer(header(&answer), dest)
    );
    let to_relay = packet4(6, [127, 0, 0, 1], 50000, [127, 0, 0, 1], relay);
    assert_eq!(classify_packet(&to_relay, true, &state.redirect_table), PacketClass::Pass);
    let other = packet4(17, [1; 4], relay, [2; 4], 50000);
    assert_eq!(
        classify_packet(&other, false, &state.redirect_table),
        PacketClass::Inbound(header(&other))
    );
    assert_eq!(classify_packet(&vec![0; 10], false, &state.redirect_table), PacketClass::Pass);
}

#[test]
fn redirect_and_answer() {
    let mut state = EngineState::new();
    state.config = vec![proxy("p1", false), proxy("p2", true)];
    state.rules = vec![rule("*chrome.exe", RuleAction::Proxy, Some("p1"))];
    let original = packet4(6, [10, 0, 0, 2], 50000, [8, 8, 8, 8], 443);
    let mut d = original.clone();
    let h = header(&d);
    let r = route_packet(&mut state, &mut d, &h, 77, "Chrome.exe", Some(1234));
    let event = match r {
        Routed::Redirected(e) => e,
        other => panic!("{:?}", other),
    };
    assert_eq!(event.id, "Chrome.exe:50000-8.8.8.8:443");
    assert_eq!(event.pid, 77);
    assert_eq!(event.process_name, "Chrome.exe");
    assert_eq!(event.protocol, "TCP");
    assert_eq!(event.source_addr, "10.0.0.2:50000");
    assert_eq!(event.original_dest, "8.8.8.8:443");
    assert_eq!(event.action, "Proxy");
    assert_eq!(event.bytes_sent, 28);
    assert_eq!(event.bytes_received, 0);
    assert_eq!(event.timestamp, 1234);
    assert_eq!(event.status, "Active");
    let mut expected = original.clone();
    expected[16..20].copy_from_slice(&[127, 0, 0, 1]);
    expected[22..24].copy_from_slice(&34010u16.to_be_bytes());
    assert_eq!(d, expected);
    assert_eq!(classify_packet(&d, true, &state.redirect_table), PacketClass::Pass);
    let noted = state.redirect_table.get(50000).unwrap();
    assert_eq!(noted.dest, SocketAddr { ip: ipv4(8, 8, 8, 8), port: 443 });
    assert_eq!(noted.proxy_id, "p1");
    assert_eq!(state.traffic_stats.get("Chrome.exe"), Some((28, 0, 1234)));

    let mut answer = packet4(6, [127, 0, 0, 1], 34010, [10, 0, 0, 2], 50000);
    match classify_packet(&answer, false, &state.redirect_table) {
        PacketClass::Answer(h, dest) => {
            assert!(restore_fits(&answer, &h, &dest));
            restore_source(&mut answer, &h, &dest);
        }
        other => panic!("{:?}", other),
    }
    let h = header(&answer);
    assert_eq!((h.src_ip, h.src_port), (ipv4(8, 8, 8, 8), 443));
    assert_eq!((h.dest_ip, h.dest_port), (ipv4(10, 0, 0, 2), 50000));
    assert_eq!(&answer[24..], &[0xAA, 0xBB, 0xCC, 0xDD]);
}

#[test]
fn redirect_and_answer_ipv6() {
    let mut state = EngineState::new();
    state.rules = vec![rule("a", RuleAction::Proxy, None)];
    let mut dest = [0u8; 16];
    dest[0] = 0x20;
    dest[15] = 5;
    let mut d = packet6(6, [0x30; 16], 4000, dest, 80);
    let h = header(&d);
    match route_packet(&mut state, &mut d, &h, 1, "a", Some(1)) {
        Routed::Redirected(e) => {
            assert_eq!(e.original_dest, "2000::5:80");
            assert_eq!(e.id, "a:4000-2000::5:80");
        }
        other => panic!("{:?}", other),
    }
    let h = header(&d);
    assert_eq!(ip_to_text(&h.dest_ip), "::1");
    assert_eq!(h.dest_port, 34010);
    assert_eq!(h.src_ip, IpAddr::V6([0x30; 16]));
    assert_eq!(state.redirect_table.get(4000).unwrap().proxy_id, "default");
    let mut lo = [0u8; 16];
    lo[15] = 1;
    let mut answer = packet6(6, lo, 34010, [0x30; 16], 4000);
    let h = header(&answer);
    restore_source(&mut answer, &h, &SocketAddr { ip: IpAddr::V6(dest), port: 80 });
    let h = header(&answer);
    assert_eq!((h.src_ip, h.src_port), (IpAddr::V6(dest), 80));
}

#[test]
fn short_packet_has_no_room_for_ipv6() {
    let mut d = vec![0u8; 20];
    d[0] = 0x40;
    d[9] = 6;
    let h = header(&d);
    let six = SocketAddr { ip: IpAddr::V6([0; 16]), port: 1 };
    let four = SocketAddr { ip: ipv4(1, 2, 3, 4), port: 1 };
    assert!(!restore_fits(&d, &h, &six));
    assert!(restore_fits(&d, &h, &four));
}

#[test]
fn actions() {
    let mut state = EngineState::new();
    state.bypass_local = false;
    state.rules = vec![rule("a", RuleAction::Block, None)];
    let web = header(&packet4(6, [1; 4], 1, [9, 9, 9, 9], 443));
    let dns = header(&packet4(17, [1; 4], 1, [9, 9, 9, 9], 53));
    let tcp53 = header(&packet4(6, [1; 4], 1, [9, 9, 9, 9], 53));
    let lan = header(&packet4(6, [1; 4], 1, [192, 168, 1, 1], 443));
    let lan_dns = header(&packet4(17, [1; 4], 1, [192, 168, 1, 1], 53));
    assert_eq!(choose_action(&state, &web, "a"), RuleAction::Block);
    assert_eq!(choose_action(&state, &web, "b"), RuleAction::Direct);
    assert_eq!(choose_action(&state, &dns, "a"), RuleAction::Proxy);
    assert_eq!(choose_action(&state, &tcp53, "a"), RuleAction::Block);
    assert_eq!(choose_action(&state, &lan, "a"), RuleAction::Block);
    assert_eq!(choose_action(&state, &lan_dns, "a"), RuleAction::Proxy);
    state.proxy_dns = false;
    assert_eq!(choose_action(&state, &dns, "a"), RuleAction::Direct);
    state.proxy_dns = true;
    state.bypass_local = true;
    assert_eq!(choose_action(&state, &lan, "a"), RuleAction::Direct);
    assert_eq!(choose_action(&state, &lan_dns, "a"), RuleAction::Direct);
    assert_eq!(choose_action(&state, &web, "a"), RuleAction::Block);
}

#[test]
fn blocked_direct_and_ignored() {
    let mut state = EngineState::new();
    state.rules = vec![rule("a", RuleAction::Block, None)];
    let original = packet4(6, [10, 0, 0, 2], 50000, [8, 8, 8, 8], 443);
    let h = header(&original);
    let mut d = original.clone();
    match route_packet(&mut state, &mut d, &h, 1, "a", Some(5)) {
        Routed::Blocked(e) => {
            assert_eq!(e.status, "Blocked");
            assert_eq!(e.action, "Block");
        }
        other => panic!("{:?}", other),
    }
    match route_packet(&mut state, &mut d, &h, 1, "b", Some(6)) {
        Routed::Direct(e) => {
            assert_eq!(e.status, "Active");
            assert_eq!(e.action, "Direct");
        }
        other => panic!("{:?}", other),
    }
    assert_eq!(route_packet(&mut state, &mut d, &h, 1, "Proxier.exe", Some(7)), Routed::Ignored);
    assert_eq!(route_packet(&mut state, &mut d, &h, 0, "Unknown", Some(7)), Routed::Ignored);
    assert_eq!(route_packet(&mut state, &mut d, &h, 1, "b", None), Routed::NoTime);
    assert_eq!(d, original);
    assert_eq!(state.traffic_stats.get("a"), Some((28, 0, 5)));
    assert_eq!(state.traffic_stats.get("b"), Some((28, 0, 6)));
    assert_eq!(state.traffic_stats.get("Unknown"), None);
    assert!(state.redirect_table.get(50000).is_none());
}

#[test]
fn full_counters_stop_routing() {
    let mut state = EngineState::new();
    state.traffic_stats.record("b", u64::MAX - 10, 0, 1);
    let mut d = packet4(6, [10, 0, 0, 2], 50000, [8, 8, 8, 8], 443);
    let h = header(&d);
    assert_eq!(route_packet_if_counted(&mut state, &mut d, &h, 1, "b", Some(2)), None);
    assert_eq!(state.traffic_stats.get("b"), Some((u64::MAX - 10, 0, 1)));
    assert!(route_packet_if_counted(&mut state, &mut d, &h, 1, "c", Some(2)).is_some());
    assert_eq!(
        route_packet_if_counted(&mut state, &mut d, &h, 1, "b", None),
        Some(Routed::NoTime)
    );
}

#[test]
fn inbound_packets_are_counted() {
    let mut state = EngineState::new();
    count_inbound(&mut state, 5, "a", 100, 1);
    count_inbound(&mut state, 5, "a", 20, 2);
    count_inbound(&mut state, 0, "z", 20, 2);
    count_inbound(&mut state, 5, "Unknown", 20, 2);
    assert_eq!(state.traffic_stats.get("a"), Some((0, 120, 2)));
    assert_eq!(state.traffic_stats.get("z"), None);
    assert_eq!(state.traffic_stats.get("Unknown"), None);
}

#[test]
fn proxy_selection() {
    let pool = vec![proxy("a", false), proxy("b", true), proxy("c", true)];
    assert_eq!(select_proxy(&pool, &Some("c".to_string())), "c");
    assert_eq!(select_proxy(&pool, &Some("x".to_string())), "b");
    assert_eq!(select_proxy(&pool, &None), "b");
    assert_eq!(select_proxy(&vec![proxy("a", false)], &None), "a");
    assert_eq!(select_proxy(&vec![], &Some("x".to_string())), "default");
    assert_eq!(select_proxy(&vec![proxy("k", true), proxy("", false)], &None), "");
}

#[test]
fn capture_goes_on() {
    assert_eq!(
        after_capture(CaptureEvent::Passed),
        CaptureAction::Reinject { note_failure: false }
    );
    assert_eq!(after_capture(CaptureEvent::Blocked), CaptureAction::Drop);
    assert_eq!(
        after_capture(CaptureEvent::Untimed),
        CaptureAction::Reinject { note_failure: true }
    );
    assert_eq!(after_capture(CaptureEvent::Failed), CaptureAction::Pause(10));
}

#[test]
fn packets_step_by_step() {
    let mut state = EngineState::new();
    state.rules = vec![
        rule("a", RuleAction::Proxy, None),
        rule("b", RuleAction::Block, None),
    ];
    let original = packet4(6, [10, 0, 0, 2], 50000, [8, 8, 8, 8], 443);
    let mut d = original.clone();
    let p = match take_packet(&mut d, true, &state.redirect_table) {
        PacketStep::Owner(p) => p,
        other => panic!("{:?}", other),
    };
    assert!(!p.inbound);
    assert_eq!(p.port(), 50000);
    assert_eq!(d, original);

    let step = resume_packet(&mut state, &mut d, &p, 1, "c", Some(5)).unwrap();
    assert!(matches!(step, PacketStep::Report(_)));
    assert_eq!(step.capture_event(), CaptureEvent::Passed);
    let step = resume_packet(&mut state, &mut d, &p, 1, "b", Some(5)).unwrap();
    assert!(matches!(step, PacketStep::Blocked(_)));
    assert_eq!(after_capture(step.capture_event()), CaptureAction::Drop);
    let step = resume_packet(&mut state, &mut d, &p, 1, "b", None).unwrap();
    assert!(step == PacketStep::NoTime);
    assert_eq!(step.capture_event(), CaptureEvent::Untimed);
    let step = resume_packet(&mut state, &mut d, &p, 0, "Unknown", None).unwrap();
    assert!(step == PacketStep::Leave);
    assert_eq!(step.capture_event(), CaptureEvent::Passed);
    assert_eq!(d, original);
    let step = resume_packet(&mut state, &mut d, &p, 1, "a", Some(5)).unwrap();
    assert!(matches!(step, PacketStep::Rewritten(Some(_))));
    assert_eq!(step.capture_event(), CaptureEvent::Passed);
    assert_eq!(header(&d).dest_port, 34010);
    assert_eq!(take_packet(&mut d, true, &state.redirect_table), PacketStep::Leave);

    let mut answer = packet4(6, [127, 0, 0, 1], 34010, [10, 0, 0, 2], 50000);
    assert!(answer_fits(&answer, false, &state.redirect_table));
    assert_eq!(
        take_packet(&mut answer, false, &state.redirect_table),
        PacketStep::Rewritten(None)
    );
    assert_eq!(header(&answer).src_ip, ipv4(8, 8, 8, 8));
    assert_eq!(header(&answer).src_port, 443);
}

#[test]
fn inbound_packets_step_by_step() {
    let mut state = EngineState::new();
    let mut d = packet4(17, [8, 8, 8, 8], 53, [10, 0, 0, 2], 50000);
    let p = match take_packet(&mut d, false, &state.redirect_table) {
        PacketStep::Owner(p) => p,
        other => panic!("{:?}", other),
    };
    assert!(p.inbound);
    assert_eq!(p.port(), 50000);
    assert_eq!(
        resume_packet(&mut state, &mut d, &p, 9, "a", Some(7)),
        Some(PacketStep::Leave)
    );
    assert_eq!(state.traffic_stats.get("a"), Some((0, 28, 7)));
    assert_eq!(resume_packet(&mut state, &mut d, &p, 9, "a", None), Some(PacketStep::Leave));
    assert_eq!(state.traffic_stats.get("a"), Some((0, 56, 0)));
    state.traffic_stats.record("b", 0, u64::MAX, 1);
    assert_eq!(resume_packet(&mut state, &mut d, &p, 9, "b", Some(7)), None);
    assert_eq!(state.traffic_stats.get("b"), Some((0, u64::MAX, 1)));
    assert_eq!(
        take_packet(&mut vec![1, 2, 3], false, &state.redirect_table),
        PacketStep::Leave
    );
}

#[test]
fn short_answer_does_not_fit() {
    let mut state = EngineState::new();
    let mut d = vec![0u8; 20];
    d[0] = 0x41;
    d[9] = 6;
    d[4..6].copy_from_slice(&34010u16.to_be_bytes());
    d[6..8].copy_from_slice(&50000u16.to_be_bytes());
    let four = SocketAddr { ip: ipv4(1, 2, 3, 4), port: 1 };
    let six = SocketAddr { ip: IpAddr::V6([0; 16]), port: 1 };
    state.redirect_table.insert(50000, four, "p".to_string());
    assert!(answer_fits(&d, false, &state.redirect_table));
    state.redirect_table.insert(50000, six, "p".to_string());
    assert!(!answer_fits(&d, false, &state.redirect_table));
    d.extend_from_slice(&[0; 4]);
    assert!(answer_fits(&d, false, &state.redirect_table));
}
