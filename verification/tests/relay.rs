use proxier::address::{ipv4, IpAddr, SocketAddr};
use proxier::engine::EngineState;
use proxier::model::{ProxyConfig, Rule, RuleAction};
use proxier::packet::{parse_packet, route_packet, Routed};
use proxier::relay::{
    find_proxy, plan_relay, RelayEvent, RelayNext, RelayPlan, RelaySession, TCP_LISTEN_PORT,
    UDP_LISTEN_PORT,
};

fn proxy(id: &str, host: &str) -> ProxyConfig {
    ProxyConfig {
        id: id.to_string(),
        name: id.to_string(),
        proxy_type: "HTTP".to_string(),
        host: host.to_string(),
        port: 3128,
        username: None,
        password: None,
        is_primary: false,
    }
}

fn plan(with_proxy: bool) -> RelayPlan {
    let mut state = EngineState::new();
    if with_proxy {
        state.config = vec![proxy("p", "proxy.example")];
    }
    state.pid_cache.store(4000, 9, "a.exe", 0);
    let dest = SocketAddr { ip: ipv4(8, 8, 8, 8), port: 443 };
    state.redirect_table.insert(4000, dest, "p".to_string());
    plan_relay(&state, 4000).unwrap()
}

#[test]
fn plans() {
    let p = plan(true);
    assert_eq!(p.target(), "proxy.example:3128");
    assert_eq!((p.pid, p.process_name.as_str()), (9, "a.exe"));
    let p = plan(false);
    assert!(p.proxy.is_none());
    assert_eq!(p.target(), "8.8.8.8:443");
    let mut state = EngineState::new();
    assert!(plan_relay(&state, 4000).is_none());
    let mut o = [0u8; 16];
    o[15] = 7;
    let dest = SocketAddr { ip: IpAddr::V6(o), port: 1 };
    state.redirect_table.insert(4000, dest, "p".to_string());
    let p = plan_relay(&state, 4000).unwrap();
    assert_eq!((p.pid, p.process_name.as_str()), (0, "Unknown"));
    assert_eq!(p.target(), "[::7]:1");
    assert_eq!((TCP_LISTEN_PORT, UDP_LISTEN_PORT), (34010, 34011));
}

#[test]
fn proxies_by_id() {
    let pool = vec![proxy("a", "1"), proxy("b", "2"), proxy("b", "3")];
    assert_eq!(find_proxy(&pool, &"b".to_string()).unwrap().host, "2");
    assert!(find_proxy(&pool, &"c".to_string()).is_none());
}

#[test]
fn proxied_session() {
    let mut s = RelaySession::begin(plan(true));
    let step = s.advance(RelayEvent::Connected(true), 10);
    assert!(step.report.is_none());
    assert_eq!(step.next, RelayNext::Handshake);
    let step = s.advance(RelayEvent::Shaken(true), 20);
    let e = step.report.unwrap();
    assert_eq!(e.status, "Proxied");
    assert_eq!(e.id, "a.exe:4000-8.8.8.8:443");
    assert_eq!(e.pid, 9);
    assert_eq!(e.protocol, "TCP");
    assert_eq!(e.source_addr, "127.0.0.1:4000");
    assert_eq!(e.original_dest, "8.8.8.8:443");
    assert_eq!(e.action, "Proxy");
    assert_eq!(e.timestamp, 20);
    assert_eq!(step.next, RelayNext::Carry);
    let step = s.advance(RelayEvent::Carried(Some((5, 6))), 30);
    let e = step.report.unwrap();
    assert_eq!(e.status, "Closed");
    assert_eq!((e.bytes_sent, e.bytes_received, e.timestamp), (5, 6, 20));
    assert_eq!(step.next, RelayNext::End);
}

#[test]
fn failing_sessions() {
    let mut s = RelaySession::begin(plan(true));
    let step = s.advance(RelayEvent::Connected(false), 10);
    assert_eq!(step.report.unwrap().status, "Closed");
    assert_eq!(step.next, RelayNext::End);
    let mut s = RelaySession::begin(plan(true));
    s.advance(RelayEvent::Connected(true), 10);
    let step = s.advance(RelayEvent::Shaken(false), 11);
    let e = step.report.unwrap();
    assert_eq!((e.status.as_str(), e.timestamp), ("Closed", 11));
    assert_eq!(step.next, RelayNext::End);
    let mut s = RelaySession::begin(plan(true));
    s.advance(RelayEvent::Connected(true), 10);
    s.advance(RelayEvent::Shaken(true), 11);
    let step = s.advance(RelayEvent::Carried(None), 12);
    let e = step.report.unwrap();
    assert_eq!(e.status, "Closed");
    assert_eq!((e.bytes_sent, e.bytes_received, e.timestamp), (0, 0, 11));
}

#[test]
fn direct_sessions() {
    let mut s = RelaySession::begin(plan(false));
    let step = s.advance(RelayEvent::Connected(true), 10);
    let e = step.report.unwrap();
    assert_eq!((e.status.as_str(), e.action.as_str()), ("Active", "Direct"));
    assert_eq!(step.next, RelayNext::Carry);
    let step = s.advance(RelayEvent::Carried(Some((1, 2))), 12);
    let e = step.report.unwrap();
    assert_eq!((e.bytes_sent, e.bytes_received, e.timestamp), (1, 2, 10));
    assert_eq!(e.status, "Closed");
    let mut s = RelaySession::begin(plan(false));
    let step = s.advance(RelayEvent::Connected(false), 10);
    assert!(step.report.is_none());
    assert_eq!(step.next, RelayNext::End);
}

#[test]
fn redirected_connections_are_carried_on() {
    let mut state = EngineState::new();
    state.config = vec![proxy("p", "one"), proxy("q", "two")];
    state.rules = vec![Rule {
        id: "r".to_string(),
        process_name: "*.exe".to_string(),
        action: RuleAction::Proxy,
        proxy_id: Some("q".to_string()),
    }];
    state.pid_cache.store(4000, 9, "a.exe", 0);
    let mut packet = vec![0u8; 24];
    packet[0] = 0x45;
    packet[9] = 6;
    packet[16..20].copy_from_slice(&[8, 8, 4, 4]);
    packet[20..22].copy_from_slice(&4000u16.to_be_bytes());
    packet[22..24].copy_from_slice(&443u16.to_be_bytes());
    let header = parse_packet(&packet).unwrap();
    let routed = route_packet(&mut state, &mut packet, &header, 9, "a.exe", Some(1));
    assert!(matches!(routed, Routed::Redirected(_)));
    let changed = parse_packet(&packet).unwrap();
    assert_eq!(changed.dest_ip, ipv4(127, 0, 0, 1));
    assert_eq!(changed.dest_port, TCP_LISTEN_PORT);
    assert_eq!(changed.src_port, 4000);
    let plan = plan_relay(&state, 4000).unwrap();
    assert_eq!(plan.client_port, 4000);
    assert_eq!(plan.dest, SocketAddr { ip: ipv4(8, 8, 4, 4), port: 443 });
    assert_eq!(plan.proxy.as_ref().unwrap().id, "q");
    assert_eq!(plan.target(), "two:3128");
    assert_eq!((plan.pid, plan.process_name.as_str()), (9, "a.exe"));
}
