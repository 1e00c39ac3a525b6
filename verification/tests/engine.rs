use proxier::address::{ipv4, SocketAddr};
use proxier::commands::{
    failure_message, get_saved_data, notice_message, Notice, StoreFailure,
};
use proxier::engine::{
    get_traffic_stats, get_traffic_stats_snapshot, set_high_priority, starts_relays, tray_action,
    EngineState,
    Settings, TrayAction,
};
use proxier::model::{ProxyConfig, Rule, RuleAction};
use proxier::probe::{probe_report, probe_request, response_body};
use proxier::traffic::TrafficStats;

fn proxy() -> ProxyConfig {
    ProxyConfig {
        id: "p".to_string(),
        name: "n".to_string(),
        proxy_type: "HTTP".to_string(),
        host: "h".to_string(),
        port: 1,
        username: None,
        password: None,
        is_primary: true,
    }
}

fn rule() -> Rule {
    Rule {
        id: "r".to_string(),
        process_name: "a".to_string(),
        action: RuleAction::Block,
        proxy_id: None,
    }
}

fn settings() -> Settings {
    Settings {
        proxy_dns: false,
        bypass_local: false,
        autostart: true,
        minimize_to_tray: false,
        start_minimized: true,
    }
}

#[test]
fn new_engine() {
    let s = EngineState::new();
    assert!(!s.is_engine_running());
    assert!(s.config.is_empty() && s.rules.is_empty() && s.active_connections.is_empty());
    assert!(s.bypass_local && s.proxy_dns && s.autostart && s.minimize_to_tray);
    assert!(get_traffic_stats(&s).is_empty());
    assert!(s.redirect_table.get(1).is_none());
    assert!(s.pid_cache.get(1).is_none());
    assert!(s.closes_to_tray());
}

#[test]
fn start_and_stop() {
    let mut s = EngineState::new();
    assert_eq!(s.stop_engine(), Err("Engine is not running".to_string()));
    assert_eq!(s.start_engine(vec![proxy()], vec![rule()], false, false), Ok(()));
    assert!(s.running && !s.bypass_local && !s.proxy_dns);
    assert_eq!((s.config.len(), s.rules.len()), (1, 1));
    assert_eq!(
        s.start_engine(vec![], vec![], true, true),
        Err("Engine is already running".to_string())
    );
    assert_eq!((s.config.len(), s.rules.len()), (1, 1));
    assert_eq!(s.conclude_start(Ok(())), Ok("Engine started successfully".to_string()));
    assert!(s.running);
    s.redirect_table.insert(5, SocketAddr { ip: ipv4(1, 2, 3, 4), port: 6 }, "p".to_string());
    s.pid_cache.store(5, 1, "a", 0);
    s.traffic_stats.record("a", 1, 2, 3);
    assert_eq!(s.stop_engine(), Ok("Engine stopped".to_string()));
    assert!(!s.running);
    assert!(s.redirect_table.get(5).is_none());
    assert!(s.pid_cache.get(5).is_some());
    assert!(s.traffic_stats.get("a").is_none());
    assert_eq!((s.config.len(), s.rules.len()), (1, 1));
}

#[test]
fn failed_start() {
    let mut s = EngineState::new();
    s.start_engine(vec![], vec![], true, true).unwrap();
    assert_eq!(s.conclude_start(Err("no driver".to_string())), Err("no driver".to_string()));
    assert!(!s.running);
}

#[test]
fn restoring() {
    let mut s = EngineState::new();
    let plan = s.restore(settings(), vec![proxy()], vec![rule()]);
    assert!(plan.hide_window && plan.start_engine);
    assert!(!s.proxy_dns && !s.bypass_local && s.autostart && !s.minimize_to_tray);
    assert!(!s.closes_to_tray());
    assert_eq!((s.config.len(), s.rules.len()), (1, 1));
    let plan = s.restore(settings(), vec![], vec![]);
    assert!(!plan.start_engine);
    let mut f = settings();
    f.autostart = false;
    f.start_minimized = false;
    let plan = s.restore(f, vec![proxy()], vec![]);
    assert!(!plan.start_engine && !plan.hide_window);
    s.set_rules(vec![rule(), rule()]);
    s.set_config(vec![]);
    assert_eq!((s.config.len(), s.rules.len()), (0, 2));
}

#[test]
fn autostart() {
    let mut s = EngineState::new();
    s.begin_autostart();
    assert!(s.running);
    assert!(starts_relays(&Ok(())));
    assert!(!starts_relays(&Err("x".to_string())));
    let line = s.conclude_autostart(&Ok(()));
    assert!(s.running);
    assert_eq!((line.level.as_str(), line.source.as_str()), ("info", "Core"));
    assert_eq!(line.message, "Движок автозапущен при старте приложения (Rust)");
    let line = s.conclude_autostart(&Err("x".to_string()));
    assert!(!s.running);
    assert_eq!(line.level, "error");
    assert_eq!(line.message, "Ошибка автозапуска движка в Rust: x");
}

#[test]
fn traffic() {
    let mut s = EngineState::new();
    s.traffic_stats.record("a", 1, 2, 3);
    s.traffic_stats.record("b", 10, 20, 4);
    s.traffic_stats.record("a", 5, 6, 9);
    s.traffic_stats.touch("c", 8);
    for i in 0..100u64 {
        s.traffic_stats.record("d", i, 2 * i, i);
    }
    assert_eq!(s.traffic_stats.get("d"), Some((4950, 9900, 99)));
    let snapshot = get_traffic_stats_snapshot(&s);
    assert_eq!(snapshot.get("a"), Some((6, 8, 9)));
    let mut list: Vec<(String, u64, u64, u64)> = get_traffic_stats(&s)
        .into_iter()
        .map(|e| (e.process_name, e.bytes_sent, e.bytes_received, e.last_activity))
        .collect();
    list.sort();
    assert_eq!(
        list,
        vec![
            ("a".to_string(), 6, 8, 9),
            ("b".to_string(), 10, 20, 4),
            ("c".to_string(), 0, 0, 8),
            ("d".to_string(), 4950, 9900, 99),
        ]
    );
    let mut t = TrafficStats::new();
    t.record("a", u64::MAX, 0, 0);
    assert!(!t.fits("a", 1, 0));
    assert!(t.fits("a", 0, 1));
    t.clear();
    assert!(t.fits("a", 1, 0));
}

#[test]
fn what_the_user_is_told() {
    assert_eq!(tray_action("show"), TrayAction::Show);
    assert_eq!(tray_action("quit"), TrayAction::Quit);
    assert_eq!(tray_action("x"), TrayAction::Nothing);
    assert_eq!(set_high_priority(0), "Failed to set process priority class to High");
    assert_eq!(set_high_priority(1), "Process priority class set to High");
    assert_eq!(failure_message(StoreFailure::Open, "e"), "DB Error: e");
    assert_eq!(failure_message(StoreFailure::Reload, "e"), "DB Reload Error: e");
    assert_eq!(notice_message(Notice::ProxySaved), "Proxy saved to database");
    assert_eq!(notice_message(Notice::LogsCleared), "Logs cleared");
    let d = get_saved_data(vec![proxy()], vec![rule()], settings());
    assert_eq!((d.proxies.len(), d.rules.len()), (1, 1));
    assert!(!d.proxy_dns && !d.bypass_local && d.autostart);
    assert!(!d.minimize_to_tray && d.start_minimized);
}

#[test]
fn probe() {
    assert!(probe_request().starts_with("GET / HTTP/1.0\r\nHost: ifconfig.me\r\n"));
    assert!(probe_request().ends_with("\r\n\r\n"));
    assert_eq!(
        probe_report("HTTP/1.0 200 OK\r\n\r\n 1.2.3.4\n"),
        "\n[RESULT] Your external IP is: 1.2.3.4"
    );
    assert_eq!(probe_report("nothing"), "\n[RAW RESPONSE]:\nnothing");
    assert_eq!(response_body("a\r\n\r\nb\r\n\r\nc"), Some("b\r\n\r\nc".to_string()));
    assert_eq!(response_body("\u{e9}\r\n\r\n\u{a0}x"), Some("\u{a0}x".to_string()));
    assert_eq!(response_body("a\r\n"), None);
}
