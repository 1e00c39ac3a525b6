use proxier::database::{
    all_setting_keys, clear_logs, delete_proxy, init_db, insert_log, load_known_processes,
    load_logs, load_proxies, load_rules, load_settings, parse_action, port_of_number, query_text,
    registration_after_saving, save_known_process, save_proxy, save_rules, save_settings,
    set_autostart, set_up_flag, time_from_signed, time_to_signed, upsert_new_processes, Command,
    KnownRow, LogRow, ProxyRow, Query, RuleRow, SqlValue,
};
use proxier::engine::Settings;
use proxier::model::{KnownProcess, LogEntry, ProxyConfig, Rule, RuleAction};
use rusqlite::types::Value;
use rusqlite::{params_from_iter, Connection};

fn run(conn: &Connection, commands: Vec<Command>) -> bool {
    for c in commands {
        let s = c.statement();
        let params: Vec<Value> = s
            .params
            .into_iter()
            .map(|p| match p {
                SqlValue::Text(t) => Value::Text(t),
                SqlValue::Integer(n) => Value::Integer(n),
                SqlValue::Null => Value::Null,
            })
            .collect();
        if conn.execute(&s.sql, params_from_iter(params)).is_err() {
            return false;
        }
    }
    true
}

fn open() -> Connection {
    let conn = Connection::open_in_memory().unwrap();
    assert!(run(&conn, init_db()));
    conn
}

fn proxies(conn: &Connection) -> Vec<ProxyConfig> {
    let mut stmt = conn.prepare(&query_text(Query::Proxies)).unwrap();
    let rows = stmt
        .query_map([], |row| {
            Ok(ProxyRow {
                id: row.get(0)?,
                name: row.get(1)?,
                proxy_type: row.get(2)?,
                host: row.get(3)?,
                port: row.get(4)?,
                username: row.get(5)?,
                password: row.get(6)?,
                is_primary: row.get(7)?,
            })
        })
        .unwrap();
    load_proxies(rows.map(|r| r.unwrap()).collect())
}

fn rules(conn: &Connection) -> Vec<Rule> {
    let mut stmt = conn.prepare(&query_text(Query::Rules)).unwrap();
    let rows = stmt
        .query_map([], |row| {
            Ok(RuleRow {
                id: row.get(0)?,
                process_name: row.get(1)?,
                action: row.get(2)?,
                proxy_id: row.get(3)?,
            })
        })
        .unwrap();
    load_rules(rows.map(|r| r.unwrap()).collect())
}

fn known(conn: &Connection) -> Vec<KnownProcess> {
    let mut stmt = conn.prepare(&query_text(Query::KnownProcesses)).unwrap();
    let rows = stmt
        .query_map([], |row| {
            Ok(KnownRow {
                process_name: row.get(0)?,
                group_action: row.get(1)?,
                proxy_id: row.get(2)?,
                created_at: row.get(3)?,
            })
        })
        .unwrap();
    load_known_processes(rows.map(|r| r.unwrap()).collect())
}

fn logs(conn: &Connection) -> Vec<LogEntry> {
    let mut stmt = conn.prepare(&query_text(Query::Logs)).unwrap();
    let rows = stmt
        .query_map([], |row| {
            Ok(LogRow {
                id: row.get(0)?,
                timestamp: row.get(1)?,
                level: row.get(2)?,
                source: row.get(3)?,
                message: row.get(4)?,
            })
        })
        .unwrap();
    load_logs(rows.map(|r| r.unwrap()).collect())
}

fn setting(conn: &Connection, key: &str) -> Option<String> {
    conn.query_row(&query_text(Query::SettingValue), [key], |row| row.get(0)).ok()
}

fn settings(conn: &Connection) -> Settings {
    load_settings(
        &setting(conn, "proxy_dns"),
        &setting(conn, "bypass_local"),
        &setting(conn, "autostart"),
        &setting(conn, "minimize_to_tray"),
        &setting(conn, "start_minimized"),
    )
}

fn set_up(conn: &Connection) -> (usize, bool) {
    let mut added = 0;
    let mut registered = false;
    for k in all_setting_keys() {
        let count: i64 = conn
            .query_row(&query_text(Query::SettingCount), [k.to_text()], |row| row.get(0))
            .unwrap();
        let s = set_up_flag(k, count);
        registered = registered || s.register_autostart;
        if let Some(c) = s.command {
            assert!(run(conn, vec![c]));
            added += 1;
        }
    }
    (added, registered)
}

fn proxy(id: &str, primary: bool) -> ProxyConfig {
    ProxyConfig {
        id: id.to_string(),
        name: format!("name {}", id),
        proxy_type: "SOCKS5".to_string(),
        host: "host".to_string(),
        port: 65535,
        username: Some("u".to_string()),
        password: None,
        is_primary: primary,
    }
}

fn rule(id: &str, action: RuleAction) -> Rule {
    Rule {
        id: id.to_string(),
        process_name: format!("{}.exe", id),
        action,
        proxy_id: Some("p".to_string()),
    }
}

#[test]
fn proxies_are_stored() {
    let conn = open();
    assert!(run(&conn, save_proxy(&proxy("a", true))));
    assert!(run(&conn, save_proxy(&proxy("b", false))));
    assert_eq!(proxies(&conn), vec![proxy("a", true), proxy("b", false)]);
    assert!(run(&conn, save_proxy(&proxy("c", true))));
    assert_eq!(proxies(&conn), vec![proxy("a", false), proxy("b", false), proxy("c", true)]);
    assert!(run(&conn, save_proxy(&proxy("a", true))));
    assert_eq!(proxies(&conn), vec![proxy("b", false), proxy("c", false), proxy("a", true)]);
    assert!(run(&conn, delete_proxy("c")));
    assert!(run(&conn, delete_proxy("missing")));
    assert_eq!(proxies(&conn), vec![proxy("b", false), proxy("a", true)]);
}

#[test]
fn rules_are_stored_in_order() {
    let conn = open();
    let list = vec![
        rule("z", RuleAction::Proxy),
        rule("a", RuleAction::Block),
        rule("m", RuleAction::Direct),
    ];
    assert!(run(&conn, save_rules(&list)));
    assert_eq!(rules(&conn), list);
    let list = vec![rule("m", RuleAction::Block), rule("b", RuleAction::Direct)];
    assert!(run(&conn, save_rules(&list)));
    assert_eq!(rules(&conn), list);
    let twice = vec![rule("m", RuleAction::Block), rule("m", RuleAction::Direct)];
    assert!(!run(&conn, save_rules(&twice)));
    assert_eq!(rules(&conn), vec![rule("m", RuleAction::Block)]);
}

#[test]
fn settings_are_stored() {
    let conn = open();
    let defaults = Settings {
        proxy_dns: true,
        bypass_local: false,
        autostart: true,
        minimize_to_tray: true,
        start_minimized: false,
    };
    assert_eq!(settings(&conn), defaults);
    assert_eq!(set_up(&conn), (5, true));
    assert_eq!(settings(&conn), defaults);
    assert_eq!(set_up(&conn), (0, false));
    let f = Settings {
        proxy_dns: false,
        bypass_local: true,
        autostart: false,
        minimize_to_tray: false,
        start_minimized: true,
    };
    assert!(run(&conn, save_settings(f)));
    assert_eq!(settings(&conn), f);
    assert_eq!(set_up(&conn), (0, false));
    assert_eq!(settings(&conn), f);
    assert_eq!(registration_after_saving(f, true), Some(false));
    assert_eq!(registration_after_saving(defaults, true), Some(true));
    assert_eq!(registration_after_saving(defaults, false), None);
    conn.execute("UPDATE settings SET value = 'TRUE' WHERE key = 'bypass_local'", []).unwrap();
    assert!(!settings(&conn).bypass_local);
}

#[test]
fn known_processes_are_stored() {
    let conn = open();
    assert!(run(&conn, upsert_new_processes(&vec!["a".to_string(), "b".to_string()], 5)));
    let p = KnownProcess {
        process_name: "a".to_string(),
        group_action: "proxy".to_string(),
        proxy_id: Some("p".to_string()),
        created_at: 9,
    };
    assert!(run(&conn, save_known_process(&p)));
    assert!(run(&conn, upsert_new_processes(&vec!["a".to_string(), "c".to_string()], 7)));
    let list = known(&conn);
    assert_eq!(list.len(), 3);
    assert_eq!(list[0], p);
    assert_eq!((list[1].process_name.as_str(), list[1].created_at), ("c", 7));
    assert_eq!((list[2].process_name.as_str(), list[2].created_at), ("b", 5));
    assert_eq!(list[2].group_action, "new");
    assert_eq!(list[2].proxy_id, None);
    let old = KnownProcess {
        process_name: "b".to_string(),
        group_action: "block".to_string(),
        proxy_id: None,
        created_at: 8,
    };
    assert!(run(&conn, save_known_process(&old)));
    let names: Vec<String> = known(&conn).into_iter().map(|k| k.process_name).collect();
    assert_eq!(names, vec!["a", "b", "c"]);
    let before = known(&conn);
    assert!(run(&conn, upsert_new_processes(&vec!["c".to_string(), "b".to_string()], 99)));
    assert_eq!(known(&conn), before);
}

#[test]
fn the_log_keeps_the_latest_lines() {
    let conn = open();
    for i in 0..305 {
        assert!(run(&conn, insert_log("info", "Core", &format!("line {}", i), i)));
    }
    let list = logs(&conn);
    assert_eq!(list.len(), 300);
    assert_eq!((list[0].message.as_str(), list[0].id), ("line 304", 305));
    assert_eq!((list[299].message.as_str(), list[299].id), ("line 5", 6));
    assert_eq!((list[0].level.as_str(), list[0].source.as_str()), ("info", "Core"));
    assert_eq!(list[0].timestamp, 304);
    assert!(run(&conn, clear_logs()));
    assert!(logs(&conn).is_empty());
    assert!(run(&conn, insert_log("error", "Core", "again", 1)));
    assert_eq!(logs(&conn)[0].id, 306);
}

#[test]
fn stored_numbers() {
    assert_eq!(port_of_number(80), 80);
    assert_eq!(port_of_number(65536 + 80), 80);
    assert_eq!(port_of_number(-1), 65535);
    assert_eq!(time_to_signed(5), 5);
    assert_eq!(time_to_signed(u64::MAX), -1);
    assert_eq!(time_from_signed(-1), u64::MAX);
    assert_eq!(time_from_signed(time_to_signed(1 << 63)), 1 << 63);
    assert_eq!(parse_action("Block"), RuleAction::Block);
    assert_eq!(parse_action("Direct"), RuleAction::Direct);
    assert_eq!(parse_action("block"), RuleAction::Proxy);
}

#[test]
fn starting_with_the_system() {
    let on = set_autostart(true, "C:\\a b\\x.exe");
    assert_eq!(on.len(), 3);
    assert_eq!(on[0].program, "reg");
    assert_eq!(on[0].args[0], "delete");
    assert_eq!(on[0].args[1], "HKCU\\Software\\Microsoft\\Windows\\CurrentVersion\\Run");
    assert_eq!(on[0].args[3], "Proxier");
    assert_eq!(on[1].args[3], "AppProxyBridge");
    assert_eq!(on[2].program, "schtasks");
    assert_eq!(
        on[2].args,
        vec![
            "/create", "/tn", "AppProxyBridge", "/tr", "\"C:\\a b\\x.exe\"", "/sc", "onlogon",
            "/rl", "highest", "/f"
        ]
    );
    let off = set_autostart(false, "x");
    assert_eq!(off[2].args, vec!["/delete", "/tn", "AppProxyBridge", "/f"]);
}
