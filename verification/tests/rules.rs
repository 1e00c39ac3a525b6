use proxier::model::{KnownProcess, Rule, RuleAction};
use proxier::rules::{
    find_rule, get_known_processes, group_message, group_rule, grouped_process,
    is_excluded_process, is_own_name, match_lowered, match_wildcard, parse_group,
    set_process_group,
};

fn rule(id: &str, name: &str, action: RuleAction, proxy: Option<&str>) -> Rule {
    Rule {
        id: id.to_string(),
        process_name: name.to_string(),
        action,
        proxy_id: proxy.map(|s| s.to_string()),
    }
}

fn known(name: &str, group: &str, at: u64) -> KnownProcess {
    KnownProcess {
        process_name: name.to_string(),
        group_action: group.to_string(),
        proxy_id: None,
        created_at: at,
    }
}

#[test]
fn patterns() {
    assert!(match_wildcard("telegram.exe", "Telegram.EXE"));
    assert!(!match_wildcard("telegram.exe", "telegram"));
    assert!(match_wildcard("*Chrome.exe", "GoogleCHROME.exe"));
    assert!(match_wildcard("*chrome.exe", "chrome.exe"));
    assert!(!match_wildcard("*chrome.exe", "hrome.exe"));
    assert!(match_wildcard("*", "anything"));
    assert!(!match_wildcard("", "anything"));
    assert!(match_wildcard("\u{c4}.exe", "\u{e4}.EXE"));
    assert!(match_lowered(true, "b", "ab"));
    assert!(!match_lowered(false, "b", "ab"));
}

#[test]
fn first_rule_wins() {
    let rules = vec![
        rule("1", "a.exe", RuleAction::Block, None),
        rule("2", "*.exe", RuleAction::Proxy, Some("p")),
        rule("3", "b.exe", RuleAction::Direct, None),
    ];
    assert_eq!(find_rule(&rules, "A.exe"), Some(0));
    assert_eq!(find_rule(&rules, "b.exe"), Some(1));
    assert_eq!(find_rule(&rules, "b.com"), None);
}

#[test]
fn own_and_unknown_processes_are_excluded() {
    assert!(is_excluded_process("Unknown"));
    assert!(!is_excluded_process("unknown"));
    assert!(is_excluded_process("AppProxyBridge.exe"));
    assert!(is_excluded_process("my-PROXIER.exe"));
    assert!(!is_excluded_process("proxie.exe"));
    assert!(is_own_name("xappproxybridgex"));
    assert!(!is_own_name("chrome"));
}

#[test]
fn known_processes_follow_rules() {
    let rules = vec![
        rule("1", "*tele.exe", RuleAction::Proxy, Some("p1")),
        rule("2", "bad.exe", RuleAction::Block, None),
        rule("3", "ok.exe", RuleAction::Direct, None),
    ];
    let list = vec![
        known("Tele.exe", "new", 1),
        known("BAD.exe", "proxy", 2),
        known("ok.exe", "new", 3),
        known("other.exe", "proxy", 4),
    ];
    let r = get_known_processes(list, &rules);
    assert_eq!(r[0].group_action, "proxy");
    assert_eq!(r[0].proxy_id, Some("p1".to_string()));
    assert_eq!(r[1].group_action, "block");
    assert_eq!(r[2].group_action, "direct");
    assert_eq!(r[3].group_action, "new");
    assert_eq!(r[3].proxy_id, None);
    assert_eq!(r[3].created_at, 4);
    assert_eq!(r[3].process_name, "other.exe");
}

#[test]
fn grouping_keeps_the_time() {
    let list = vec![known("a.exe", "new", 7), known("A.EXE", "new", 8)];
    let p = Some("p".to_string());
    assert_eq!(grouped_process("A.exe", "proxy", &p, &list, 99).created_at, 7);
    let q = grouped_process("b.exe", "proxy", &p, &list, 99);
    assert_eq!(q.created_at, 99);
    assert_eq!(q.proxy_id, p);
    assert_eq!(q.group_action, "proxy");
    assert_eq!(q.process_name, "b.exe");
}

#[test]
fn grouping_changes_rules() {
    let p = Some("p".to_string());
    let rules = vec![
        rule("1", "A.exe", RuleAction::Block, None),
        rule("2", "c.exe", RuleAction::Direct, None),
        rule("3", "a.EXE", RuleAction::Block, None),
    ];
    let r = set_process_group(rules, "a.exe", "proxy", &p);
    assert_eq!(
        r,
        vec![
            rule("2", "c.exe", RuleAction::Direct, None),
            rule("auto-a-exe", "a.exe", RuleAction::Proxy, Some("p")),
        ]
    );
    let r = set_process_group(r, "a.exe", "block", &p);
    assert_eq!(r[1], rule("auto-a-exe", "a.exe", RuleAction::Block, None));
    let r = set_process_group(r, "A.Exe", "direct", &p);
    assert_eq!(r[1], rule("auto-a-exe", "A.Exe", RuleAction::Direct, None));
    let r = set_process_group(r, "a.exe", "new", &p);
    assert_eq!(r, vec![rule("2", "c.exe", RuleAction::Direct, None)]);
}

#[test]
fn groups_and_messages() {
    assert_eq!(parse_group("proxy"), Some(RuleAction::Proxy));
    assert_eq!(parse_group("block"), Some(RuleAction::Block));
    assert_eq!(parse_group("direct"), Some(RuleAction::Direct));
    assert_eq!(parse_group("new"), None);
    assert_eq!(group_rule("a.b.c", "A.B.C", "block", &None).unwrap().id, "auto-a-b-c");
    assert_eq!(group_rule("a", "A", "Proxy", &None), None);
    assert_eq!(group_message("a.exe", "proxy"), "Process a.exe set to group proxy");
}
