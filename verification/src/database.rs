//! The store: what is written to it and read from it, and what that does to its tables.
//!
//! The store itself is a SQLite database that is not part of this library. Each operation is a
//! list of commands; a command is one SQL statement with its parameters. A question is one SQL
//! statement too: known processes and log lines come back the latest first. What the commands do
//! to the tables, and what the questions give back, is modelled in [`crate::store`].
use crate::engine::Settings;
use crate::model::{
    text_option, views, KnownProcess, KnownView, LogEntry, LogView, ProxyConfig, ProxyView, Rule,
    RuleAction, RuleView,
};
use crate::text::same_text;
use vstd::prelude::*;
use vstd::string::*;

verus! {

// ---------------------------------------------------------------------------------------------
// Rows
// ---------------------------------------------------------------------------------------------

/// A row of the table of proxies.
#[derive(Debug, PartialEq, Eq)]
pub struct ProxyRow {
    pub id: String,
    pub name: String,
    pub proxy_type: String,
    pub host: String,
    pub port: i32,
    pub username: Option<String>,
    pub password: Option<String>,
    pub is_primary: i32,
}

/// The model of a [`ProxyRow`].
#[verifier::ext_equal]
pub struct ProxyRowView {
    pub id: Seq<char>,
    pub name: Seq<char>,
    pub proxy_type: Seq<char>,
    pub host: Seq<char>,
    pub port: i32,
    pub username: Option<Seq<char>>,
    pub password: Option<Seq<char>>,
    pub is_primary: i32,
}

impl View for ProxyRow {
    type V = ProxyRowView;

    open spec fn view(&self) -> ProxyRowView {
        ProxyRowView {
            id: self.id@,
            name: self.name@,
            proxy_type: self.proxy_type@,
            host: self.host@,
            port: self.port,
            username: text_option(self.username),
            password: text_option(self.password),
            is_primary: self.is_primary,
        }
    }
}

/// A row of the table of rules.
#[derive(Debug, PartialEq, Eq)]
pub struct RuleRow {
    pub id: String,
    pub process_name: String,
    pub action: String,
    pub proxy_id: Option<String>,
}

/// The model of a [`RuleRow`].
#[verifier::ext_equal]
pub struct RuleRowView {
    pub id: Seq<char>,
    pub process_name: Seq<char>,
    pub action: Seq<char>,
    pub proxy_id: Option<Seq<char>>,
}

impl View for RuleRow {
    type V = RuleRowView;

    open spec fn view(&self) -> RuleRowView {
        RuleRowView {
            id: self.id@,
            process_name: self.process_name@,
            action: self.action@,
            proxy_id: text_option(self.proxy_id),
        }
    }
}

/// A row of the table of known processes.
#[derive(Debug, PartialEq, Eq)]
pub struct KnownRow {
    pub process_name: String,
    pub group_action: String,
    pub proxy_id: Option<String>,
    pub created_at: i64,
}

/// The model of a [`KnownRow`].
#[verifier::ext_equal]
pub struct KnownRowView {
    pub process_name: Seq<char>,
    pub group_action: Seq<char>,
    pub proxy_id: Option<Seq<char>>,
    pub created_at: i64,
}

impl View for KnownRow {
    type V = KnownRowView;

    open spec fn view(&self) -> KnownRowView {
        KnownRowView {
            process_name: self.process_name@,
            group_action: self.group_action@,
            proxy_id: text_option(self.proxy_id),
            created_at: self.created_at,
        }
    }
}

/// A row of the table of log lines.
#[derive(Debug, PartialEq, Eq)]
pub struct LogRow {
    pub id: i64,
    pub timestamp: i64,
    pub level: String,
    pub source: String,
    pub message: String,
}

/// The model of a [`LogRow`].
#[verifier::ext_equal]
pub struct LogRowView {
    pub id: i64,
    pub timestamp: i64,
    pub level: Seq<char>,
    pub source: Seq<char>,
    pub message: Seq<char>,
}

impl View for LogRow {
    type V = LogRowView;

    open spec fn view(&self) -> LogRowView {
        LogRowView {
            id: self.id,
            timestamp: self.timestamp,
            level: self.level@,
            source: self.source@,
            message: self.message@,
        }
    }
}

// ---------------------------------------------------------------------------------------------
// Rows and records
// ---------------------------------------------------------------------------------------------

/// The row in which a proxy is stored.
pub open spec fn proxy_row(p: ProxyView) -> ProxyRowView {
    ProxyRowView {
        id: p.id,
        name: p.name,
        proxy_type: p.proxy_type,
        host: p.host,
        port: p.port as i32,
        username: p.username,
        password: p.password,
        is_primary: if p.is_primary {
            1
        } else {
            0
        },
    }
}

/// The proxy that a row holds: its port is taken modulo 65536, and every number but zero makes
/// it primary.
pub open spec fn row_proxy(r: ProxyRowView) -> ProxyView {
    ProxyView {
        id: r.id,
        name: r.name,
        proxy_type: r.proxy_type,
        host: r.host,
        port: (r.port as int % 65536) as u16,
        username: r.username,
        password: r.password,
        is_primary: r.is_primary != 0,
    }
}

/// The row in which a rule is stored.
pub open spec fn rule_row(r: RuleView) -> RuleRowView {
    RuleRowView {
        id: r.id,
        process_name: r.process_name,
        action: r.action.text(),
        proxy_id: r.proxy_id,
    }
}

/// The action that a stored name stands for: every name but `Block` and `Direct` stands for the
/// proxy.
pub open spec fn stored_action(name: Seq<char>) -> RuleAction {
    if name == "Block"@ {
        RuleAction::Block
    } else if name == "Direct"@ {
        RuleAction::Direct
    } else {
        RuleAction::Proxy
    }
}

/// The rule that a row holds.
pub open spec fn row_rule(r: RuleRowView) -> RuleView {
    RuleView {
        id: r.id,
        process_name: r.process_name,
        action: stored_action(r.action),
        proxy_id: r.proxy_id,
    }
}

/// A time as the signed number in which it is stored, and back: the same 64 bits.
pub open spec fn signed_time(t: u64) -> i64 {
    if t <= i64::MAX {
        t as i64
    } else {
        (t - 0x1_0000_0000_0000_0000) as i64
    }
}

/// The time for which a stored signed number stands.
pub open spec fn unsigned_time(t: i64) -> u64 {
    if t >= 0 {
        t as u64
    } else {
        (t + 0x1_0000_0000_0000_0000) as u64
    }
}

/// The row in which a known process is stored.
pub open spec fn known_row(p: KnownView) -> KnownRowView {
    KnownRowView {
        process_name: p.process_name,
        group_action: p.group_action,
        proxy_id: p.proxy_id,
        created_at: signed_time(p.created_at),
    }
}

/// The known process that a row holds.
pub open spec fn row_known(r: KnownRowView) -> KnownView {
    KnownView {
        process_name: r.process_name,
        group_action: r.group_action,
        proxy_id: r.proxy_id,
        created_at: unsigned_time(r.created_at),
    }
}

/// The log line that a row holds.
pub open spec fn row_log(r: LogRowView) -> LogView {
    LogView {
        id: r.id,
        timestamp: unsigned_time(r.timestamp),
        level: r.level,
        source: r.source,
        message: r.message,
    }
}

/// The port that a stored number stands for.
pub fn port_of_number(n: i32) -> (r: u16)
    ensures
        r == n as int % 65536,
{
    let bits: u32 = n as u32;
    let r: u16 = (bits % 65536) as u16;
    assert(bits as int % 65536 == n as int % 65536) by {
        assert(n >= 0 ==> bits == n) by (bit_vector)
            requires
                bits == n as u32,
        ;
        assert(n < 0 ==> bits == n + 0x1_0000_0000) by (bit_vector)
            requires
                bits == n as u32,
        ;
    }
    r
}

/// A time as the signed number in which it is stored.
pub fn time_to_signed(t: u64) -> (r: i64)
    ensures
        r == signed_time(t),
{
    let r: i64 = t as i64;
    assert(t <= 0x7FFF_FFFF_FFFF_FFFF ==> r == t) by (bit_vector)
        requires
            r == t as i64,
    ;
    assert(t > 0x7FFF_FFFF_FFFF_FFFF ==> r == t - 0x1_0000_0000_0000_0000) by (bit_vector)
        requires
            r == t as i64,
    ;
    r
}

/// The time for which a stored signed number stands.
pub fn time_from_signed(t: i64) -> (r: u64)
    ensures
        r == unsigned_time(t),
{
    let r: u64 = t as u64;
    assert(t >= 0 ==> r == t) by (bit_vector)
        requires
            r == t as u64,
    ;
    assert(t < 0 ==> r == t + 0x1_0000_0000_0000_0000) by (bit_vector)
        requires
            r == t as u64,
    ;
    r
}

/// The action that a stored name stands for.
pub fn parse_action(name: &str) -> (r: RuleAction)
    ensures
        r == stored_action(name@),
{
    if same_text(name, "Block") {
        RuleAction::Block
    } else if same_text(name, "Direct") {
        RuleAction::Direct
    } else {
        RuleAction::Proxy
    }
}

/// The proxies that the rows of a query hold.
pub fn load_proxies(rows: Vec<ProxyRow>) -> (r: Vec<ProxyConfig>)
    ensures
        r@.len() == rows@.len(),
        forall|i: int| 0 <= i < r@.len() ==> #[trigger] r@[i]@ == row_proxy(rows@[i]@),
{
    let n: usize = rows.len();
    let mut r: Vec<ProxyConfig> = Vec::new();
    let mut i: usize = 0;
    while i < n
        invariant
            i <= n == rows@.len(),
            r@.len() == i,
            forall|j: int| 0 <= j < i ==> #[trigger] r@[j]@ == row_proxy(rows@[j]@),
        decreases n - i,
    {
        let row = &rows[i];
        let p = ProxyConfig {
            id: row.id.clone(),
            name: row.name.clone(),
            proxy_type: row.proxy_type.clone(),
            host: row.host.clone(),
            port: port_of_number(row.port),
            username: row.username.clone(),
            password: row.password.clone(),
            is_primary: row.is_primary != 0,
        };
        assert(p@ == row_proxy(rows@[i as int]@));
        r.push(p);
        i += 1;
    }
    r
}

/// The rules that the rows of a query hold.
pub fn load_rules(rows: Vec<RuleRow>) -> (r: Vec<Rule>)
    ensures
        r@.len() == rows@.len(),
        forall|i: int| 0 <= i < r@.len() ==> #[trigger] r@[i]@ == row_rule(rows@[i]@),
{
    let n: usize = rows.len();
    let mut r: Vec<Rule> = Vec::new();
    let mut i: usize = 0;
    while i < n
        invariant
            i <= n == rows@.len(),
            r@.len() == i,
            forall|j: int| 0 <= j < i ==> #[trigger] r@[j]@ == row_rule(rows@[j]@),
        decreases n - i,
    {
        let row = &rows[i];
        let rule = Rule {
            id: row.id.clone(),
            process_name: row.process_name.clone(),
            action: parse_action(row.action.as_str()),
            proxy_id: row.proxy_id.clone(),
        };
        assert(rule@ == row_rule(rows@[i as int]@));
        r.push(rule);
        i += 1;
    }
    r
}

/// The known processes that the rows of a query hold.
pub fn load_known_processes(rows: Vec<KnownRow>) -> (r: Vec<KnownProcess>)
    ensures
        r@.len() == rows@.len(),
        forall|i: int| 0 <= i < r@.len() ==> #[trigger] r@[i]@ == row_known(rows@[i]@),
{
    let n: usize = rows.len();
    let mut r: Vec<KnownProcess> = Vec::new();
    let mut i: usize = 0;
    while i < n
        invariant
            i <= n == rows@.len(),
            r@.len() == i,
            forall|j: int| 0 <= j < i ==> #[trigger] r@[j]@ == row_known(rows@[j]@),
        decreases n - i,
    {
        let row = &rows[i];
        let p = KnownProcess {
            process_name: row.process_name.clone(),
            group_action: row.group_action.clone(),
            proxy_id: row.proxy_id.clone(),
            created_at: time_from_signed(row.created_at),
        };
        assert(p@ == row_known(rows@[i as int]@));
        r.push(p);
        i += 1;
    }
    r
}

/// The log lines that the rows of a query hold.
pub fn load_logs(rows: Vec<LogRow>) -> (r: Vec<LogEntry>)
    ensures
        r@.len() == rows@.len(),
        forall|i: int| 0 <= i < r@.len() ==> #[trigger] r@[i]@ == row_log(rows@[i]@),
{
    let n: usize = rows.len();
    let mut r: Vec<LogEntry> = Vec::new();
    let mut i: usize = 0;
    while i < n
        invariant
            i <= n == rows@.len(),
            r@.len() == i,
            forall|j: int| 0 <= j < i ==> #[trigger] r@[j]@ == row_log(rows@[j]@),
        decreases n - i,
    {
        let row = &rows[i];
        let e = LogEntry {
            id: row.id,
            timestamp: time_from_signed(row.timestamp),
            level: row.level.clone(),
            source: row.source.clone(),
            message: row.message.clone(),
        };
        assert(e@ == row_log(rows@[i as int]@));
        r.push(e);
        i += 1;
    }
    r
}

// ---------------------------------------------------------------------------------------------
// Settings
// ---------------------------------------------------------------------------------------------

/// A flag that is saved between runs.
#[derive(Clone, Copy, Debug, PartialEq, Eq, Structural)]
pub enum SettingKey {
    ProxyDns,
    BypassLocal,
    Autostart,
    MinimizeToTray,
    StartMinimized,
}

impl SettingKey {
    /// The key under which the flag is stored.
    pub open spec fn text(self) -> Seq<char> {
        match self {
            SettingKey::ProxyDns => "proxy_dns"@,
            SettingKey::BypassLocal => "bypass_local"@,
            SettingKey::Autostart => "autostart"@,
            SettingKey::MinimizeToTray => "minimize_to_tray"@,
            SettingKey::StartMinimized => "start_minimized"@,
        }
    }

    /// The value of a flag that was never set.
    pub open spec fn default_value(self) -> bool {
        match self {
            SettingKey::ProxyDns => true,
            SettingKey::BypassLocal => false,
            SettingKey::Autostart => true,
            SettingKey::MinimizeToTray => true,
            SettingKey::StartMinimized => false,
        }
    }

    /// The value of the flag among settings.
    pub open spec fn of(self, f: Settings) -> bool {
        match self {
            SettingKey::ProxyDns => f.proxy_dns,
            SettingKey::BypassLocal => f.bypass_local,
            SettingKey::Autostart => f.autostart,
            SettingKey::MinimizeToTray => f.minimize_to_tray,
            SettingKey::StartMinimized => f.start_minimized,
        }
    }

    /// The key under which the flag is stored.
    pub fn to_text(self) -> (r: String)
        ensures
            r@ == self.text(),
    {
        match self {
            SettingKey::ProxyDns => "proxy_dns".to_string(),
            SettingKey::BypassLocal => "bypass_local".to_string(),
            SettingKey::Autostart => "autostart".to_string(),
            SettingKey::MinimizeToTray => "minimize_to_tray".to_string(),
            SettingKey::StartMinimized => "start_minimized".to_string(),
        }
    }

    /// The value of a flag that was never set.
    pub fn default_flag(self) -> (r: bool)
        ensures
            r == self.default_value(),
    {
        match self {
            SettingKey::ProxyDns => true,
            SettingKey::BypassLocal => false,
            SettingKey::Autostart => true,
            SettingKey::MinimizeToTray => true,
            SettingKey::StartMinimized => false,
        }
    }
}

/// The flags, in the order in which they are set up.
pub open spec fn setting_keys() -> Seq<SettingKey> {
    seq![
        SettingKey::ProxyDns,
        SettingKey::BypassLocal,
        SettingKey::Autostart,
        SettingKey::MinimizeToTray,
        SettingKey::StartMinimized,
    ]
}

/// The flags, in the order in which they are set up.
pub fn all_setting_keys() -> (r: Vec<SettingKey>)
    ensures
        r@ == setting_keys(),
{
    let mut v: Vec<SettingKey> = Vec::new();
    v.push(SettingKey::ProxyDns);
    v.push(SettingKey::BypassLocal);
    v.push(SettingKey::Autostart);
    v.push(SettingKey::MinimizeToTray);
    v.push(SettingKey::StartMinimized);
    assert(v@ =~= setting_keys());
    v
}

/// The text in which a flag is stored.
pub open spec fn flag_text(b: bool) -> Seq<char> {
    if b {
        "true"@
    } else {
        "false"@
    }
}

/// The flag that a stored text stands for: only `true` is true, and a missing text leaves the
/// flag as it was before it was ever set.
pub open spec fn stored_flag(k: SettingKey, value: Option<Seq<char>>) -> bool {
    match value {
        Some(v) => v == "true"@,
        None => k.default_value(),
    }
}

/// The flag that a stored text stands for.
pub fn parse_flag(k: SettingKey, value: &Option<String>) -> (r: bool)
    ensures
        r == stored_flag(k, text_option(*value)),
{
    match value {
        Some(v) => same_text(v.as_str(), "true"),
        None => k.default_flag(),
    }
}

/// The settings that the stored texts stand for.
pub fn load_settings(
    proxy_dns: &Option<String>,
    bypass_local: &Option<String>,
    autostart: &Option<String>,
    minimize_to_tray: &Option<String>,
    start_minimized: &Option<String>,
) -> (r: Settings)
    ensures
        r.proxy_dns == stored_flag(SettingKey::ProxyDns, text_option(*proxy_dns)),
        r.bypass_local == stored_flag(SettingKey::BypassLocal, text_option(*bypass_local)),
        r.autostart == stored_flag(SettingKey::Autostart, text_option(*autostart)),
        r.minimize_to_tray == stored_flag(
            SettingKey::MinimizeToTray,
            text_option(*minimize_to_tray),
        ),
        r.start_minimized == stored_flag(SettingKey::StartMinimized, text_option(*start_minimized)),
{
    Settings {
        proxy_dns: parse_flag(SettingKey::ProxyDns, proxy_dns),
        bypass_local: parse_flag(SettingKey::BypassLocal, bypass_local),
        autostart: parse_flag(SettingKey::Autostart, autostart),
        minimize_to_tray: parse_flag(SettingKey::MinimizeToTray, minimize_to_tray),
        start_minimized: parse_flag(SettingKey::StartMinimized, start_minimized),
    }
}

// ---------------------------------------------------------------------------------------------
// Commands
// ---------------------------------------------------------------------------------------------

/// A table of the store.
#[derive(Clone, Copy, Debug, PartialEq, Eq, Structural)]
pub enum StoreTable {
    Proxies,
    Rules,
    Settings,
    KnownProcesses,
    Logs,
}

/// A change to the store.
#[derive(Debug, PartialEq, Eq)]
pub enum Command {
    /// Create a table, unless it is there.
    Create(StoreTable),
    /// Add a flag that is not there.
    InsertSetting(SettingKey, bool),
    /// Set a flag.
    PutSetting(SettingKey, bool),
    /// Make no proxy primary.
    ClearPrimary,
    /// Put a proxy in place of the one with its identifier.
    PutProxy(ProxyRow),
    /// Remove the proxy with this identifier.
    DeleteProxy(String),
    /// Remove all rules.
    DeleteRules,
    /// Add a rule; its identifier must be a new one.
    InsertRule(RuleRow),
    /// Put a known process in place of the one with its name.
    PutKnown(KnownRow),
    /// Add a process of this name, seen at this time, to the group `new`, unless it is known.
    AddKnown(String, i64),
    /// Add a log line: its time, level, source and message.
    InsertLog(i64, String, String, String),
    /// Remove all log lines but the last.
    TrimLogs,
    /// Remove all log lines.
    ClearLogs,
}

/// The model of a [`Command`].
#[verifier::ext_equal]
pub enum CommandView {
    Create(StoreTable),
    InsertSetting(SettingKey, bool),
    PutSetting(SettingKey, bool),
    ClearPrimary,
    PutProxy(ProxyRowView),
    DeleteProxy(Seq<char>),
    DeleteRules,
    InsertRule(RuleRowView),
    PutKnown(KnownRowView),
    AddKnown(Seq<char>, i64),
    InsertLog(i64, Seq<char>, Seq<char>, Seq<char>),
    TrimLogs,
    ClearLogs,
}

impl View for Command {
    type V = CommandView;

    open spec fn view(&self) -> CommandView {
        match self {
            Command::Create(t) => CommandView::Create(*t),
            Command::InsertSetting(k, b) => CommandView::InsertSetting(*k, *b),
            Command::PutSetting(k, b) => CommandView::PutSetting(*k, *b),
            Command::ClearPrimary => CommandView::ClearPrimary,
            Command::PutProxy(r) => CommandView::PutProxy(r@),
            Command::DeleteProxy(id) => CommandView::DeleteProxy(id@),
            Command::DeleteRules => CommandView::DeleteRules,
            Command::InsertRule(r) => CommandView::InsertRule(r@),
            Command::PutKnown(r) => CommandView::PutKnown(r@),
            Command::AddKnown(n, t) => CommandView::AddKnown(n@, *t),
            Command::InsertLog(t, l, s, m) => CommandView::InsertLog(*t, l@, s@, m@),
            Command::TrimLogs => CommandView::TrimLogs,
            Command::ClearLogs => CommandView::ClearLogs,
        }
    }
}

/// A parameter of a statement.
#[derive(Debug, PartialEq, Eq)]
pub enum SqlValue {
    Text(String),
    Integer(i64),
    Null,
}

/// The model of a [`SqlValue`].
#[verifier::ext_equal]
pub enum SqlView {
    Text(Seq<char>),
    Integer(i64),
    Null,
}

impl View for SqlValue {
    type V = SqlView;

    open spec fn view(&self) -> SqlView {
        match self {
            SqlValue::Text(s) => SqlView::Text(s@),
            SqlValue::Integer(n) => SqlView::Integer(*n),
            SqlValue::Null => SqlView::Null,
        }
    }
}

/// An SQL statement with its parameters.
#[derive(Debug, PartialEq, Eq)]
pub struct Statement {
    pub sql: String,
    pub params: Vec<SqlValue>,
}

/// A text that may be missing, as a parameter.
pub open spec fn sql_option(o: Option<Seq<char>>) -> SqlView {
    match o {
        Some(s) => SqlView::Text(s),
        None => SqlView::Null,
    }
}

/// The statement that creates a table.
pub open spec fn create_sql(t: StoreTable) -> Seq<char> {
    match t {
        StoreTable::Proxies => "CREATE TABLE IF NOT EXISTS proxies (id TEXT PRIMARY KEY, name TEXT NOT NULL, proxy_type TEXT NOT NULL, host TEXT NOT NULL, port INTEGER NOT NULL, username TEXT, password TEXT, is_primary INTEGER NOT NULL DEFAULT 0)"@,
        StoreTable::Rules => "CREATE TABLE IF NOT EXISTS rules (id TEXT PRIMARY KEY, process_name TEXT NOT NULL, action TEXT NOT NULL, proxy_id TEXT)"@,
        StoreTable::Settings => "CREATE TABLE IF NOT EXISTS settings (key TEXT PRIMARY KEY, value TEXT NOT NULL)"@,
        StoreTable::KnownProcesses => "CREATE TABLE IF NOT EXISTS known_processes (process_name TEXT PRIMARY KEY, group_action TEXT NOT NULL DEFAULT 'new', proxy_id TEXT, created_at INTEGER NOT NULL)"@,
        StoreTable::Logs => "CREATE TABLE IF NOT EXISTS app_logs (id INTEGER PRIMARY KEY AUTOINCREMENT, timestamp INTEGER NOT NULL, level TEXT NOT NULL, source TEXT NOT NULL, message TEXT NOT NULL)"@,
    }
}

/// The SQL text of a command.
pub open spec fn command_sql(c: CommandView) -> Seq<char> {
    match c {
        CommandView::Create(t) => create_sql(t),
        CommandView::InsertSetting(_, _) => "INSERT INTO settings (key, value) VALUES (?1, ?2)"@,
        CommandView::PutSetting(_, _) => "INSERT OR REPLACE INTO settings (key, value) VALUES (?1, ?2)"@,
        CommandView::ClearPrimary => "UPDATE proxies SET is_primary = 0"@,
        CommandView::PutProxy(_) => "INSERT OR REPLACE INTO proxies (id, name, proxy_type, host, port, username, password, is_primary) VALUES (?1, ?2, ?3, ?4, ?5, ?6, ?7, ?8)"@,
        CommandView::DeleteProxy(_) => "DELETE FROM proxies WHERE id = ?1"@,
        CommandView::DeleteRules => "DELETE FROM rules"@,
        CommandView::InsertRule(_) => "INSERT INTO rules (id, process_name, action, proxy_id) VALUES (?1, ?2, ?3, ?4)"@,
        CommandView::PutKnown(_) => "INSERT OR REPLACE INTO known_processes (process_name, group_action, proxy_id, created_at) VALUES (?1, ?2, ?3, ?4)"@,
        CommandView::AddKnown(_, _) => "INSERT OR IGNORE INTO known_processes (process_name, group_action, proxy_id, created_at) VALUES (?1, 'new', NULL, ?2)"@,
        CommandView::InsertLog(_, _, _, _) => "INSERT INTO app_logs (timestamp, level, source, message) VALUES (?1, ?2, ?3, ?4)"@,
        CommandView::TrimLogs => "DELETE FROM app_logs WHERE id NOT IN (SELECT id FROM app_logs ORDER BY id DESC LIMIT 300)"@,
        CommandView::ClearLogs => "DELETE FROM app_logs"@,
    }
}

/// The parameters of a command.
pub open spec fn command_params(c: CommandView) -> Seq<SqlView> {
    match c {
        CommandView::InsertSetting(k, b) => seq![SqlView::Text(k.text()), SqlView::Text(flag_text(b))],
        CommandView::PutSetting(k, b) => seq![SqlView::Text(k.text()), SqlView::Text(flag_text(b))],
        CommandView::PutProxy(r) => seq![
            SqlView::Text(r.id),
            SqlView::Text(r.name),
            SqlView::Text(r.proxy_type),
            SqlView::Text(r.host),
            SqlView::Integer(r.port as i64),
            sql_option(r.username),
            sql_option(r.password),
            SqlView::Integer(r.is_primary as i64),
        ],
        CommandView::DeleteProxy(id) => seq![SqlView::Text(id)],
        CommandView::InsertRule(r) => seq![
            SqlView::Text(r.id),
            SqlView::Text(r.process_name),
            SqlView::Text(r.action),
            sql_option(r.proxy_id),
        ],
        CommandView::PutKnown(r) => seq![
            SqlView::Text(r.process_name),
            SqlView::Text(r.group_action),
            sql_option(r.proxy_id),
            SqlView::Integer(r.created_at),
        ],
        CommandView::AddKnown(n, t) => seq![SqlView::Text(n), SqlView::Integer(t)],
        CommandView::InsertLog(t, l, s, m) => seq![
            SqlView::Integer(t),
            SqlView::Text(l),
            SqlView::Text(s),
            SqlView::Text(m),
        ],
        _ => Seq::empty(),
    }
}

/// A text as a parameter.
fn text_param(s: &String) -> (r: SqlValue)
    ensures
        r@ == SqlView::Text(s@),
{
    SqlValue::Text(s.clone())
}

/// A text that may be missing, as a parameter.
fn option_param(o: &Option<String>) -> (r: SqlValue)
    ensures
        r@ == sql_option(text_option(*o)),
{
    match o {
        Some(s) => SqlValue::Text(s.clone()),
        None => SqlValue::Null,
    }
}

/// The text in which a flag is stored.
pub fn flag_to_text(b: bool) -> (r: String)
    ensures
        r@ == flag_text(b),
{
    if b {
        "true".to_string()
    } else {
        "false".to_string()
    }
}

/// The parameters that store a flag.
fn flag_params(k: SettingKey, b: bool) -> (r: Vec<SqlValue>)
    ensures
        views(r@) == seq![SqlView::Text(k.text()), SqlView::Text(flag_text(b))],
{
    let mut v: Vec<SqlValue> = Vec::new();
    v.push(SqlValue::Text(k.to_text()));
    v.push(SqlValue::Text(flag_to_text(b)));
    assert(views(v@) =~= seq![SqlView::Text(k.text()), SqlView::Text(flag_text(b))]);
    v
}

/// The statement that creates a table.
fn create_text(t: StoreTable) -> (r: String)
    ensures
        r@ == create_sql(t),
{
    match t {
        StoreTable::Proxies => "CREATE TABLE IF NOT EXISTS proxies (id TEXT PRIMARY KEY, name TEXT NOT NULL, proxy_type TEXT NOT NULL, host TEXT NOT NULL, port INTEGER NOT NULL, username TEXT, password TEXT, is_primary INTEGER NOT NULL DEFAULT 0)".to_string(),
        StoreTable::Rules => "CREATE TABLE IF NOT EXISTS rules (id TEXT PRIMARY KEY, process_name TEXT NOT NULL, action TEXT NOT NULL, proxy_id TEXT)".to_string(),
        StoreTable::Settings => "CREATE TABLE IF NOT EXISTS settings (key TEXT PRIMARY KEY, value TEXT NOT NULL)".to_string(),
        StoreTable::KnownProcesses => "CREATE TABLE IF NOT EXISTS known_processes (process_name TEXT PRIMARY KEY, group_action TEXT NOT NULL DEFAULT 'new', proxy_id TEXT, created_at INTEGER NOT NULL)".to_string(),
        StoreTable::Logs => "CREATE TABLE IF NOT EXISTS app_logs (id INTEGER PRIMARY KEY AUTOINCREMENT, timestamp INTEGER NOT NULL, level TEXT NOT NULL, source TEXT NOT NULL, message TEXT NOT NULL)".to_string(),
    }
}

impl Command {
    /// The SQL text of the command.
    fn sql(&self) -> (r: String)
        ensures
            r@ == command_sql(self@),
    {
        match self {
            Command::Create(t) => create_text(*t),
            Command::InsertSetting(_, _) => "INSERT INTO settings (key, value) VALUES (?1, ?2)".to_string(),
            Command::PutSetting(_, _) => "INSERT OR REPLACE INTO settings (key, value) VALUES (?1, ?2)".to_string(),
            Command::ClearPrimary => "UPDATE proxies SET is_primary = 0".to_string(),
            Command::PutProxy(_) => "INSERT OR REPLACE INTO proxies (id, name, proxy_type, host, port, username, password, is_primary) VALUES (?1, ?2, ?3, ?4, ?5, ?6, ?7, ?8)".to_string(),
            Command::DeleteProxy(_) => "DELETE FROM proxies WHERE id = ?1".to_string(),
            Command::DeleteRules => "DELETE FROM rules".to_string(),
            Command::InsertRule(_) => "INSERT INTO rules (id, process_name, action, proxy_id) VALUES (?1, ?2, ?3, ?4)".to_string(),
            Command::PutKnown(_) => "INSERT OR REPLACE INTO known_processes (process_name, group_action, proxy_id, created_at) VALUES (?1, ?2, ?3, ?4)".to_string(),
            Command::AddKnown(_, _) => "INSERT OR IGNORE INTO known_processes (process_name, group_action, proxy_id, created_at) VALUES (?1, 'new', NULL, ?2)".to_string(),
            Command::InsertLog(_, _, _, _) => "INSERT INTO app_logs (timestamp, level, source, message) VALUES (?1, ?2, ?3, ?4)".to_string(),
            Command::TrimLogs => "DELETE FROM app_logs WHERE id NOT IN (SELECT id FROM app_logs ORDER BY id DESC LIMIT 300)".to_string(),
            Command::ClearLogs => "DELETE FROM app_logs".to_string(),
        }
    }

    /// The parameters of the command.
    fn params(&self) -> (r: Vec<SqlValue>)
        ensures
            views(r@) == command_params(self@),
    {
        let mut v: Vec<SqlValue> = Vec::new();
        match self {
            Command::InsertSetting(k, b) => {
                return flag_params(*k, *b);
            },
            Command::PutSetting(k, b) => {
                return flag_params(*k, *b);
            },
            Command::PutProxy(r) => {
                v.push(text_param(&r.id));
                v.push(text_param(&r.name));
                v.push(text_param(&r.proxy_type));
                v.push(text_param(&r.host));
                v.push(SqlValue::Integer(r.port as i64));
                v.push(option_param(&r.username));
                v.push(option_param(&r.password));
                v.push(SqlValue::Integer(r.is_primary as i64));
            },
            Command::DeleteProxy(id) => {
                v.push(text_param(id));
            },
            Command::InsertRule(r) => {
                v.push(text_param(&r.id));
                v.push(text_param(&r.process_name));
                v.push(text_param(&r.action));
                v.push(option_param(&r.proxy_id));
            },
            Command::PutKnown(r) => {
                v.push(text_param(&r.process_name));
                v.push(text_param(&r.group_action));
                v.push(option_param(&r.proxy_id));
                v.push(SqlValue::Integer(r.created_at));
            },
            Command::AddKnown(n, t) => {
                v.push(text_param(n));
                v.push(SqlValue::Integer(*t));
            },
            Command::InsertLog(t, l, s, m) => {
                v.push(SqlValue::Integer(*t));
                v.push(text_param(l));
                v.push(text_param(s));
                v.push(text_param(m));
            },
            _ => {},
        }
        assert(views(v@) =~= command_params(self@));
        v
    }

    /// The statement that carries out the command.
    pub fn statement(&self) -> (r: Statement)
        ensures
            r.sql@ == command_sql(self@),
            views(r.params@) == command_params(self@),
    {
        Statement { sql: self.sql(), params: self.params() }
    }
}

// ---------------------------------------------------------------------------------------------
// Queries
// ---------------------------------------------------------------------------------------------

/// A question to the store.
#[derive(Clone, Copy, Debug, PartialEq, Eq, Structural)]
pub enum Query {
    /// How often a flag is there.
    SettingCount,
    /// The text of a flag.
    SettingValue,
    Proxies,
    Rules,
    /// The known processes, the latest first.
    KnownProcesses,
    /// The last log lines, the latest first.
    Logs,
}

/// The SQL text of a question.
pub open spec fn query_sql(q: Query) -> Seq<char> {
    match q {
        Query::SettingCount => "SELECT COUNT(*) FROM settings WHERE key = ?1"@,
        Query::SettingValue => "SELECT value FROM settings WHERE key = ?1"@,
        Query::Proxies => "SELECT id, name, proxy_type, host, port, username, password, is_primary FROM proxies"@,
        Query::Rules => "SELECT id, process_name, action, proxy_id FROM rules"@,
        Query::KnownProcesses => "SELECT process_name, group_action, proxy_id, created_at FROM known_processes ORDER BY created_at DESC"@,
        Query::Logs => "SELECT id, timestamp, level, source, message FROM app_logs ORDER BY id DESC LIMIT 300"@,
    }
}

/// The SQL text of a question.
pub fn query_text(q: Query) -> (r: String)
    ensures
        r@ == query_sql(q),
{
    match q {
        Query::SettingCount => "SELECT COUNT(*) FROM settings WHERE key = ?1".to_string(),
        Query::SettingValue => "SELECT value FROM settings WHERE key = ?1".to_string(),
        Query::Proxies => "SELECT id, name, proxy_type, host, port, username, password, is_primary FROM proxies".to_string(),
        Query::Rules => "SELECT id, process_name, action, proxy_id FROM rules".to_string(),
        Query::KnownProcesses => "SELECT process_name, group_action, proxy_id, created_at FROM known_processes ORDER BY created_at DESC".to_string(),
        Query::Logs => "SELECT id, timestamp, level, source, message FROM app_logs ORDER BY id DESC LIMIT 300".to_string(),
    }
}

// ---------------------------------------------------------------------------------------------
// Operations
// ---------------------------------------------------------------------------------------------

/// The commands that create the tables.
pub open spec fn creation() -> Seq<CommandView> {
    seq![
        CommandView::Create(StoreTable::Proxies),
        CommandView::Create(StoreTable::Rules),
        CommandView::Create(StoreTable::Settings),
        CommandView::Create(StoreTable::KnownProcesses),
        CommandView::Create(StoreTable::Logs),
    ]
}

/// The commands that create the tables.
pub fn init_db() -> (r: Vec<Command>)
    ensures
        views(r@) == creation(),
{
    let mut v: Vec<Command> = Vec::new();
    v.push(Command::Create(StoreTable::Proxies));
    v.push(Command::Create(StoreTable::Rules));
    v.push(Command::Create(StoreTable::Settings));
    v.push(Command::Create(StoreTable::KnownProcesses));
    v.push(Command::Create(StoreTable::Logs));
    assert(views(v@) =~= creation());
    v
}

/// What setting up one flag takes.
pub struct FlagSetup {
    /// The command to carry out, if any.
    pub command: Option<Command>,
    /// Whether the program is then to be registered to start with the system.
    pub register_autostart: bool,
}

/// The commands that set up a flag that is stored `count` times: one that is not there gets its
/// default value.
pub open spec fn flag_setting_up(k: SettingKey, count: i64) -> Seq<CommandView> {
    if count == 0 {
        seq![CommandView::InsertSetting(k, k.default_value())]
    } else {
        Seq::empty()
    }
}

/// Setting up a flag that is stored `count` times is followed by registering the program to start
/// with the system: where the flag for that was not there.
pub open spec fn registers_autostart(k: SettingKey, count: i64) -> bool {
    count == 0 && k == SettingKey::Autostart
}

/// What setting up a flag takes that is stored `count` times.
pub fn set_up_flag(k: SettingKey, count: i64) -> (r: FlagSetup)
    ensures
        flag_setting_up(k, count) == (match r.command {
            Some(c) => seq![c@],
            None => Seq::empty(),
        }),
        r.register_autostart == registers_autostart(k, count),
{
    if count == 0 {
        let register_autostart: bool = match k {
            SettingKey::Autostart => true,
            _ => false,
        };
        FlagSetup { command: Some(Command::InsertSetting(k, k.default_flag())), register_autostart }
    } else {
        FlagSetup { command: None, register_autostart: false }
    }
}

/// The commands that store a proxy: a primary one takes that rank from all others first.
pub open spec fn proxy_saving(p: ProxyView) -> Seq<CommandView> {
    if p.is_primary {
        seq![CommandView::ClearPrimary, CommandView::PutProxy(proxy_row(p))]
    } else {
        seq![CommandView::PutProxy(proxy_row(p))]
    }
}

/// The commands that store a proxy.
pub fn save_proxy(proxy: &ProxyConfig) -> (r: Vec<Command>)
    ensures
        views(r@) == proxy_saving(proxy@),
{
    let mut v: Vec<Command> = Vec::new();
    if proxy.is_primary {
        v.push(Command::ClearPrimary);
    }
    v.push(
        Command::PutProxy(
            ProxyRow {
                id: proxy.id.clone(),
                name: proxy.name.clone(),
                proxy_type: proxy.proxy_type.clone(),
                host: proxy.host.clone(),
                port: proxy.port as i32,
                username: proxy.username.clone(),
                password: proxy.password.clone(),
                is_primary: if proxy.is_primary {
                    1
                } else {
                    0
                },
            },
        ),
    );
    assert(views(v@) =~= proxy_saving(proxy@));
    v
}

/// The commands that remove a proxy.
pub fn delete_proxy(id: &str) -> (r: Vec<Command>)
    ensures
        views(r@) == seq![CommandView::DeleteProxy(id@)],
{
    let mut v: Vec<Command> = Vec::new();
    v.push(Command::DeleteProxy(id.to_string()));
    assert(views(v@) =~= seq![CommandView::DeleteProxy(id@)]);
    v
}

/// The commands that store rules in place of all that are there.
pub open spec fn rules_saving(rules: Seq<RuleView>) -> Seq<CommandView> {
    seq![CommandView::DeleteRules] + Seq::new(
        rules.len(),
        |i: int| CommandView::InsertRule(rule_row(rules[i])),
    )
}

/// The commands that store rules in place of all that are there.
pub fn save_rules(rules: &Vec<Rule>) -> (r: Vec<Command>)
    ensures
        views(r@) == rules_saving(views(rules@)),
{
    let n: usize = rules.len();
    let ghost all = views(rules@);
    let mut v: Vec<Command> = Vec::new();
    v.push(Command::DeleteRules);
    let mut i: usize = 0;
    assert(views(v@) =~= rules_saving(all.take(0)));
    while i < n
        invariant
            i <= n == rules@.len(),
            all == views(rules@),
            views(v@) == rules_saving(all.take(i as int)),
        decreases n - i,
    {
        let rule = &rules[i];
        let row = RuleRow {
            id: rule.id.clone(),
            process_name: rule.process_name.clone(),
            action: rule.action.to_text(),
            proxy_id: rule.proxy_id.clone(),
        };
        assert(row@ == rule_row(all[i as int]));
        let ghost before = v@;
        v.push(Command::InsertRule(row));
        assert(views(v@) =~= views(before).push(CommandView::InsertRule(row@)));
        assert(views(v@) =~= rules_saving(all.take(i + 1)));
        i += 1;
    }
    assert(all.take(n as int) =~= all);
    v
}

/// The commands that store the settings.
pub open spec fn settings_saving(f: Settings) -> Seq<CommandView> {
    setting_keys().map_values(|k: SettingKey| CommandView::PutSetting(k, k.of(f)))
}

/// The commands that store the settings.
pub fn save_settings(f: Settings) -> (r: Vec<Command>)
    ensures
        views(r@) == settings_saving(f),
{
    let mut v: Vec<Command> = Vec::new();
    v.push(Command::PutSetting(SettingKey::ProxyDns, f.proxy_dns));
    v.push(Command::PutSetting(SettingKey::BypassLocal, f.bypass_local));
    v.push(Command::PutSetting(SettingKey::Autostart, f.autostart));
    v.push(Command::PutSetting(SettingKey::MinimizeToTray, f.minimize_to_tray));
    v.push(Command::PutSetting(SettingKey::StartMinimized, f.start_minimized));
    assert(views(v@) =~= settings_saving(f));
    v
}

/// The commands that store a known process.
pub fn save_known_process(p: &KnownProcess) -> (r: Vec<Command>)
    ensures
        views(r@) == seq![CommandView::PutKnown(known_row(p@))],
{
    let mut v: Vec<Command> = Vec::new();
    v.push(
        Command::PutKnown(
            KnownRow {
                process_name: p.process_name.clone(),
                group_action: p.group_action.clone(),
                proxy_id: p.proxy_id.clone(),
                created_at: time_to_signed(p.created_at),
            },
        ),
    );
    assert(views(v@) =~= seq![CommandView::PutKnown(known_row(p@))]);
    v
}

/// The commands that make processes known, seen at `now`.
pub open spec fn names_saving(names: Seq<Seq<char>>, now: i64) -> Seq<CommandView> {
    names.map_values(|n: Seq<char>| CommandView::AddKnown(n, now))
}

/// The commands that make processes known, seen at `now`.
pub fn upsert_new_processes(process_names: &Vec<String>, now: i64) -> (r: Vec<Command>)
    ensures
        views(r@) == names_saving(views(process_names@), now),
{
    let n: usize = process_names.len();
    let ghost all = views(process_names@);
    let mut v: Vec<Command> = Vec::new();
    let mut i: usize = 0;
    assert(views(v@) =~= names_saving(all.take(0), now));
    while i < n
        invariant
            i <= n == process_names@.len(),
            all == views(process_names@),
            views(v@) == names_saving(all.take(i as int), now),
        decreases n - i,
    {
        let ghost before = v@;
        v.push(Command::AddKnown(process_names[i].clone(), now));
        assert(views(v@) =~= views(before).push(CommandView::AddKnown(all[i as int], now)));
        assert(views(v@) =~= names_saving(all.take(i + 1), now));
        i += 1;
    }
    assert(all.take(n as int) =~= all);
    v
}

/// The commands that add a log line, at the time `now`, and drop the oldest ones.
pub fn insert_log(level: &str, source: &str, message: &str, now: i64) -> (r: Vec<Command>)
    ensures
        views(r@) == seq![
            CommandView::InsertLog(now, level@, source@, message@),
            CommandView::TrimLogs,
        ],
{
    let mut v: Vec<Command> = Vec::new();
    v.push(
        Command::InsertLog(now, level.to_string(), source.to_string(), message.to_string()),
    );
    v.push(Command::TrimLogs);
    assert(views(v@) =~= seq![
        CommandView::InsertLog(now, level@, source@, message@),
        CommandView::TrimLogs,
    ]);
    v
}

/// The commands that remove all log lines.
pub fn clear_logs() -> (r: Vec<Command>)
    ensures
        views(r@) == seq![CommandView::ClearLogs],
{
    let mut v: Vec<Command> = Vec::new();
    v.push(Command::ClearLogs);
    assert(views(v@) =~= seq![CommandView::ClearLogs]);
    v
}

/// Whether the program is to be registered to start with the system, or the registration to be
/// taken back, once the commands that store the settings were carried out: the registration
/// follows the flag. Where one of them failed, neither is done.
pub fn registration_after_saving(f: Settings, written: bool) -> (r: Option<bool>)
    ensures
        r == (if written {
            Some(f.autostart)
        } else {
            None
        }),
{
    if written {
        Some(f.autostart)
    } else {
        None
    }
}

// ---------------------------------------------------------------------------------------------
// Starting with the system
// ---------------------------------------------------------------------------------------------

/// A program to run, with its arguments.
#[derive(Debug, PartialEq, Eq)]
pub struct CommandLine {
    pub program: String,
    pub args: Vec<String>,
}

/// The model of a [`CommandLine`].
#[verifier::ext_equal]
pub struct CommandLineView {
    pub program: Seq<char>,
    pub args: Seq<Seq<char>>,
}

impl View for CommandLine {
    type V = CommandLineView;

    open spec fn view(&self) -> CommandLineView {
        CommandLineView { program: self.program@, args: views(self.args@) }
    }
}

/// The call that removes a value from the registry's list of programs to run.
pub open spec fn registry_removal(name: Seq<char>) -> CommandLineView {
    CommandLineView {
        program: "reg"@,
        args: seq![
            "delete"@,
            "HKCU\\Software\\Microsoft\\Windows\\CurrentVersion\\Run"@,
            "/v"@,
            name,
            "/f"@,
        ],
    }
}

/// The call that has the system start a program when a user logs on, or no longer.
pub open spec fn task_change(enabled: bool, exe: Seq<char>) -> CommandLineView {
    CommandLineView {
        program: "schtasks"@,
        args: if enabled {
            seq![
                "/create"@,
                "/tn"@,
                "AppProxyBridge"@,
                "/tr"@,
                "\""@ + exe + "\""@,
                "/sc"@,
                "onlogon"@,
                "/rl"@,
                "highest"@,
                "/f"@,
            ]
        } else {
            seq!["/delete"@, "/tn"@, "AppProxyBridge"@, "/f"@]
        },
    }
}

/// The call that removes a value from the registry's list of programs to run.
fn remove_from_registry(name: &str) -> (r: CommandLine)
    ensures
        r@ == registry_removal(name@),
{
    let mut args: Vec<String> = Vec::new();
    args.push("delete".to_string());
    args.push("HKCU\\Software\\Microsoft\\Windows\\CurrentVersion\\Run".to_string());
    args.push("/v".to_string());
    args.push(name.to_string());
    args.push("/f".to_string());
    assert(views(args@) =~= registry_removal(name@).args);
    CommandLine { program: "reg".to_string(), args }
}

/// The calls that have the system start the program `exe_path` when a user logs on, or no
/// longer: entries of former versions are removed first.
pub fn set_autostart(enabled: bool, exe_path: &str) -> (r: Vec<CommandLine>)
    ensures
        views(r@) == seq![
            registry_removal("Proxier"@),
            registry_removal("AppProxyBridge"@),
            task_change(enabled, exe_path@),
        ],
{
    let mut args: Vec<String> = Vec::new();
    if enabled {
        let mut quoted = "\"".to_string();
        quoted.append(exe_path);
        quoted.append("\"");
        args.push("/create".to_string());
        args.push("/tn".to_string());
        args.push("AppProxyBridge".to_string());
        args.push("/tr".to_string());
        args.push(quoted);
        args.push("/sc".to_string());
        args.push("onlogon".to_string());
        args.push("/rl".to_string());
        args.push("highest".to_string());
        args.push("/f".to_string());
    } else {
        args.push("/delete".to_string());
        args.push("/tn".to_string());
        args.push("AppProxyBridge".to_string());
        args.push("/f".to_string());
    }
    assert(views(args@) =~= task_change(enabled, exe_path@).args);
    let mut v: Vec<CommandLine> = Vec::new();
    v.push(remove_from_registry("Proxier"));
    v.push(remove_from_registry("AppProxyBridge"));
    v.push(CommandLine { program: "schtasks".to_string(), args });
    assert(views(v@) =~= seq![
        registry_removal("Proxier"@),
        registry_removal("AppProxyBridge"@),
        task_change(enabled, exe_path@),
    ]);
    v
}

// ---------------------------------------------------------------------------------------------
// Laws on rows and commands
// ---------------------------------------------------------------------------------------------

/// A row of the table of proxies holds each part of the proxy under its own name, its port as the
/// same number, and a number that is not zero exactly where the proxy is primary. What is read
/// from a row is, part for part, what it holds.
pub proof fn proxy_rows_hold_each_part(p: ProxyView, r: ProxyRowView)
    ensures
        proxy_row(p).id == p.id,
        proxy_row(p).name == p.name,
        proxy_row(p).proxy_type == p.proxy_type,
        proxy_row(p).host == p.host,
        proxy_row(p).port == p.port,
        proxy_row(p).username == p.username,
        proxy_row(p).password == p.password,
        p.is_primary ==> proxy_row(p).is_primary == 1,
        !p.is_primary ==> proxy_row(p).is_primary == 0,
        row_proxy(r).id == r.id,
        row_proxy(r).name == r.name,
        row_proxy(r).proxy_type == r.proxy_type,
        row_proxy(r).host == r.host,
        0 <= r.port <= 65535 ==> row_proxy(r).port == r.port,
        exists|q: int| r.port == #[trigger] (q * 65536) + row_proxy(r).port,
        row_proxy(r).username == r.username,
        row_proxy(r).password == r.password,
        row_proxy(r).is_primary <==> r.is_primary > 0 || r.is_primary < 0,
{
    let q = r.port as int / 65536;
    assert(r.port == (q * 65536) + row_proxy(r).port);
}

/// A row of the table of rules holds each part of the rule under its own name, its action by the
/// name of the action. An action whose name is neither `Block` nor `Direct` is read as the proxy.
pub proof fn rule_rows_hold_each_part(a: RuleView, r: RuleRowView)
    ensures
        rule_row(a).id == a.id,
        rule_row(a).process_name == a.process_name,
        rule_row(a).proxy_id == a.proxy_id,
        a.action is Proxy ==> rule_row(a).action == "Proxy"@,
        a.action is Direct ==> rule_row(a).action == "Direct"@,
        a.action is Block ==> rule_row(a).action == "Block"@,
        row_rule(r).id == r.id,
        row_rule(r).process_name == r.process_name,
        row_rule(r).proxy_id == r.proxy_id,
        row_rule(r).action is Block <==> r.action == "Block"@,
        row_rule(r).action is Direct <==> r.action == "Direct"@,
        row_rule(r).action == stored_action(r.action),
{
    reveal_strlit("Block");
    reveal_strlit("Direct");
    assert("Block"@.len() == 5 && "Direct"@.len() == 6);
}

/// A time is stored as the signed number that differs from it by a multiple of two to the power of
/// 64, and read back the same way.
pub proof fn times_keep_their_bits(t: u64, s: i64)
    ensures
        signed_time(t) == t || signed_time(t) == t - 0x1_0000_0000_0000_0000,
        unsigned_time(s) == s || unsigned_time(s) == s + 0x1_0000_0000_0000_0000,
        unsigned_time(signed_time(t)) == t,
        signed_time(unsigned_time(s)) == s,
{
}

/// Rows of known processes and of log lines hold each part under its own name.
pub proof fn known_and_log_rows_hold_each_part(p: KnownView, r: KnownRowView, l: LogRowView)
    ensures
        known_row(p).process_name == p.process_name,
        known_row(p).group_action == p.group_action,
        known_row(p).proxy_id == p.proxy_id,
        known_row(p).created_at == signed_time(p.created_at),
        row_known(r).process_name == r.process_name,
        row_known(r).group_action == r.group_action,
        row_known(r).proxy_id == r.proxy_id,
        row_known(r).created_at == unsigned_time(r.created_at),
        row_log(l).id == l.id,
        row_log(l).timestamp == unsigned_time(l.timestamp),
        row_log(l).level == l.level,
        row_log(l).source == l.source,
        row_log(l).message == l.message,
{
}

/// A flag is read as true exactly where `true` is stored, which is how a true flag is stored; a
/// flag that was never stored is true for all but bypassing local networks and starting minimized.
pub proof fn flags_read_back(k: SettingKey, b: bool, v: Seq<char>)
    ensures
        stored_flag(k, Some(flag_text(b))) == b,
        stored_flag(k, Some(v)) <==> v == "true"@,
        flag_text(true) == "true"@,
        flag_text(false) == "false"@,
        stored_flag(k, None) <==> !(k is BypassLocal || k is StartMinimized),
        k.default_value() == stored_flag(k, None),
{
    reveal_strlit("true");
    reveal_strlit("false");
    assert("true"@.len() == 4 && "false"@.len() == 5);
}

/// There are five flags, each under a key of its own, and each is set up once.
pub proof fn each_flag_has_its_place(f: Settings, k: SettingKey)
    ensures
        setting_keys().len() == 5,
        setting_keys().contains(k),
        setting_keys().no_duplicates(),
        k is ProxyDns ==> k.text() == "proxy_dns"@ && k.of(f) == f.proxy_dns,
        k is BypassLocal ==> k.text() == "bypass_local"@ && k.of(f) == f.bypass_local,
        k is Autostart ==> k.text() == "autostart"@ && k.of(f) == f.autostart,
        k is MinimizeToTray ==> k.text() == "minimize_to_tray"@ && k.of(f) == f.minimize_to_tray,
        k is StartMinimized ==> k.text() == "start_minimized"@ && k.of(f) == f.start_minimized,
{
    let s = setting_keys();
    match k {
        SettingKey::ProxyDns => {
            assert(s[0] == k);
        },
        SettingKey::BypassLocal => {
            assert(s[1] == k);
        },
        SettingKey::Autostart => {
            assert(s[2] == k);
        },
        SettingKey::MinimizeToTray => {
            assert(s[3] == k);
        },
        SettingKey::StartMinimized => {
            assert(s[4] == k);
        },
    }
}

/// A flag is set up exactly where it is not there, with the value that a missing one has; the
/// program is then registered to start with the system where the flag is the one for that.
pub proof fn missing_flags_are_set_up(k: SettingKey, count: i64)
    ensures
        count != 0 ==> flag_setting_up(k, count).len() == 0 && !registers_autostart(k, count),
        count == 0 ==> {
            &&& flag_setting_up(k, count).len() == 1
            &&& flag_setting_up(k, count)[0] == CommandView::InsertSetting(k, stored_flag(k, None))
            &&& registers_autostart(k, count) <==> k is Autostart
        },
{
}

/// The parameters of a command are the parts of what it stores or the key of what it removes, in
/// the order of the columns, each as it is; a missing text is the missing value.
pub proof fn parameters_carry_each_part(c: CommandView)
    ensures
        c matches CommandView::PutProxy(r) ==> {
            let p = command_params(c);
            &&& p.len() == 8
            &&& p[0] == SqlView::Text(r.id)
            &&& p[1] == SqlView::Text(r.name)
            &&& p[2] == SqlView::Text(r.proxy_type)
            &&& p[3] == SqlView::Text(r.host)
            &&& p[4] matches SqlView::Integer(n) && n == r.port
            &&& r.username is None ==> p[5] is Null
            &&& r.username matches Some(u) ==> p[5] == SqlView::Text(u)
            &&& r.password is None ==> p[6] is Null
            &&& r.password matches Some(w) ==> p[6] == SqlView::Text(w)
            &&& p[7] matches SqlView::Integer(n) && n == r.is_primary
        },
        c matches CommandView::InsertRule(r) ==> {
            let p = command_params(c);
            &&& p.len() == 4
            &&& p[0] == SqlView::Text(r.id)
            &&& p[1] == SqlView::Text(r.process_name)
            &&& p[2] == SqlView::Text(r.action)
            &&& r.proxy_id is None ==> p[3] is Null
            &&& r.proxy_id matches Some(id) ==> p[3] == SqlView::Text(id)
        },
        c matches CommandView::PutKnown(r) ==> {
            let p = command_params(c);
            &&& p.len() == 4
            &&& p[0] == SqlView::Text(r.process_name)
            &&& p[1] == SqlView::Text(r.group_action)
            &&& r.proxy_id is None ==> p[2] is Null
            &&& r.proxy_id matches Some(id) ==> p[2] == SqlView::Text(id)
            &&& p[3] == SqlView::Integer(r.created_at)
        },
        c matches CommandView::InsertLog(t, l, s, m) ==> {
            let p = command_params(c);
            &&& p.len() == 4
            &&& p[0] == SqlView::Integer(t)
            &&& p[1] == SqlView::Text(l)
            &&& p[2] == SqlView::Text(s)
            &&& p[3] == SqlView::Text(m)
        },
        c matches CommandView::AddKnown(n, t) ==> {
            let p = command_params(c);
            &&& p.len() == 2
            &&& p[0] == SqlView::Text(n)
            &&& p[1] == SqlView::Integer(t)
        },
        c matches CommandView::InsertSetting(k, b) ==> {
            let p = command_params(c);
            &&& p.len() == 2
            &&& p[0] == SqlView::Text(k.text())
            &&& p[1] matches SqlView::Text(v) && stored_flag(k, Some(v)) == b && v == flag_text(b)
        },
        c matches CommandView::PutSetting(k, b) ==> command_params(c) == command_params(
            CommandView::InsertSetting(k, b),
        ),
        c matches CommandView::DeleteProxy(id) ==> {
            let p = command_params(c);
            &&& p.len() == 1
            &&& p[0] == SqlView::Text(id)
        },
        c is Create || c is ClearPrimary || c is DeleteRules || c is TrimLogs || c is ClearLogs
            ==> command_params(c).len() == 0,
{
    match c {
        CommandView::InsertSetting(k, b) => {
            flags_read_back(k, b, flag_text(b));
        },
        _ => {},
    }
}

/// A statement that stores a row and the one that asks for rows name the same columns in the same
/// order, and as many as there are parameters; a log line gets its number from the store.
pub proof fn stored_columns_are_asked_for(
    p: ProxyRowView,
    r: RuleRowView,
    k: KnownRowView,
    t: i64,
    level: Seq<char>,
    source: Seq<char>,
    message: Seq<char>,
)
    ensures
        ({
            let columns = "id, name, proxy_type, host, port, username, password, is_primary"@;
            &&& command_sql(CommandView::PutProxy(p)) == "INSERT OR REPLACE INTO proxies ("@
                + columns + ") VALUES (?1, ?2, ?3, ?4, ?5, ?6, ?7, ?8)"@
            &&& query_sql(Query::Proxies) == "SELECT "@ + columns + " FROM proxies"@
        }),
        ({
            let columns = "id, process_name, action, proxy_id"@;
            &&& command_sql(CommandView::InsertRule(r)) == "INSERT INTO rules ("@ + columns
                + ") VALUES (?1, ?2, ?3, ?4)"@
            &&& query_sql(Query::Rules) == "SELECT "@ + columns + " FROM rules"@
        }),
        ({
            let columns = "process_name, group_action, proxy_id, created_at"@;
            &&& command_sql(CommandView::PutKnown(k)) == "INSERT OR REPLACE INTO known_processes ("@
                + columns + ") VALUES (?1, ?2, ?3, ?4)"@
            &&& command_sql(CommandView::AddKnown(level, t))
                == "INSERT OR IGNORE INTO known_processes ("@ + columns
                + ") VALUES (?1, 'new', NULL, ?2)"@
            &&& query_sql(Query::KnownProcesses) == "SELECT "@ + columns
                + " FROM known_processes ORDER BY created_at DESC"@
        }),
        ({
            let columns = "timestamp, level, source, message"@;
            &&& command_sql(CommandView::InsertLog(t, level, source, message))
                == "INSERT INTO app_logs ("@ + columns + ") VALUES (?1, ?2, ?3, ?4)"@
            &&& query_sql(Query::Logs) == "SELECT id, "@ + columns
                + " FROM app_logs ORDER BY id DESC LIMIT 300"@
        }),
{
    proxy_columns(p);
    rule_columns(r);
    known_columns(k, level, t);
    log_columns(t, level, source, message);
}

/// The columns of the table of proxies.
#[verifier::spinoff_prover]
#[verifier::rlimit(60)]
proof fn proxy_columns(p: ProxyRowView)
    ensures
        command_sql(CommandView::PutProxy(p)) == "INSERT OR REPLACE INTO proxies ("@
            + "id, name, proxy_type, host, port, username, password, is_primary"@
            + ") VALUES (?1, ?2, ?3, ?4, ?5, ?6, ?7, ?8)"@,
        query_sql(Query::Proxies) == "SELECT "@
            + "id, name, proxy_type, host, port, username, password, is_primary"@
            + " FROM proxies"@,
{
    reveal_strlit("id, name, proxy_type, host, port, username, password, is_primary");
    assert(query_sql(Query::Proxies) =~= "SELECT "@
        + "id, name, proxy_type, host, port, username, password, is_primary"@ + " FROM proxies"@)
        by {
        reveal_strlit("SELECT ");
        reveal_strlit(" FROM proxies");
        reveal_strlit(
            "SELECT id, name, proxy_type, host, port, username, password, is_primary FROM proxies",
        );
    }
    assert(command_sql(CommandView::PutProxy(p)) =~= "INSERT OR REPLACE INTO proxies ("@
        + "id, name, proxy_type, host, port, username, password, is_primary"@
        + ") VALUES (?1, ?2, ?3, ?4, ?5, ?6, ?7, ?8)"@) by {
        reveal_strlit("INSERT OR REPLACE INTO proxies (");
        reveal_strlit(") VALUES (?1, ?2, ?3, ?4, ?5, ?6, ?7, ?8)");
        reveal_strlit(
            "INSERT OR REPLACE INTO proxies (id, name, proxy_type, host, port, username, password, is_primary) VALUES (?1, ?2, ?3, ?4, ?5, ?6, ?7, ?8)",
        );
    }
}

/// The columns of the table of rules.
#[verifier::spinoff_prover]
#[verifier::rlimit(60)]
proof fn rule_columns(r: RuleRowView)
    ensures
        command_sql(CommandView::InsertRule(r)) == "INSERT INTO rules ("@
            + "id, process_name, action, proxy_id"@ + ") VALUES (?1, ?2, ?3, ?4)"@,
        query_sql(Query::Rules) == "SELECT "@ + "id, process_name, action, proxy_id"@
            + " FROM rules"@,
{
    reveal_strlit("id, process_name, action, proxy_id");
    assert(query_sql(Query::Rules) =~= "SELECT "@ + "id, process_name, action, proxy_id"@
        + " FROM rules"@) by {
        reveal_strlit("SELECT ");
        reveal_strlit(" FROM rules");
        reveal_strlit("SELECT id, process_name, action, proxy_id FROM rules");
    }
    assert(command_sql(CommandView::InsertRule(r)) =~= "INSERT INTO rules ("@
        + "id, process_name, action, proxy_id"@ + ") VALUES (?1, ?2, ?3, ?4)"@) by {
        reveal_strlit("INSERT INTO rules (");
        reveal_strlit(") VALUES (?1, ?2, ?3, ?4)");
        reveal_strlit(
            "INSERT INTO rules (id, process_name, action, proxy_id) VALUES (?1, ?2, ?3, ?4)",
        );
    }
}

/// The columns of the table of known processes.
#[verifier::spinoff_prover]
#[verifier::rlimit(60)]
proof fn known_columns(k: KnownRowView, name: Seq<char>, t: i64)
    ensures
        command_sql(CommandView::PutKnown(k)) == "INSERT OR REPLACE INTO known_processes ("@
            + "process_name, group_action, proxy_id, created_at"@ + ") VALUES (?1, ?2, ?3, ?4)"@,
        command_sql(CommandView::AddKnown(name, t)) == "INSERT OR IGNORE INTO known_processes ("@
            + "process_name, group_action, proxy_id, created_at"@
            + ") VALUES (?1, 'new', NULL, ?2)"@,
        query_sql(Query::KnownProcesses) == "SELECT "@
            + "process_name, group_action, proxy_id, created_at"@
            + " FROM known_processes ORDER BY created_at DESC"@,
{
    reveal_strlit("process_name, group_action, proxy_id, created_at");
    assert(query_sql(Query::KnownProcesses) =~= "SELECT "@
        + "process_name, group_action, proxy_id, created_at"@
        + " FROM known_processes ORDER BY created_at DESC"@) by {
        reveal_strlit("SELECT ");
        reveal_strlit(" FROM known_processes ORDER BY created_at DESC");
        reveal_strlit(
            "SELECT process_name, group_action, proxy_id, created_at FROM known_processes ORDER BY created_at DESC",
        );
    }
    assert(command_sql(CommandView::PutKnown(k)) =~= "INSERT OR REPLACE INTO known_processes ("@
        + "process_name, group_action, proxy_id, created_at"@ + ") VALUES (?1, ?2, ?3, ?4)"@) by {
        reveal_strlit("INSERT OR REPLACE INTO known_processes (");
        reveal_strlit(") VALUES (?1, ?2, ?3, ?4)");
        reveal_strlit(
            "INSERT OR REPLACE INTO known_processes (process_name, group_action, proxy_id, created_at) VALUES (?1, ?2, ?3, ?4)",
        );
    }
    assert(command_sql(CommandView::AddKnown(name, t))
        =~= "INSERT OR IGNORE INTO known_processes ("@
        + "process_name, group_action, proxy_id, created_at"@ + ") VALUES (?1, 'new', NULL, ?2)"@)
        by {
        reveal_strlit("INSERT OR IGNORE INTO known_processes (");
        reveal_strlit(") VALUES (?1, 'new', NULL, ?2)");
        reveal_strlit(
            "INSERT OR IGNORE INTO known_processes (process_name, group_action, proxy_id, created_at) VALUES (?1, 'new', NULL, ?2)",
        );
    }
}

/// The columns of the table of log lines.
#[verifier::spinoff_prover]
#[verifier::rlimit(60)]
proof fn log_columns(t: i64, level: Seq<char>, source: Seq<char>, message: Seq<char>)
    ensures
        command_sql(CommandView::InsertLog(t, level, source, message)) == "INSERT INTO app_logs ("@
            + "timestamp, level, source, message"@ + ") VALUES (?1, ?2, ?3, ?4)"@,
        query_sql(Query::Logs) == "SELECT id, "@ + "timestamp, level, source, message"@
            + " FROM app_logs ORDER BY id DESC LIMIT 300"@,
{
    reveal_strlit("timestamp, level, source, message");
    assert(query_sql(Query::Logs) =~= "SELECT id, "@ + "timestamp, level, source, message"@
        + " FROM app_logs ORDER BY id DESC LIMIT 300"@) by {
        reveal_strlit("SELECT id, ");
        reveal_strlit(" FROM app_logs ORDER BY id DESC LIMIT 300");
        reveal_strlit(
            "SELECT id, timestamp, level, source, message FROM app_logs ORDER BY id DESC LIMIT 300",
        );
    }
    assert(command_sql(CommandView::InsertLog(t, level, source, message))
        =~= "INSERT INTO app_logs ("@ + "timestamp, level, source, message"@
        + ") VALUES (?1, ?2, ?3, ?4)"@) by {
        reveal_strlit("INSERT INTO app_logs (");
        reveal_strlit(") VALUES (?1, ?2, ?3, ?4)");
        reveal_strlit(
            "INSERT INTO app_logs (timestamp, level, source, message) VALUES (?1, ?2, ?3, ?4)",
        );
    }
}

/// A flag is stored and asked for by its key, whether it is added or set.
#[verifier::spinoff_prover]
#[verifier::rlimit(60)]
pub proof fn flags_are_stored_by_key(k: SettingKey, b: bool)
    ensures
        command_sql(CommandView::PutSetting(k, b)) == "INSERT OR REPLACE"@
            + " INTO settings (key, value) VALUES (?1, ?2)"@,
        command_sql(CommandView::InsertSetting(k, b)) == "INSERT"@
            + " INTO settings (key, value) VALUES (?1, ?2)"@,
        query_sql(Query::SettingValue) == "SELECT value"@ + " FROM settings WHERE key = ?1"@,
        query_sql(Query::SettingCount) == "SELECT COUNT(*)"@ + " FROM settings WHERE key = ?1"@,
{
    reveal_strlit(" INTO settings (key, value) VALUES (?1, ?2)");
    reveal_strlit(" FROM settings WHERE key = ?1");
    assert(command_sql(CommandView::PutSetting(k, b)) =~= "INSERT OR REPLACE"@
        + " INTO settings (key, value) VALUES (?1, ?2)"@) by {
        reveal_strlit("INSERT OR REPLACE");
        reveal_strlit("INSERT OR REPLACE INTO settings (key, value) VALUES (?1, ?2)");
    }
    assert(command_sql(CommandView::InsertSetting(k, b)) =~= "INSERT"@
        + " INTO settings (key, value) VALUES (?1, ?2)"@) by {
        reveal_strlit("INSERT");
        reveal_strlit("INSERT INTO settings (key, value) VALUES (?1, ?2)");
    }
    assert(query_sql(Query::SettingValue) =~= "SELECT value"@ + " FROM settings WHERE key = ?1"@)
        by {
        reveal_strlit("SELECT value");
        reveal_strlit("SELECT value FROM settings WHERE key = ?1");
    }
    assert(query_sql(Query::SettingCount) =~= "SELECT COUNT(*)"@
        + " FROM settings WHERE key = ?1"@) by {
        reveal_strlit("SELECT COUNT(*)");
        reveal_strlit("SELECT COUNT(*) FROM settings WHERE key = ?1");
    }
}

/// Each operation stores all that it is given, and nothing else: a proxy that is primary takes
/// that rank from the others before it is stored; rules are stored in their order when all others
/// are gone; every flag is stored with its value; every name is added at the time given.
pub proof fn operations_store_what_they_are_given(
    p: ProxyView,
    rules: Seq<RuleView>,
    f: Settings,
    names: Seq<Seq<char>>,
    now: i64,
    i: int,
    k: SettingKey,
)
    ensures
        proxy_saving(p).last() == CommandView::PutProxy(proxy_row(p)),
        p.is_primary ==> proxy_saving(p).len() == 2 && proxy_saving(p)[0] is ClearPrimary,
        !p.is_primary ==> proxy_saving(p).len() == 1,
        rules_saving(rules).len() == rules.len() + 1,
        rules_saving(rules)[0] is DeleteRules,
        0 <= i < rules.len() ==> rules_saving(rules)[i + 1] == CommandView::InsertRule(
            rule_row(rules[i]),
        ),
        settings_saving(f).len() == 5,
        settings_saving(f).contains(CommandView::PutSetting(k, k.of(f))),
        0 <= i < 5 ==> settings_saving(f)[i] is PutSetting,
        names_saving(names, now).len() == names.len(),
        0 <= i < names.len() ==> names_saving(names, now)[i] == CommandView::AddKnown(
            names[i],
            now,
        ),
{
    each_flag_has_its_place(f, k);
    let j = choose|j: int| 0 <= j < 5 && setting_keys()[j] == k;
    assert(settings_saving(f)[j] == CommandView::PutSetting(k, k.of(f)));
}

/// All five tables are created, each once.
pub proof fn all_tables_are_created(t: StoreTable)
    ensures
        creation().len() == 5,
        creation().contains(CommandView::Create(t)),
{
    let s = creation();
    match t {
        StoreTable::Proxies => {
            assert(s[0] == CommandView::Create(t));
        },
        StoreTable::Rules => {
            assert(s[1] == CommandView::Create(t));
        },
        StoreTable::Settings => {
            assert(s[2] == CommandView::Create(t));
        },
        StoreTable::KnownProcesses => {
            assert(s[3] == CommandView::Create(t));
        },
        StoreTable::Logs => {
            assert(s[4] == CommandView::Create(t));
        },
    }
}

/// The registration names the program in quotation marks, whatever its path; taking it back names
/// no program. Both are for the task of the same name, and need no confirmation.
pub proof fn registration_names_the_program(exe: Seq<char>, name: Seq<char>)
    ensures
        ({
            let on = task_change(true, exe);
            let off = task_change(false, exe);
            &&& on.program == "schtasks"@ && off.program == "schtasks"@
            &&& on.args.len() == 10 && off.args.len() == 4
            &&& on.args[0] == "/create"@ && off.args[0] == "/delete"@
            &&& on.args[1] == "/tn"@ && off.args[1] == on.args[1]
            &&& on.args[2] == "AppProxyBridge"@ && off.args[2] == on.args[2]
            &&& on.args[3] == "/tr"@
            &&& on.args[4].len() == exe.len() + 2
            &&& on.args[4].first() == '"' && on.args[4].last() == '"'
            &&& on.args[4].drop_first().drop_last() == exe
            &&& on.args[5] == "/sc"@ && on.args[6] == "onlogon"@
            &&& on.args[7] == "/rl"@ && on.args[8] == "highest"@
            &&& on.args.last() == "/f"@ && off.args.last() == "/f"@
        }),
        ({
            let gone = registry_removal(name);
            &&& gone.program == "reg"@
            &&& gone.args.len() == 5
            &&& gone.args[0] == "delete"@
            &&& gone.args[1] == "HKCU\\Software\\Microsoft\\Windows\\CurrentVersion\\Run"@
            &&& gone.args[2] == "/v"@
            &&& gone.args[3] == name
            &&& gone.args[4] == "/f"@
        }),
{
    reveal_strlit("\"");
    let quoted = "\""@ + exe + "\""@;
    assert(quoted.drop_first().drop_last() =~= exe);
}

/// The models of rows tell all of them.
pub proof fn row_models_are_whole(p: ProxyRow, r: RuleRow, k: KnownRow, l: LogRow)
    ensures
        p@.id == p.id@,
        p@.name == p.name@,
        p@.proxy_type == p.proxy_type@,
        p@.host == p.host@,
        p@.port == p.port,
        p@.username == text_option(p.username),
        p@.password == text_option(p.password),
        p@.is_primary == p.is_primary,
        r@.id == r.id@,
        r@.process_name == r.process_name@,
        r@.action == r.action@,
        r@.proxy_id == text_option(r.proxy_id),
        k@.process_name == k.process_name@,
        k@.group_action == k.group_action@,
        k@.proxy_id == text_option(k.proxy_id),
        k@.created_at == k.created_at,
        l@.id == l.id,
        l@.timestamp == l.timestamp,
        l@.level == l.level@,
        l@.source == l.source@,
        l@.message == l.message@,
{
}

/// The models of commands, parameters and program calls tell all of them.
pub proof fn command_models_are_whole(c: Command, v: SqlValue, line: CommandLine)
    ensures
        c matches Command::Create(t) ==> c@ == CommandView::Create(t),
        c matches Command::InsertSetting(k, b) ==> c@ == CommandView::InsertSetting(k, b),
        c matches Command::PutSetting(k, b) ==> c@ == CommandView::PutSetting(k, b),
        c is ClearPrimary ==> c@ is ClearPrimary,
        c matches Command::PutProxy(r) ==> c@ == CommandView::PutProxy(r@),
        c matches Command::DeleteProxy(id) ==> c@ == CommandView::DeleteProxy(id@),
        c is DeleteRules ==> c@ is DeleteRules,
        c matches Command::InsertRule(r) ==> c@ == CommandView::InsertRule(r@),
        c matches Command::PutKnown(r) ==> c@ == CommandView::PutKnown(r@),
        c matches Command::AddKnown(n, t) ==> c@ == CommandView::AddKnown(n@, t),
        c matches Command::InsertLog(t, a, s, m) ==> c@ == CommandView::InsertLog(t, a@, s@, m@),
        c is TrimLogs ==> c@ is TrimLogs,
        c is ClearLogs ==> c@ is ClearLogs,
        v matches SqlValue::Text(s) ==> v@ == SqlView::Text(s@),
        v matches SqlValue::Integer(n) ==> v@ == SqlView::Integer(n),
        v is Null ==> v@ is Null,
        line@.program == line.program@,
        line@.args == views(line.args@),
{
}

/// The text that names a table.
pub open spec fn table_text(t: StoreTable) -> Seq<char> {
    match t {
        StoreTable::Proxies => "proxies"@,
        StoreTable::Rules => "rules"@,
        StoreTable::Settings => "settings"@,
        StoreTable::KnownProcesses => "known_processes"@,
        StoreTable::Logs => "app_logs"@,
    }
}

/// A table is created unless it is there, with a column that identifies its rows, and with every
/// other column in the order in which it is stored; what may be missing is a user name, a password
/// or the identifier of a proxy.
#[verifier::spinoff_prover]
#[verifier::rlimit(60)]
pub proof fn tables_are_created_with_their_columns(t: StoreTable)
    ensures
        create_sql(t) == "CREATE TABLE IF NOT EXISTS "@ + table_text(t) + (match t {
            StoreTable::Proxies => " (id TEXT PRIMARY KEY, name TEXT NOT NULL, proxy_type TEXT NOT NULL, host TEXT NOT NULL, port INTEGER NOT NULL, username TEXT, password TEXT, is_primary INTEGER NOT NULL DEFAULT 0)"@,
            StoreTable::Rules => " (id TEXT PRIMARY KEY, process_name TEXT NOT NULL, action TEXT NOT NULL, proxy_id TEXT)"@,
            StoreTable::Settings => " (key TEXT PRIMARY KEY, value TEXT NOT NULL)"@,
            StoreTable::KnownProcesses => " (process_name TEXT PRIMARY KEY, group_action TEXT NOT NULL DEFAULT 'new', proxy_id TEXT, created_at INTEGER NOT NULL)"@,
            StoreTable::Logs => " (id INTEGER PRIMARY KEY AUTOINCREMENT, timestamp INTEGER NOT NULL, level TEXT NOT NULL, source TEXT NOT NULL, message TEXT NOT NULL)"@,
        }),
{
    reveal_strlit("CREATE TABLE IF NOT EXISTS ");
    match t {
        StoreTable::Proxies => {
            reveal_strlit("proxies");
            reveal_strlit(
                " (id TEXT PRIMARY KEY, name TEXT NOT NULL, proxy_type TEXT NOT NULL, host TEXT NOT NULL, port INTEGER NOT NULL, username TEXT, password TEXT, is_primary INTEGER NOT NULL DEFAULT 0)",
            );
            reveal_strlit(
                "CREATE TABLE IF NOT EXISTS proxies (id TEXT PRIMARY KEY, name TEXT NOT NULL, proxy_type TEXT NOT NULL, host TEXT NOT NULL, port INTEGER NOT NULL, username TEXT, password TEXT, is_primary INTEGER NOT NULL DEFAULT 0)",
            );
            assert(create_sql(t) =~= "CREATE TABLE IF NOT EXISTS "@ + "proxies"@
                + " (id TEXT PRIMARY KEY, name TEXT NOT NULL, proxy_type TEXT NOT NULL, host TEXT NOT NULL, port INTEGER NOT NULL, username TEXT, password TEXT, is_primary INTEGER NOT NULL DEFAULT 0)"@);
        },
        StoreTable::Rules => {
            reveal_strlit("rules");
            reveal_strlit(
                " (id TEXT PRIMARY KEY, process_name TEXT NOT NULL, action TEXT NOT NULL, proxy_id TEXT)",
            );
            reveal_strlit(
                "CREATE TABLE IF NOT EXISTS rules (id TEXT PRIMARY KEY, process_name TEXT NOT NULL, action TEXT NOT NULL, proxy_id TEXT)",
            );
            assert(create_sql(t) =~= "CREATE TABLE IF NOT EXISTS "@ + "rules"@
                + " (id TEXT PRIMARY KEY, process_name TEXT NOT NULL, action TEXT NOT NULL, proxy_id TEXT)"@);
        },
        StoreTable::Settings => {
            reveal_strlit("settings");
            reveal_strlit(
                " (key TEXT PRIMARY KEY, value TEXT NOT NULL)",
            );
            reveal_strlit(
                "CREATE TABLE IF NOT EXISTS settings (key TEXT PRIMARY KEY, value TEXT NOT NULL)",
            );
            assert(create_sql(t) =~= "CREATE TABLE IF NOT EXISTS "@ + "settings"@
                + " (key TEXT PRIMARY KEY, value TEXT NOT NULL)"@);
        },
        StoreTable::KnownProcesses => {
            reveal_strlit("known_processes");
            reveal_strlit(
                " (process_name TEXT PRIMARY KEY, group_action TEXT NOT NULL DEFAULT 'new', proxy_id TEXT, created_at INTEGER NOT NULL)",
            );
            reveal_strlit(
                "CREATE TABLE IF NOT EXISTS known_processes (process_name TEXT PRIMARY KEY, group_action TEXT NOT NULL DEFAULT 'new', proxy_id TEXT, created_at INTEGER NOT NULL)",
            );
            assert(create_sql(t) =~= "CREATE TABLE IF NOT EXISTS "@ + "known_processes"@
                + " (process_name TEXT PRIMARY KEY, group_action TEXT NOT NULL DEFAULT 'new', proxy_id TEXT, created_at INTEGER NOT NULL)"@);
        },
        StoreTable::Logs => {
            reveal_strlit("app_logs");
            reveal_strlit(
                " (id INTEGER PRIMARY KEY AUTOINCREMENT, timestamp INTEGER NOT NULL, level TEXT NOT NULL, source TEXT NOT NULL, message TEXT NOT NULL)",
            );
            reveal_strlit(
                "CREATE TABLE IF NOT EXISTS app_logs (id INTEGER PRIMARY KEY AUTOINCREMENT, timestamp INTEGER NOT NULL, level TEXT NOT NULL, source TEXT NOT NULL, message TEXT NOT NULL)",
            );
            assert(create_sql(t) =~= "CREATE TABLE IF NOT EXISTS "@ + "app_logs"@
                + " (id INTEGER PRIMARY KEY AUTOINCREMENT, timestamp INTEGER NOT NULL, level TEXT NOT NULL, source TEXT NOT NULL, message TEXT NOT NULL)"@);
        },
    }
}

/// What is removed or changed is removed or changed in the table that holds it: one proxy by its
/// identifier; the rank of all proxies; all rules; all log lines, or all but the latest 300, which
/// are those that are asked for.
#[verifier::spinoff_prover]
#[verifier::rlimit(60)]
pub proof fn removals_name_their_table(id: Seq<char>)
    ensures
        command_sql(CommandView::DeleteProxy(id)) == "DELETE FROM "@ + table_text(
            StoreTable::Proxies,
        ) + " WHERE id = ?1"@,
        command_sql(CommandView::ClearPrimary) == "UPDATE "@ + table_text(StoreTable::Proxies)
            + " SET is_primary = 0"@,
        command_sql(CommandView::DeleteRules) == "DELETE FROM "@ + table_text(StoreTable::Rules),
        command_sql(CommandView::ClearLogs) == "DELETE FROM "@ + table_text(StoreTable::Logs),
        command_sql(CommandView::TrimLogs) == "DELETE FROM app_logs WHERE id NOT IN (SELECT id"@
            + " FROM app_logs ORDER BY id DESC LIMIT 300"@ + ")"@,
{
    reveal_strlit("DELETE FROM ");
    assert(command_sql(CommandView::DeleteProxy(id)) =~= "DELETE FROM "@ + "proxies"@
        + " WHERE id = ?1"@) by {
        reveal_strlit("proxies");
        reveal_strlit(" WHERE id = ?1");
        reveal_strlit("DELETE FROM proxies WHERE id = ?1");
    }
    assert(command_sql(CommandView::ClearPrimary) =~= "UPDATE "@ + "proxies"@
        + " SET is_primary = 0"@) by {
        reveal_strlit("UPDATE ");
        reveal_strlit("proxies");
        reveal_strlit(" SET is_primary = 0");
        reveal_strlit("UPDATE proxies SET is_primary = 0");
    }
    assert(command_sql(CommandView::DeleteRules) =~= "DELETE FROM "@ + "rules"@) by {
        reveal_strlit("rules");
        reveal_strlit("DELETE FROM rules");
    }
    assert(command_sql(CommandView::ClearLogs) =~= "DELETE FROM "@ + "app_logs"@) by {
        reveal_strlit("app_logs");
        reveal_strlit("DELETE FROM app_logs");
    }
    assert(command_sql(CommandView::TrimLogs)
        =~= "DELETE FROM app_logs WHERE id NOT IN (SELECT id"@
        + " FROM app_logs ORDER BY id DESC LIMIT 300"@ + ")"@) by {
        reveal_strlit("DELETE FROM app_logs WHERE id NOT IN (SELECT id");
        reveal_strlit(" FROM app_logs ORDER BY id DESC LIMIT 300");
        reveal_strlit(")");
        reveal_strlit(
            "DELETE FROM app_logs WHERE id NOT IN (SELECT id FROM app_logs ORDER BY id DESC LIMIT 300)",
        );
    }
}

}
