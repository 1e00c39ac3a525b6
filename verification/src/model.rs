//! The records that the engine keeps, stores and shows, and their models.
//!
//! The model of a record has the same fields, with the characters of a text in place of the
//! text itself.
use vstd::prelude::*;
use vstd::string::*;

verus! {

/// The characters of an optional text.
pub open spec fn text_option(o: Option<String>) -> Option<Seq<char>> {
    match o {
        Some(s) => Some(s@),
        None => None,
    }
}

/// The models of a run of records.
pub open spec fn views<T: View>(s: Seq<T>) -> Seq<T::V> {
    Seq::new(s.len(), |i: int| s[i]@)
}

/// A connection, as it is reported.
#[derive(Debug, PartialEq, Eq)]
pub struct ConnectionInfo {
    pub id: String,
    pub pid: u32,
    pub process_name: String,
    pub protocol: String,
    pub source_addr: String,
    pub original_dest: String,
    pub action: String,
    pub bytes_sent: u64,
    pub bytes_received: u64,
    pub timestamp: u64,
    /// `Active`, `Proxied`, `Closed` or `Blocked`.
    pub status: String,
}

/// The model of a [`ConnectionInfo`].
#[verifier::ext_equal]
pub struct ConnectionView {
    pub id: Seq<char>,
    pub pid: u32,
    pub process_name: Seq<char>,
    pub protocol: Seq<char>,
    pub source_addr: Seq<char>,
    pub original_dest: Seq<char>,
    pub action: Seq<char>,
    pub bytes_sent: u64,
    pub bytes_received: u64,
    pub timestamp: u64,
    pub status: Seq<char>,
}

impl View for ConnectionInfo {
    type V = ConnectionView;

    open spec fn view(&self) -> ConnectionView {
        ConnectionView {
            id: self.id@,
            pid: self.pid,
            process_name: self.process_name@,
            protocol: self.protocol@,
            source_addr: self.source_addr@,
            original_dest: self.original_dest@,
            action: self.action@,
            bytes_sent: self.bytes_sent,
            bytes_received: self.bytes_received,
            timestamp: self.timestamp,
            status: self.status@,
        }
    }
}

impl Clone for ConnectionInfo {
    fn clone(&self) -> (r: Self)
        ensures
            r@ == self@,
    {
        ConnectionInfo {
            id: self.id.clone(),
            pid: self.pid,
            process_name: self.process_name.clone(),
            protocol: self.protocol.clone(),
            source_addr: self.source_addr.clone(),
            original_dest: self.original_dest.clone(),
            action: self.action.clone(),
            bytes_sent: self.bytes_sent,
            bytes_received: self.bytes_received,
            timestamp: self.timestamp,
            status: self.status.clone(),
        }
    }
}

/// An upstream proxy.
#[derive(Debug, PartialEq, Eq)]
pub struct ProxyConfig {
    pub id: String,
    pub name: String,
    /// `SOCKS5` in any case; everything else is HTTP.
    pub proxy_type: String,
    pub host: String,
    pub port: u16,
    pub username: Option<String>,
    pub password: Option<String>,
    pub is_primary: bool,
}

/// The model of a [`ProxyConfig`].
#[verifier::ext_equal]
pub struct ProxyView {
    pub id: Seq<char>,
    pub name: Seq<char>,
    pub proxy_type: Seq<char>,
    pub host: Seq<char>,
    pub port: u16,
    pub username: Option<Seq<char>>,
    pub password: Option<Seq<char>>,
    pub is_primary: bool,
}

impl View for ProxyConfig {
    type V = ProxyView;

    open spec fn view(&self) -> ProxyView {
        ProxyView {
            id: self.id@,
            name: self.name@,
            proxy_type: self.proxy_type@,
            host: self.host@,
            port: self.port,
            username: text_option(self.username),
            password: text_option(self.password),
            is_primary: self.is_primary,
        }
    }
}

impl Clone for ProxyConfig {
    fn clone(&self) -> (r: Self)
        ensures
            r@ == self@,
    {
        ProxyConfig {
            id: self.id.clone(),
            name: self.name.clone(),
            proxy_type: self.proxy_type.clone(),
            host: self.host.clone(),
            port: self.port,
            username: self.username.clone(),
            password: self.password.clone(),
            is_primary: self.is_primary,
        }
    }
}

/// What a rule does with a connection.
#[derive(Clone, Copy, Debug, PartialEq, Eq, Structural)]
pub enum RuleAction {
    Block,
    Direct,
    Proxy,
}

impl RuleAction {
    /// The name of the action, as it is stored and reported.
    pub open spec fn text(self) -> Seq<char> {
        match self {
            RuleAction::Block => "Block"@,
            RuleAction::Direct => "Direct"@,
            RuleAction::Proxy => "Proxy"@,
        }
    }

    /// The name of the action, as it is stored and reported.
    pub fn to_text(self) -> (r: String)
        ensures
            r@ == self.text(),
    {
        match self {
            RuleAction::Block => "Block".to_string(),
            RuleAction::Direct => "Direct".to_string(),
            RuleAction::Proxy => "Proxy".to_string(),
        }
    }
}

/// A rule for the connections of a process.
#[derive(Debug, PartialEq, Eq)]
pub struct Rule {
    pub id: String,
    /// A process name, or `*` and the end of one.
    pub process_name: String,
    pub action: RuleAction,
    pub proxy_id: Option<String>,
}

/// The model of a [`Rule`].
#[verifier::ext_equal]
pub struct RuleView {
    pub id: Seq<char>,
    pub process_name: Seq<char>,
    pub action: RuleAction,
    pub proxy_id: Option<Seq<char>>,
}

impl View for Rule {
    type V = RuleView;

    open spec fn view(&self) -> RuleView {
        RuleView {
            id: self.id@,
            process_name: self.process_name@,
            action: self.action,
            proxy_id: text_option(self.proxy_id),
        }
    }
}

impl Clone for Rule {
    fn clone(&self) -> (r: Self)
        ensures
            r@ == self@,
    {
        Rule {
            id: self.id.clone(),
            process_name: self.process_name.clone(),
            action: self.action,
            proxy_id: self.proxy_id.clone(),
        }
    }
}

/// A process that was seen, and the group it is in.
#[derive(Debug, PartialEq, Eq)]
pub struct KnownProcess {
    pub process_name: String,
    /// `new`, `proxy`, `direct` or `block`.
    pub group_action: String,
    pub proxy_id: Option<String>,
    /// Milliseconds since the Unix epoch.
    pub created_at: u64,
}

/// The model of a [`KnownProcess`].
#[verifier::ext_equal]
pub struct KnownView {
    pub process_name: Seq<char>,
    pub group_action: Seq<char>,
    pub proxy_id: Option<Seq<char>>,
    pub created_at: u64,
}

impl View for KnownProcess {
    type V = KnownView;

    open spec fn view(&self) -> KnownView {
        KnownView {
            process_name: self.process_name@,
            group_action: self.group_action@,
            proxy_id: text_option(self.proxy_id),
            created_at: self.created_at,
        }
    }
}

/// A line of the application's log.
#[derive(Debug, PartialEq, Eq)]
pub struct LogEntry {
    pub id: i64,
    /// Milliseconds since the Unix epoch.
    pub timestamp: u64,
    pub level: String,
    pub source: String,
    pub message: String,
}

/// The model of a [`LogEntry`].
#[verifier::ext_equal]
pub struct LogView {
    pub id: i64,
    pub timestamp: u64,
    pub level: Seq<char>,
    pub source: Seq<char>,
    pub message: Seq<char>,
}

impl View for LogEntry {
    type V = LogView;

    open spec fn view(&self) -> LogView {
        LogView {
            id: self.id,
            timestamp: self.timestamp,
            level: self.level@,
            source: self.source@,
            message: self.message@,
        }
    }
}

// ---------------------------------------------------------------------------------------------
// Laws
// ---------------------------------------------------------------------------------------------

/// The model of a text that may be missing is missing exactly where the text is, and else is that
/// of the text.
pub proof fn missing_texts_stay_missing(o: Option<String>)
    ensures
        o is None <==> text_option(o) is None,
        o matches Some(s) ==> text_option(o) == Some(s@),
{
}

/// The models of a run of records are as many, each that of the record at its place.
pub proof fn each_record_has_its_model<T: View>(s: Seq<T>)
    ensures
        views(s).len() == s.len(),
        forall|i: int| 0 <= i < s.len() ==> #[trigger] views(s)[i] == s[i]@,
{
}

/// The model of a connection tells all that is reported of it.
pub proof fn connection_model_is_whole(c: ConnectionInfo)
    ensures
        c@.id == c.id@,
        c@.pid == c.pid,
        c@.process_name == c.process_name@,
        c@.protocol == c.protocol@,
        c@.source_addr == c.source_addr@,
        c@.original_dest == c.original_dest@,
        c@.action == c.action@,
        c@.bytes_sent == c.bytes_sent,
        c@.bytes_received == c.bytes_received,
        c@.timestamp == c.timestamp,
        c@.status == c.status@,
{
}

/// The model of a proxy tells all that is configured of it.
pub proof fn proxy_model_is_whole(p: ProxyConfig)
    ensures
        p@.id == p.id@,
        p@.name == p.name@,
        p@.proxy_type == p.proxy_type@,
        p@.host == p.host@,
        p@.port == p.port,
        p@.username == text_option(p.username),
        p@.password == text_option(p.password),
        p@.is_primary == p.is_primary,
{
}

/// The model of a rule tells all of the rule.
pub proof fn rule_model_is_whole(r: Rule)
    ensures
        r@.id == r.id@,
        r@.process_name == r.process_name@,
        r@.action == r.action,
        r@.proxy_id == text_option(r.proxy_id),
{
}

/// The model of a known process tells all that is known of it.
pub proof fn known_model_is_whole(p: KnownProcess)
    ensures
        p@.process_name == p.process_name@,
        p@.group_action == p.group_action@,
        p@.proxy_id == text_option(p.proxy_id),
        p@.created_at == p.created_at,
{
}

/// The model of a log line tells all of the line.
pub proof fn log_model_is_whole(l: LogEntry)
    ensures
        l@.id == l.id,
        l@.timestamp == l.timestamp,
        l@.level == l.level@,
        l@.source == l.source@,
        l@.message == l.message@,
{
}

/// The three actions have three different names.
pub proof fn action_names_differ(a: RuleAction, b: RuleAction)
    ensures
        a.text() == b.text() ==> a == b,
        a is Block <==> a.text() == "Block"@,
        a is Direct <==> a.text() == "Direct"@,
        a is Proxy <==> a.text() == "Proxy"@,
{
    reveal_strlit("Block");
    reveal_strlit("Direct");
    reveal_strlit("Proxy");
    assert("Block"@[0] == 'B' && "Direct"@[0] == 'D' && "Proxy"@[0] == 'P');
}

}
