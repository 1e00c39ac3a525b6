//! The relay: how a redirected connection is carried on, and how that is reported.
//!
//! A session is a sequence of things that happen to its sockets. Each of them decides what to
//! report and what to do next; the sockets themselves are not part of it.
use crate::address::{socket_text, socket_to_text, SocketAddr};
use crate::engine::{EngineState, EngineView};
use crate::event::{connection_id, make_connection_id};
use crate::model::{
    views, ConnectionInfo, ConnectionView, ProxyConfig, ProxyView, RuleAction,
};
use crate::packet::{
    bound_proxy, chosen_action, has_proxy, loopback_octets, parsed, redirect_changes_destination,
    redirected, relay_port, selected_proxy, selected_proxy_is_of_pool, state_after_routing,
    whole_header, HeaderView, TCP_RELAY_PORT, UDP_RELAY_PORT,
};
use crate::rules::excluded_process;
use crate::text::{decimal, decimal_reads_back, is_decimal, push_decimal};
use vstd::prelude::*;
use vstd::string::*;

verus! {

/// The port on which the relay accepts TCP connections.
pub const TCP_LISTEN_PORT: u16 = TCP_RELAY_PORT;

/// The port that is set aside for the relay of UDP packets.
pub const UDP_LISTEN_PORT: u16 = UDP_RELAY_PORT;

/// The relay listens on the ports to which packets are redirected.
pub proof fn relay_listens_where_packets_go()
    ensures
        relay_port(true) == TCP_LISTEN_PORT,
        relay_port(false) == UDP_LISTEN_PORT,
{
}

// ---------------------------------------------------------------------------------------------
// Plans
// ---------------------------------------------------------------------------------------------

/// How a connection that came to the relay is to be carried on.
#[derive(Debug)]
pub struct RelayPlan {
    /// The port from which the connection came.
    pub client_port: u16,
    /// Where it was going.
    pub dest: SocketAddr,
    /// The proxy that carries it; without one it goes straight to its destination.
    pub proxy: Option<ProxyConfig>,
    pub pid: u32,
    pub process_name: String,
}

/// The model of a [`RelayPlan`].
#[verifier::ext_equal]
pub struct PlanView {
    pub client_port: u16,
    pub dest: (Seq<u8>, u16),
    pub proxy: Option<ProxyView>,
    pub pid: u32,
    pub process_name: Seq<char>,
}

/// The model of an optional proxy.
pub open spec fn proxy_option(o: Option<ProxyConfig>) -> Option<ProxyView> {
    match o {
        Some(p) => Some(p@),
        None => None,
    }
}

impl View for RelayPlan {
    type V = PlanView;

    open spec fn view(&self) -> PlanView {
        PlanView {
            client_port: self.client_port,
            dest: self.dest@,
            proxy: proxy_option(self.proxy),
            pid: self.pid,
            process_name: self.process_name@,
        }
    }
}

/// The first proxy of the pool with this identifier.
pub open spec fn proxy_by_id(config: Seq<ProxyView>, id: Seq<char>) -> Option<ProxyView>
    decreases config.len(),
{
    if config.len() == 0 {
        None
    } else if config[0].id == id {
        Some(config[0])
    } else {
        proxy_by_id(config.drop_first(), id)
    }
}

/// How a connection from a local port is to be carried on; one whose port was not redirected is
/// not carried on at all. What is remembered of the port's owner is used whatever its age.
pub open spec fn planned(s: EngineView, port: u16) -> Option<PlanView> {
    if s.redirect_table.contains_key(port) {
        let entry = s.redirect_table[port];
        let known = s.pid_cache.contains_key(port);
        Some(
            PlanView {
                client_port: port,
                dest: entry.dest,
                proxy: proxy_by_id(s.config, entry.proxy_id),
                pid: if known {
                    s.pid_cache[port].pid
                } else {
                    0
                },
                process_name: if known {
                    s.pid_cache[port].process_name
                } else {
                    "Unknown"@
                },
            },
        )
    } else {
        None
    }
}

/// The first proxy of the pool with this identifier.
pub fn find_proxy(config: &Vec<ProxyConfig>, id: &String) -> (r: Option<ProxyConfig>)
    ensures
        proxy_option(r) == proxy_by_id(views(config@), id@),
{
    let n: usize = config.len();
    let ghost all = views(config@);
    let mut i: usize = 0;
    assert(all.skip(0) =~= all);
    while i < n
        invariant
            i <= n == config@.len(),
            all == views(config@),
            proxy_by_id(all, id@) == proxy_by_id(all.skip(i as int), id@),
        decreases n - i,
    {
        if config[i].id == *id {
            return Some(config[i].clone());
        }
        assert(all.skip(i as int).drop_first() =~= all.skip(i + 1));
        i += 1;
    }
    None
}

/// How a connection from a local port is to be carried on.
pub fn plan_relay(state: &EngineState, client_port: u16) -> (r: Option<RelayPlan>)
    ensures
        (match r {
            Some(p) => Some(p@),
            None => None,
        }) == planned(state@, client_port),
{
    match state.redirect_table.get(client_port) {
        Some(entry) => {
            let proxy = find_proxy(&state.config, &entry.proxy_id);
            let (pid, process_name) = match state.pid_cache.get(client_port) {
                Some(owner) => owner,
                None => (0, "Unknown".to_string()),
            };
            Some(RelayPlan { client_port, dest: entry.dest, proxy, pid, process_name })
        },
        None => None,
    }
}

/// Where to connect to: the proxy's host and port, or the destination.
pub open spec fn target_text(p: PlanView) -> Seq<char> {
    match p.proxy {
        Some(proxy) => proxy.host + seq![':'] + decimal(proxy.port as nat),
        None => socket_text(p.dest.0, p.dest.1),
    }
}

// ---------------------------------------------------------------------------------------------
// Reports
// ---------------------------------------------------------------------------------------------

/// How a connection that the relay carries is reported.
pub open spec fn relay_event(p: PlanView, status: Seq<char>, now: u64) -> ConnectionView {
    ConnectionView {
        id: connection_id(p.process_name, p.client_port, p.dest.0, p.dest.1),
        pid: p.pid,
        process_name: p.process_name,
        protocol: "TCP"@,
        source_addr: "127.0.0.1:"@ + decimal(p.client_port as nat),
        original_dest: socket_text(p.dest.0, p.dest.1),
        action: if p.proxy is Some {
            "Proxy"@
        } else {
            "Direct"@
        },
        bytes_sent: 0,
        bytes_received: 0,
        timestamp: now,
        status,
    }
}

/// How the end of a connection that was carried is reported; the bytes are known only where
/// both directions ended well.
pub open spec fn closing_event(p: PlanView, bytes: Option<(u64, u64)>, since: u64) -> ConnectionView {
    let e = relay_event(p, "Closed"@, since);
    match bytes {
        Some(b) => ConnectionView { bytes_sent: b.0, bytes_received: b.1, ..e },
        None => e,
    }
}

impl RelayPlan {
    /// Where to connect to.
    pub fn target(&self) -> (r: String)
        ensures
            r@ == target_text(self@),
    {
        match &self.proxy {
            Some(proxy) => {
                let mut s = proxy.host.clone();
                s.push(':');
                push_decimal(&mut s, proxy.port as u64);
                assert(s@ =~= proxy.host@ + seq![':'] + decimal(proxy.port as nat));
                s
            },
            None => socket_to_text(&self.dest),
        }
    }

    /// Reports the connection.
    fn report(&self, status: &str, sent: u64, received: u64, now: u64) -> (r: ConnectionInfo)
        ensures
            r@ == (ConnectionView {
                bytes_sent: sent,
                bytes_received: received,
                ..relay_event(self@, status@, now)
            }),
    {
        let mut source_addr = "127.0.0.1:".to_string();
        push_decimal(&mut source_addr, self.client_port as u64);
        ConnectionInfo {
            id: make_connection_id(
                self.process_name.as_str(),
                self.client_port,
                &self.dest.ip,
                self.dest.port,
            ),
            pid: self.pid,
            process_name: self.process_name.clone(),
            protocol: "TCP".to_string(),
            source_addr,
            original_dest: socket_to_text(&self.dest),
            action: if self.proxy.is_some() {
                "Proxy".to_string()
            } else {
                "Direct".to_string()
            },
            bytes_sent: sent,
            bytes_received: received,
            timestamp: now,
            status: status.to_string(),
        }
    }
}

// ---------------------------------------------------------------------------------------------
// Sessions
// ---------------------------------------------------------------------------------------------

/// Where a session stands: what is under way.
#[derive(Clone, Copy, Debug, PartialEq, Eq, Structural)]
pub enum RelayStage {
    Connecting,
    Handshaking,
    /// Bytes are carried in both directions, since this time.
    Carrying(u64),
    Over,
}

/// What happened to a session.
#[derive(Clone, Copy, Debug, PartialEq, Eq)]
pub enum RelayEvent {
    /// The connection to the proxy or the destination stands, or could not be made.
    Connected(bool),
    /// The handshake with the proxy succeeded, or failed.
    Shaken(bool),
    /// Both directions ended, after so many bytes each way, or one failed.
    Carried(Option<(u64, u64)>),
}

/// What to do next.
#[derive(Clone, Copy, Debug, PartialEq, Eq, Structural)]
pub enum RelayNext {
    /// Perform the handshake with the proxy.
    Handshake,
    /// Carry bytes in both directions until they end.
    Carry,
    /// Nothing more.
    End,
}

/// What to report, and what to do next.
#[derive(Debug, PartialEq, Eq)]
pub struct RelayStep {
    pub report: Option<ConnectionInfo>,
    pub next: RelayNext,
}

/// The model of a [`RelayStep`].
pub struct RelayStepView {
    pub report: Option<ConnectionView>,
    pub next: RelayNext,
}

impl View for RelayStep {
    type V = RelayStepView;

    open spec fn view(&self) -> RelayStepView {
        RelayStepView {
            report: match self.report {
                Some(e) => Some(e@),
                None => None,
            },
            next: self.next,
        }
    }
}

/// The event is one that can happen at this stage.
pub open spec fn expected(stage: RelayStage, e: RelayEvent) -> bool {
    match stage {
        RelayStage::Connecting => e is Connected,
        RelayStage::Handshaking => e is Shaken,
        RelayStage::Carrying(_) => e is Carried,
        RelayStage::Over => false,
    }
}

/// The session goes on to `stage` with this report.
pub open spec fn on_to(stage: RelayStage, report: Option<ConnectionView>, next: RelayNext) -> (
    RelayStage,
    RelayStepView,
) {
    (stage, RelayStepView { report, next })
}

/// What an event of a session leads to.
pub open spec fn session_step(p: PlanView, stage: RelayStage, e: RelayEvent, now: u64) -> (
    RelayStage,
    RelayStepView,
) {
    let closed = Some(relay_event(p, "Closed"@, now));
    match e {
        RelayEvent::Connected(true) => if p.proxy is Some {
            on_to(RelayStage::Handshaking, None, RelayNext::Handshake)
        } else {
            on_to(
                RelayStage::Carrying(now),
                Some(relay_event(p, "Active"@, now)),
                RelayNext::Carry,
            )
        },
        RelayEvent::Connected(false) => on_to(
            RelayStage::Over,
            if p.proxy is Some {
                closed
            } else {
                None
            },
            RelayNext::End,
        ),
        RelayEvent::Shaken(true) => on_to(
            RelayStage::Carrying(now),
            Some(relay_event(p, "Proxied"@, now)),
            RelayNext::Carry,
        ),
        RelayEvent::Shaken(false) => on_to(RelayStage::Over, closed, RelayNext::End),
        RelayEvent::Carried(bytes) => {
            let since = match stage {
                RelayStage::Carrying(t) => t,
                _ => now,
            };
            on_to(RelayStage::Over, Some(closing_event(p, bytes, since)), RelayNext::End)
        },
    }
}

/// A connection that the relay carries.
#[derive(Debug)]
pub struct RelaySession {
    pub plan: RelayPlan,
    pub stage: RelayStage,
}

impl RelaySession {
    /// Begins a session; its target is to be connected to.
    pub fn begin(plan: RelayPlan) -> (r: Self)
        ensures
            r.plan@ == plan@,
            r.stage == RelayStage::Connecting,
    {
        RelaySession { plan, stage: RelayStage::Connecting }
    }

    /// Goes on after an event.
    pub fn advance(&mut self, e: RelayEvent, now: u64) -> (r: RelayStep)
        requires
            expected(old(self).stage, e),
        ensures
            final(self).plan@ == old(self).plan@,
            (final(self).stage, r@) == session_step(old(self).plan@, old(self).stage, e, now),
    {
        let proxied: bool = self.plan.proxy.is_some();
        match e {
            RelayEvent::Connected(true) => {
                if proxied {
                    self.stage = RelayStage::Handshaking;
                    RelayStep { report: None, next: RelayNext::Handshake }
                } else {
                    self.stage = RelayStage::Carrying(now);
                    RelayStep {
                        report: Some(self.plan.report("Active", 0, 0, now)),
                        next: RelayNext::Carry,
                    }
                }
            },
            RelayEvent::Connected(false) => {
                self.stage = RelayStage::Over;
                let report = if proxied {
                    Some(self.plan.report("Closed", 0, 0, now))
                } else {
                    None
                };
                RelayStep { report, next: RelayNext::End }
            },
            RelayEvent::Shaken(true) => {
                self.stage = RelayStage::Carrying(now);
                RelayStep {
                    report: Some(self.plan.report("Proxied", 0, 0, now)),
                    next: RelayNext::Carry,
                }
            },
            RelayEvent::Shaken(false) => {
                self.stage = RelayStage::Over;
                RelayStep {
                    report: Some(self.plan.report("Closed", 0, 0, now)),
                    next: RelayNext::End,
                }
            },
            RelayEvent::Carried(bytes) => {
                let since: u64 = match self.stage {
                    RelayStage::Carrying(t) => t,
                    _ => now,
                };
                self.stage = RelayStage::Over;
                let (sent, received) = match bytes {
                    Some(b) => b,
                    None => (0, 0),
                };
                RelayStep {
                    report: Some(self.plan.report("Closed", sent, received, since)),
                    next: RelayNext::End,
                }
            },
        }
    }
}

// ---------------------------------------------------------------------------------------------
// Whole sessions
// ---------------------------------------------------------------------------------------------

/// How the sockets of a session fare.
pub struct Fate {
    pub connected: bool,
    pub shaken: bool,
    pub carried: Option<(u64, u64)>,
    /// When the connection was made or failed.
    pub connect_time: u64,
    /// When the handshake ended.
    pub shake_time: u64,
    /// When the connection ended.
    pub end_time: u64,
}

/// The event that follows at a stage.
pub open spec fn fated(stage: RelayStage, f: Fate) -> (RelayEvent, u64) {
    match stage {
        RelayStage::Connecting => (RelayEvent::Connected(f.connected), f.connect_time),
        RelayStage::Handshaking => (RelayEvent::Shaken(f.shaken), f.shake_time),
        _ => (RelayEvent::Carried(f.carried), f.end_time),
    }
}

/// An upper bound for the events that are left.
pub open spec fn events_left(stage: RelayStage) -> nat {
    match stage {
        RelayStage::Connecting => 3,
        RelayStage::Handshaking => 2,
        RelayStage::Carrying(_) => 1,
        RelayStage::Over => 0,
    }
}

/// All that is reported of a session from a stage on.
pub open spec fn session_reports(p: PlanView, stage: RelayStage, f: Fate) -> Seq<ConnectionView>
    decreases events_left(stage),
{
    if stage is Over {
        Seq::empty()
    } else {
        let (e, now) = fated(stage, f);
        let (next, step) = session_step(p, stage, e, now);
        let rest = session_reports(p, next, f);
        match step.report {
            Some(report) => seq![report] + rest,
            None => rest,
        }
    }
}

/// What is reported of a whole session. A connection that a proxy carries is reported when it is
/// carried, and when it ends; one that the proxy does not carry, only as ended. Without a proxy
/// it is reported when it is carried and when it ends, and not at all where it could not be made.
pub proof fn whole_session_reports(p: PlanView, f: Fate)
    ensures
        session_reports(p, RelayStage::Connecting, f) == (if p.proxy is Some {
            if !f.connected {
                seq![relay_event(p, "Closed"@, f.connect_time)]
            } else if !f.shaken {
                seq![relay_event(p, "Closed"@, f.shake_time)]
            } else {
                seq![
                    relay_event(p, "Proxied"@, f.shake_time),
                    closing_event(p, f.carried, f.shake_time),
                ]
            }
        } else if f.connected {
            seq![
                relay_event(p, "Active"@, f.connect_time),
                closing_event(p, f.carried, f.connect_time),
            ]
        } else {
            Seq::empty()
        }),
{
    reveal_with_fuel(session_reports, 4);
    let r = session_reports(p, RelayStage::Connecting, f);
    if p.proxy is Some {
        if !f.connected {
            assert(r =~= seq![relay_event(p, "Closed"@, f.connect_time)]);
        } else if !f.shaken {
            assert(r =~= seq![relay_event(p, "Closed"@, f.shake_time)]);
        } else {
            assert(r =~= seq![
                relay_event(p, "Proxied"@, f.shake_time),
                closing_event(p, f.carried, f.shake_time),
            ]);
        }
    } else if f.connected {
        assert(r =~= seq![
            relay_event(p, "Active"@, f.connect_time),
            closing_event(p, f.carried, f.connect_time),
        ]);
    }
}

/// The last report of a session says that it is closed, and all its reports are of the same
/// connection.
pub proof fn last_report_is_closed(p: PlanView, f: Fate)
    ensures
        ({
            let r = session_reports(p, RelayStage::Connecting, f);
            &&& r.len() > 0 ==> r.last().status == "Closed"@
            &&& forall|i: int|
                0 <= i < r.len() ==> (#[trigger] r[i]).id == connection_id(
                    p.process_name,
                    p.client_port,
                    p.dest.0,
                    p.dest.1,
                )
        }),
{
    whole_session_reports(p, f);
}

/// A TCP packet that was redirected goes to the port on which the relay listens, on the machine
/// itself, and keeps the port by which the relay finds out where it was going.
pub proof fn redirected_packet_reaches_relay(d: Seq<u8>, h: HeaderView)
    requires
        parsed(d) == Some(h),
        whole_header(h),
        h.is_tcp,
    ensures
        ({
            let after = parsed(redirected(d, h));
            &&& after is Some
            &&& after->0.dest == loopback_octets(h.dest)
            &&& after->0.dest_port == TCP_LISTEN_PORT
            &&& after->0.src_port == h.src_port
        }),
{
    redirect_changes_destination(d, h);
}

/// A proxy of the pool is found by its identifier.
proof fn pool_proxy_is_found(config: Seq<ProxyView>, id: Seq<char>)
    ensures
        match proxy_by_id(config, id) {
            Some(p) => p.id == id && config.contains(p),
            None => !has_proxy(config, id),
        },
    decreases config.len(),
{
    if config.len() > 0 {
        if config[0].id == id {
            assert(config.contains(config[0]));
        } else {
            let rest = config.drop_first();
            pool_proxy_is_found(rest, id);
            match proxy_by_id(rest, id) {
                Some(p) => {
                    let i = choose|i: int| 0 <= i < rest.len() && rest[i] == p;
                    assert(config[i + 1] == p);
                },
                None => {
                    if has_proxy(config, id) {
                        let i = choose|i: int|
                            0 <= i < config.len() && (#[trigger] config[i]).id == id;
                        assert(rest[i - 1].id == id);
                    }
                },
            }
        }
    }
}

/// A connection that was redirected is carried on to the destination that it had, by the proxy
/// that was selected for it, which is one of the pool whenever there is one.
pub proof fn redirected_connection_is_carried_on(
    s: EngineView,
    h: HeaderView,
    name: Seq<char>,
    len: u64,
    now: u64,
)
    requires
        !excluded_process(name),
        chosen_action(s, h, name) == RuleAction::Proxy,
    ensures
        ({
            let after = state_after_routing(s, h, name, len, Some(now));
            let id = selected_proxy(s.config, bound_proxy(s, name));
            &&& planned(after, h.src_port) matches Some(plan)
            &&& plan.client_port == h.src_port
            &&& plan.dest == (h.dest, h.dest_port)
            &&& plan.proxy == proxy_by_id(s.config, id)
            &&& s.config.len() > 0 ==> (plan.proxy matches Some(p) && p.id == id
                && s.config.contains(p))
        }),
{
    let wanted = bound_proxy(s, name);
    selected_proxy_is_of_pool(s.config, wanted);
    pool_proxy_is_found(s.config, selected_proxy(s.config, wanted));
}

// ---------------------------------------------------------------------------------------------
// Laws on plans and reports
// ---------------------------------------------------------------------------------------------

/// A proxy is found by its identifier alone: the first of the pool that has it, wherever that
/// stands and whatever else it is.
pub proof fn first_proxy_with_the_identifier_is_found(
    config: Seq<ProxyView>,
    id: Seq<char>,
    i: int,
)
    requires
        0 <= i <= config.len(),
        forall|j: int| 0 <= j < i ==> (#[trigger] config[j]).id != id,
        i < config.len() ==> config[i].id == id,
    ensures
        i < config.len() ==> proxy_by_id(config, id) == Some(config[i]),
        i == config.len() ==> proxy_by_id(config, id) is None,
    decreases config.len(),
{
    if config.len() > 0 && i > 0 {
        let rest = config.drop_first();
        assert(config[0].id != id);
        assert forall|j: int| 0 <= j < i - 1 implies (#[trigger] rest[j]).id != id by {
            assert(rest[j] == config[j + 1]);
        }
        first_proxy_with_the_identifier_is_found(rest, id, i - 1);
    }
}

/// A connection is carried on exactly where its port was redirected: to the destination that was
/// noted of the port, by the proxy that was, for the process that is known to own the port.
pub proof fn plans_follow_what_was_noted(s: EngineView, port: u16)
    ensures
        planned(s, port) is Some <==> s.redirect_table.dom().contains(port),
        planned(s, port) matches Some(p) ==> {
            &&& p.client_port == port
            &&& p.dest == s.redirect_table[port].dest
            &&& p.proxy == proxy_by_id(s.config, s.redirect_table[port].proxy_id)
            &&& s.pid_cache.dom().contains(port) ==> p.pid == s.pid_cache[port].pid
                && p.process_name == s.pid_cache[port].process_name
            &&& !s.pid_cache.dom().contains(port) ==> p.pid == 0 && p.process_name == "Unknown"@
        },
{
}

/// A connection that a proxy carries is made to the proxy's host and port, and any other one to its
/// own destination.
pub proof fn targets_name_host_and_port(p: PlanView)
    ensures
        p.proxy is None ==> target_text(p) == socket_text(p.dest.0, p.dest.1),
        p.proxy matches Some(proxy) ==> exists|port: Seq<char>|
            is_decimal(port, proxy.port as int) && target_text(p) == #[trigger] (proxy.host + ":"@
                + port),
{
    if let Some(proxy) = p.proxy {
        let port = decimal(proxy.port as nat);
        decimal_reads_back(proxy.port as nat);
        reveal_strlit(":");
        assert(target_text(p) =~= proxy.host + ":"@ + port);
    }
}

/// A report of the relay names the process and the destination, and comes from the client's port
/// on the machine itself; it is of a proxied connection exactly where a proxy carries it. The
/// bytes are those that were carried where both directions ended well, and else none.
pub proof fn relay_reports_tell_the_connection(
    p: PlanView,
    status: Seq<char>,
    now: u64,
    bytes: Option<(u64, u64)>,
)
    ensures
        ({
            let e = relay_event(p, status, now);
            &&& e.id == connection_id(p.process_name, p.client_port, p.dest.0, p.dest.1)
            &&& e.pid == p.pid
            &&& e.process_name == p.process_name
            &&& e.protocol == "TCP"@
            &&& exists|port: Seq<char>|
                is_decimal(port, p.client_port as int) && e.source_addr == #[trigger] ("127.0.0.1:"@
                    + port)
            &&& e.original_dest == socket_text(p.dest.0, p.dest.1)
            &&& p.proxy is Some ==> e.action == "Proxy"@
            &&& p.proxy is None ==> e.action == "Direct"@
            &&& e.bytes_sent == 0
            &&& e.bytes_received == 0
            &&& e.timestamp == now
            &&& e.status == status
        }),
        ({
            let e = relay_event(p, "Closed"@, now);
            let c = closing_event(p, bytes, now);
            &&& bytes is None ==> c == e
            &&& bytes matches Some(b) ==> {
                &&& c.bytes_sent == b.0
                &&& c.bytes_received == b.1
                &&& c == (ConnectionView {
                    bytes_sent: c.bytes_sent,
                    bytes_received: c.bytes_received,
                    ..e
                })
            }
        }),
{
    let port = decimal(p.client_port as nat);
    decimal_reads_back(p.client_port as nat);
    assert(relay_event(p, status, now).source_addr == "127.0.0.1:"@ + port);
}

/// A session that stands goes on with what is due: the handshake where a proxy carries it, and
/// then the bytes; whatever fails ends it, and so does the end of the bytes.
pub proof fn sessions_go_on_in_order(p: PlanView, stage: RelayStage, e: RelayEvent, now: u64)
    requires
        expected(stage, e),
    ensures
        ({
            let (after, step) = session_step(p, stage, e, now);
            &&& step.next is Handshake <==> e == RelayEvent::Connected(true) && p.proxy is Some
            &&& step.next is Carry <==> e == RelayEvent::Shaken(true) || (e
                == RelayEvent::Connected(true) && p.proxy is None)
            &&& after is Handshaking <==> step.next is Handshake
            &&& after is Carrying <==> step.next is Carry
            &&& after is Over <==> step.next is End
            &&& after matches RelayStage::Carrying(since) ==> since == now
            &&& step.report is None <==> (e is Connected && (step.next is Handshake || (step.next
                is End && p.proxy is None)))
            &&& step.report matches Some(report) ==> {
                &&& step.next is End ==> report.status == "Closed"@
                &&& e is Connected && step.next is Carry ==> report.status == "Active"@
                &&& e is Shaken && step.next is Carry ==> report.status == "Proxied"@
                &&& stage matches RelayStage::Carrying(since) ==> report.timestamp == since
                &&& !(stage is Carrying) ==> report.timestamp == now
                &&& e == RelayEvent::Carried(None) ==> report.bytes_sent == 0
                    && report.bytes_received == 0
                &&& e matches RelayEvent::Carried(Some(b)) ==> report.bytes_sent == b.0
                    && report.bytes_received == b.1
                &&& !(e is Carried) ==> report.bytes_sent == 0 && report.bytes_received == 0
            }
        }),
{
}

/// An event can happen exactly where what it ends is under way.
pub proof fn events_end_what_is_under_way(stage: RelayStage, e: RelayEvent)
    ensures
        expected(stage, e) <==> (stage is Connecting && e is Connected) || (stage is Handshaking
            && e is Shaken) || (stage is Carrying && e is Carried),
{
}

/// The models of plans and steps tell all of them.
pub proof fn relay_models_are_whole(p: RelayPlan, step: RelayStep, o: Option<ProxyConfig>)
    ensures
        p@.client_port == p.client_port,
        p@.dest == p.dest@,
        p@.proxy == proxy_option(p.proxy),
        p@.pid == p.pid,
        p@.process_name == p.process_name@,
        o is None <==> proxy_option(o) is None,
        o matches Some(proxy) ==> proxy_option(o) == Some(proxy@),
        step@.next == step.next,
        step.report is None <==> step@.report is None,
        step.report matches Some(e) ==> step@.report == Some(e@),
{
}

}
