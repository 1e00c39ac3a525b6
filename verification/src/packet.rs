//! Captured packets: what they are, what is done with them, and how their addresses are
//! rewritten so that a connection passes through the local relay.
use crate::address::{
    endpoint_text, endpoint_to_text, ip_text, ipv4, ipv6_at, is_local_ip, local_network,
    port_follows_address, IpAddr, SocketAddr,
};
use crate::engine::{EngineState, EngineView, RedirectTable, RedirectView};
use crate::event::{connection_id, make_connection_id, protocol_name, protocol_text};
use crate::handshake::port_bytes;
use crate::model::{
    text_option, views, ConnectionInfo, ConnectionView, ProxyConfig, ProxyView, RuleAction,
};
use crate::rules::{
    excluded_process, find_rule, first_covering_rule_applies, first_match, first_match_is_first,
    is_excluded_process, pattern_matches,
};
use crate::text::{is_decimal, same_text};
use crate::traffic::{has_room, recorded, Totals};
use vstd::prelude::*;
use vstd::string::*;

verus! {

// ---------------------------------------------------------------------------------------------
// Headers
// ---------------------------------------------------------------------------------------------

/// What the headers of a TCP or UDP packet say.
#[derive(Clone, Copy, Debug, PartialEq, Eq)]
pub struct PacketHeader {
    pub src_ip: IpAddr,
    pub dest_ip: IpAddr,
    /// TCP, else UDP.
    pub is_tcp: bool,
    pub src_port: u16,
    pub dest_port: u16,
    /// The length of the IP header, where the ports begin.
    pub header_len: usize,
}

/// The model of a [`PacketHeader`].
#[verifier::ext_equal]
pub struct HeaderView {
    pub src: Seq<u8>,
    pub dest: Seq<u8>,
    pub is_tcp: bool,
    pub src_port: u16,
    pub dest_port: u16,
    pub header_len: int,
}

impl View for PacketHeader {
    type V = HeaderView;

    open spec fn view(&self) -> HeaderView {
        HeaderView {
            src: self.src_ip@,
            dest: self.dest_ip@,
            is_tcp: self.is_tcp,
            src_port: self.src_port,
            dest_port: self.dest_port,
            header_len: self.header_len as int,
        }
    }
}

/// The port that stands in the bytes at `at`, the more significant byte first.
pub open spec fn port_in(d: Seq<u8>, at: int) -> u16 {
    (d[at] * 256 + d[at + 1]) as u16
}

/// The header of a packet of protocol number `proto`, given the addresses and the length of the
/// IP header: only TCP and UDP packets that hold their ports have one.
pub open spec fn transport(d: Seq<u8>, src: Seq<u8>, dest: Seq<u8>, proto: u8, len: int) -> Option<
    HeaderView,
> {
    if (proto == 6 || proto == 17) && d.len() >= len + 4 {
        Some(
            HeaderView {
                src,
                dest,
                is_tcp: proto == 6,
                src_port: port_in(d, len),
                dest_port: port_in(d, len + 2),
                header_len: len,
            },
        )
    } else {
        None
    }
}

/// The header of a packet: version 4, or version 6 with at least forty bytes.
pub open spec fn parsed(d: Seq<u8>) -> Option<HeaderView> {
    if d.len() < 20 {
        None
    } else if d[0] / 16 == 4 {
        transport(d, d.subrange(12, 16), d.subrange(16, 20), d[9], (d[0] % 16) * 4)
    } else if d[0] / 16 == 6 && d.len() >= 40 {
        transport(d, d.subrange(8, 24), d.subrange(24, 40), d[6], 40)
    } else {
        None
    }
}

/// The port that stands in the bytes at `at`.
fn read_port_in(d: &Vec<u8>, at: usize) -> (r: u16)
    requires
        at + 2 <= d@.len(),
    ensures
        r == port_in(d@, at as int),
{
    assert(d.len() == d@.len());
    d[at] as u16 * 256 + d[at + 1] as u16
}

/// The header of a packet.
pub fn parse_packet(d: &Vec<u8>) -> (r: Option<PacketHeader>)
    ensures
        match r {
            Some(h) => parsed(d@) == Some(h@) && (h.src_ip is V4 <==> h.dest_ip is V4),
            None => parsed(d@) is None,
        },
{
    let n: usize = d.len();
    if n < 20 {
        return None;
    }
    let first: u8 = d[0];
    assert(first >> 4 == first / 16 && first & 0x0F == first % 16) by (bit_vector);
    let version: u8 = first >> 4;
    let (src_ip, dest_ip, proto, header_len) = if version == 4 {
        let src = ipv4(d[12], d[13], d[14], d[15]);
        let dest = ipv4(d[16], d[17], d[18], d[19]);
        assert(src@ =~= d@.subrange(12, 16));
        assert(dest@ =~= d@.subrange(16, 20));
        (src, dest, d[9], ((first & 0x0F) as usize) * 4)
    } else if version == 6 && n >= 40 {
        (ipv6_at(d.as_slice(), 8), ipv6_at(d.as_slice(), 24), d[6], 40usize)
    } else {
        return None;
    };
    let is_tcp: bool = proto == 6;
    let is_udp: bool = proto == 17;
    if !is_tcp && !is_udp {
        return None;
    }
    if n < header_len + 4 {
        return None;
    }
    Some(
        PacketHeader {
            src_ip,
            dest_ip,
            is_tcp,
            src_port: read_port_in(d, header_len),
            dest_port: read_port_in(d, header_len + 2),
            header_len,
        },
    )
}

// ---------------------------------------------------------------------------------------------
// Rewriting
// ---------------------------------------------------------------------------------------------

/// The local port to which TCP connections are redirected.
pub const TCP_RELAY_PORT: u16 = 34010;

/// The local port to which UDP packets are redirected.
pub const UDP_RELAY_PORT: u16 = 34011;

/// The port of the relay for a protocol.
pub open spec fn relay_port(is_tcp: bool) -> u16 {
    if is_tcp {
        TCP_RELAY_PORT
    } else {
        UDP_RELAY_PORT
    }
}

/// `d` with `b` written over it from `at` on.
pub open spec fn overwritten(d: Seq<u8>, at: int, b: Seq<u8>) -> Seq<u8> {
    Seq::new(
        d.len(),
        |i: int|
            if at <= i < at + b.len() {
                b[i - at]
            } else {
                d[i]
            },
    )
}

/// Where the source address stands in a packet whose addresses have so many octets.
pub open spec fn source_at(octets: Seq<u8>) -> int {
    if octets.len() == 4 {
        12
    } else {
        8
    }
}

/// The octets of the loopback address of the version of `octets`.
pub open spec fn loopback_octets(octets: Seq<u8>) -> Seq<u8> {
    if octets.len() == 4 {
        seq![127, 0, 0, 1]
    } else {
        seq![0, 0, 0, 0, 0, 0, 0, 0, 0, 0, 0, 0, 0, 0, 0, 1]
    }
}

/// A packet of the relay with the address from which the answer was expected as its source.
pub open spec fn restored(d: Seq<u8>, h: HeaderView, dest: (Seq<u8>, u16)) -> Seq<u8> {
    overwritten(overwritten(d, source_at(dest.0), dest.0), h.header_len, port_bytes(dest.1))
}

/// A packet with the relay as its destination.
pub open spec fn redirected(d: Seq<u8>, h: HeaderView) -> Seq<u8> {
    let at = if h.dest.len() == 4 {
        16
    } else {
        24
    };
    overwritten(
        overwritten(d, at, loopback_octets(h.dest)),
        h.header_len + 2,
        port_bytes(relay_port(h.is_tcp)),
    )
}

/// The port of the relay for a protocol.
pub fn relay_port_for(is_tcp: bool) -> (r: u16)
    ensures
        r == relay_port(is_tcp),
{
    if is_tcp {
        TCP_RELAY_PORT
    } else {
        UDP_RELAY_PORT
    }
}

/// Writes an address over the bytes from `at` on.
fn write_ip(d: &mut Vec<u8>, at: usize, ip: &IpAddr)
    requires
        at + ip@.len() <= old(d)@.len(),
    ensures
        final(d)@ == overwritten(old(d)@, at as int, ip@),
{
    let n: usize = ip.octet_count();
    let len: usize = d.len();
    let ghost before = d@;
    let mut i: usize = 0;
    assert(d@ =~= overwritten(before, at as int, ip@.take(0)));
    while i < n
        invariant
            i <= n == ip@.len(),
            at + n <= len == before.len(),
            d@ == overwritten(before, at as int, ip@.take(i as int)),
        decreases n - i,
    {
        d.set(at + i, ip.octet(i));
        i += 1;
        assert(d@ =~= overwritten(before, at as int, ip@.take(i as int)));
    }
    assert(ip@.take(n as int) =~= ip@);
}

/// Writes a port over the two bytes at `at`.
fn write_port(d: &mut Vec<u8>, at: usize, port: u16)
    requires
        at + 2 <= old(d)@.len(),
    ensures
        final(d)@ == overwritten(old(d)@, at as int, port_bytes(port)),
{
    assert(d.len() == d@.len());
    d.set(at, (port / 256) as u8);
    d.set(at + 1, (port % 256) as u8);
    assert(d@ =~= overwritten(old(d)@, at as int, port_bytes(port)));
}

/// Whether the packet has room for the source address that `dest` would give it.
pub fn restore_fits(d: &Vec<u8>, h: &PacketHeader, dest: &SocketAddr) -> (r: bool)
    requires
        parsed(d@) == Some(h@),
    ensures
        r == (source_at(dest.ip@) + dest.ip@.len() <= d@.len()),
{
    match dest.ip {
        IpAddr::V4(_) => true,
        IpAddr::V6(_) => d.len() >= 24,
    }
}

/// Gives a packet of the relay the address from which the answer was expected as its source.
pub fn restore_source(d: &mut Vec<u8>, h: &PacketHeader, dest: &SocketAddr)
    requires
        parsed(old(d)@) == Some(h@),
        source_at(dest.ip@) + dest.ip@.len() <= old(d)@.len(),
    ensures
        final(d)@ == restored(old(d)@, h@, dest@),
{
    let at: usize = match dest.ip {
        IpAddr::V4(_) => 12,
        IpAddr::V6(_) => 8,
    };
    write_ip(d, at, &dest.ip);
    write_port(d, h.header_len, dest.port);
}

/// Gives a packet the relay as its destination.
pub fn redirect_packet(d: &mut Vec<u8>, h: &PacketHeader)
    requires
        parsed(old(d)@) == Some(h@),
    ensures
        final(d)@ == redirected(old(d)@, h@),
{
    match h.dest_ip {
        IpAddr::V4(_) => {
            let ip = ipv4(127, 0, 0, 1);
            write_ip(d, 16, &ip);
        },
        IpAddr::V6(_) => {
            let ip = IpAddr::V6([0, 0, 0, 0, 0, 0, 0, 0, 0, 0, 0, 0, 0, 0, 0, 1]);
            assert(ip@ =~= loopback_octets(h.dest_ip@));
            write_ip(d, 24, &ip);
        },
    }
    write_port(d, h.header_len + 2, relay_port_for(h.is_tcp));
}

// ---------------------------------------------------------------------------------------------
// Classification
// ---------------------------------------------------------------------------------------------

/// What a captured packet is.
#[derive(Clone, Copy, Debug, PartialEq, Eq)]
pub enum PacketClass {
    /// A packet that passes as it is.
    Pass,
    /// An answer of the relay, whose source becomes this address.
    Answer(PacketHeader, SocketAddr),
    /// A packet that came in, to be counted for the owner of its destination port.
    Inbound(PacketHeader),
    /// A packet that goes out, to be routed by the owner of its source port.
    Outbound(PacketHeader),
}

/// The model of a [`PacketClass`].
pub enum ClassView {
    Pass,
    Answer(HeaderView, (Seq<u8>, u16)),
    Inbound(HeaderView),
    Outbound(HeaderView),
}

impl View for PacketClass {
    type V = ClassView;

    open spec fn view(&self) -> ClassView {
        match self {
            PacketClass::Pass => ClassView::Pass,
            PacketClass::Answer(h, a) => ClassView::Answer(h@, a@),
            PacketClass::Inbound(h) => ClassView::Inbound(h@),
            PacketClass::Outbound(h) => ClassView::Outbound(h@),
        }
    }
}

/// What a captured packet is. A packet from the relay's port to a redirected port is an answer
/// of the relay; every other packet to the relay's port passes, and so does one without ports.
pub open spec fn classified(
    d: Seq<u8>,
    outbound: bool,
    redirects: Map<u16, RedirectView>,
) -> ClassView {
    match parsed(d) {
        None => ClassView::Pass,
        Some(h) => {
            if h.src_port == relay_port(h.is_tcp) && redirects.contains_key(h.dest_port) {
                ClassView::Answer(h, redirects[h.dest_port].dest)
            } else if h.dest_port == relay_port(h.is_tcp) {
                ClassView::Pass
            } else if outbound {
                ClassView::Outbound(h)
            } else {
                ClassView::Inbound(h)
            }
        },
    }
}

/// What a captured packet is.
pub fn classify_packet(d: &Vec<u8>, outbound: bool, redirects: &RedirectTable) -> (r: PacketClass)
    ensures
        r@ == classified(d@, outbound, redirects@),
        match r {
            PacketClass::Pass => true,
            PacketClass::Answer(h, _) => parsed(d@) == Some(h@),
            PacketClass::Inbound(h) => parsed(d@) == Some(h@),
            PacketClass::Outbound(h) => parsed(d@) == Some(h@),
        },
{
    let h = match parse_packet(d) {
        Some(h) => h,
        None => {
            return PacketClass::Pass;
        },
    };
    let relay: u16 = relay_port_for(h.is_tcp);
    if h.src_port == relay {
        match redirects.get(h.dest_port) {
            Some(e) => {
                return PacketClass::Answer(h, e.dest);
            },
            None => {},
        }
    }
    if h.dest_port == relay {
        return PacketClass::Pass;
    }
    if outbound {
        PacketClass::Outbound(h)
    } else {
        PacketClass::Inbound(h)
    }
}

// ---------------------------------------------------------------------------------------------
// Packets that came in
// ---------------------------------------------------------------------------------------------

/// The owner of a port is known well enough for its packets to be counted.
pub open spec fn counted_owner(pid: u32, name: Seq<char>) -> bool {
    pid > 0 && name != "Unknown"@
}

/// The statistics after a packet of `len` bytes came in for a process.
pub open spec fn inbound_counted(
    stats: Map<Seq<char>, Totals>,
    pid: u32,
    name: Seq<char>,
    len: u64,
    now: u64,
) -> Map<Seq<char>, Totals> {
    if counted_owner(pid, name) {
        recorded(stats, name, 0, len, now)
    } else {
        stats
    }
}

/// Counts a packet of `len` bytes that came in for a process.
pub fn count_inbound(state: &mut EngineState, pid: u32, name: &str, len: u64, now: u64)
    requires
        old(state).wf(),
        counted_owner(pid, name@) ==> has_room(old(state)@.traffic_stats, name@, 0, len),
    ensures
        final(state).wf(),
        final(state)@ == (EngineView {
            traffic_stats: inbound_counted(old(state)@.traffic_stats, pid, name@, len, now),
            ..old(state)@
        }),
{
    if pid > 0 && !same_text(name, "Unknown") {
        state.traffic_stats.record(name, 0, len, now);
    }
}

// ---------------------------------------------------------------------------------------------
// Packets that go out
// ---------------------------------------------------------------------------------------------

/// What is done with a packet that goes out: what the first rule for its process says, or it
/// passes; but name queries go by the flag for them, and nothing of the local network is
/// redirected or blocked while that is bypassed.
pub open spec fn chosen_action(s: EngineView, h: HeaderView, name: Seq<char>) -> RuleAction {
    if s.bypass_local && local_network(h.dest) {
        RuleAction::Direct
    } else if !h.is_tcp && h.dest_port == 53 {
        if s.proxy_dns {
            RuleAction::Proxy
        } else {
            RuleAction::Direct
        }
    } else {
        match first_match(s.rules, name) {
            Some(rule) => rule.action,
            None => RuleAction::Direct,
        }
    }
}

/// The proxy to which the first rule for a process binds it.
pub open spec fn bound_proxy(s: EngineView, name: Seq<char>) -> Option<Seq<char>> {
    match first_match(s.rules, name) {
        Some(rule) => rule.proxy_id,
        None => None,
    }
}

/// The first primary proxy.
pub open spec fn first_primary(config: Seq<ProxyView>) -> Option<Seq<char>>
    decreases config.len(),
{
    if config.len() == 0 {
        None
    } else if config[0].is_primary {
        Some(config[0].id)
    } else {
        first_primary(config.drop_first())
    }
}

/// A proxy of the pool has this identifier.
pub open spec fn has_proxy(config: Seq<ProxyView>, id: Seq<char>) -> bool {
    exists|i: int| 0 <= i < config.len() && (#[trigger] config[i]).id == id
}

/// The proxy that carries a connection: the wanted one if the pool has it, else the primary one,
/// else the first.
pub open spec fn selected_proxy(config: Seq<ProxyView>, wanted: Option<Seq<char>>) -> Seq<char> {
    let id = match wanted {
        Some(w) => w,
        None => Seq::empty(),
    };
    if has_proxy(config, id) {
        id
    } else {
        match first_primary(config) {
            Some(p) => p,
            None => if config.len() > 0 {
                config[0].id
            } else {
                "default"@
            },
        }
    }
}

/// How a packet that goes out is reported.
pub open spec fn outbound_event(
    h: HeaderView,
    pid: u32,
    name: Seq<char>,
    action: RuleAction,
    len: u64,
    now: u64,
) -> ConnectionView {
    ConnectionView {
        id: connection_id(name, h.src_port, h.dest, h.dest_port),
        pid,
        process_name: name,
        protocol: protocol_text(h.is_tcp),
        source_addr: endpoint_text(h.src, h.src_port),
        original_dest: endpoint_text(h.dest, h.dest_port),
        action: action.text(),
        bytes_sent: len,
        bytes_received: 0,
        timestamp: now,
        status: if action == RuleAction::Block {
            "Blocked"@
        } else {
            "Active"@
        },
    }
}

/// What became of a packet that goes out.
#[derive(Debug, PartialEq, Eq)]
pub enum Routed {
    /// The packet passes and is not reported: its process is left alone.
    Ignored,
    /// The time could not be told.
    NoTime,
    /// The packet is reported as blocked.
    Blocked(ConnectionInfo),
    /// The packet passes.
    Direct(ConnectionInfo),
    /// The packet was redirected to the relay.
    Redirected(ConnectionInfo),
}

/// The model of a [`Routed`].
pub enum RoutedView {
    Ignored,
    NoTime,
    Blocked(ConnectionView),
    Direct(ConnectionView),
    Redirected(ConnectionView),
}

impl View for Routed {
    type V = RoutedView;

    open spec fn view(&self) -> RoutedView {
        match self {
            Routed::Ignored => RoutedView::Ignored,
            Routed::NoTime => RoutedView::NoTime,
            Routed::Blocked(e) => RoutedView::Blocked(e@),
            Routed::Direct(e) => RoutedView::Direct(e@),
            Routed::Redirected(e) => RoutedView::Redirected(e@),
        }
    }
}

/// What becomes of a packet that goes out.
pub open spec fn routed(
    s: EngineView,
    h: HeaderView,
    pid: u32,
    name: Seq<char>,
    len: u64,
    now: Option<u64>,
) -> RoutedView {
    if excluded_process(name) {
        RoutedView::Ignored
    } else {
        match now {
            None => RoutedView::NoTime,
            Some(t) => {
                let action = chosen_action(s, h, name);
                let event = outbound_event(h, pid, name, action, len, t);
                match action {
                    RuleAction::Block => RoutedView::Blocked(event),
                    RuleAction::Direct => RoutedView::Direct(event),
                    RuleAction::Proxy => RoutedView::Redirected(event),
                }
            },
        }
    }
}

/// The state after a packet that goes out: it is counted for its process, and where it was
/// redirected, its destination and proxy are noted.
pub open spec fn state_after_routing(
    s: EngineView,
    h: HeaderView,
    name: Seq<char>,
    len: u64,
    now: Option<u64>,
) -> EngineView {
    if excluded_process(name) || now is None {
        s
    } else {
        let counted = EngineView {
            traffic_stats: recorded(s.traffic_stats, name, len, 0, now->0),
            ..s
        };
        if chosen_action(s, h, name) == RuleAction::Proxy {
            EngineView {
                redirect_table: s.redirect_table.insert(
                    h.src_port,
                    RedirectView {
                        dest: (h.dest, h.dest_port),
                        proxy_id: selected_proxy(s.config, bound_proxy(s, name)),
                    },
                ),
                ..counted
            }
        } else {
            counted
        }
    }
}

/// What is done with a packet that goes out.
pub fn choose_action(state: &EngineState, h: &PacketHeader, name: &str) -> (r: RuleAction)
    ensures
        r == chosen_action(state@, h@, name@),
{
    if state.bypass_local && is_local_ip(h.dest_ip) {
        return RuleAction::Direct;
    }
    if !h.is_tcp && h.dest_port == 53 {
        return if state.proxy_dns {
            RuleAction::Proxy
        } else {
            RuleAction::Direct
        };
    }
    match find_rule(&state.rules, name) {
        Some(i) => state.rules[i].action,
        None => RuleAction::Direct,
    }
}

/// The proxy that carries a connection.
pub fn select_proxy(config: &Vec<ProxyConfig>, wanted: &Option<String>) -> (r: String)
    ensures
        r@ == selected_proxy(views(config@), text_option(*wanted)),
{
    let id = match wanted {
        Some(w) => w.clone(),
        None => String::new(),
    };
    let n: usize = config.len();
    let ghost all = views(config@);
    let mut i: usize = 0;
    while i < n
        invariant
            i <= n == config@.len(),
            all == views(config@),
            id@ == (match text_option(*wanted) {
                Some(w) => w,
                None => Seq::empty(),
            }),
            forall|j: int| 0 <= j < i ==> (#[trigger] all[j]).id != id@,
        decreases n - i,
    {
        if config[i].id == id {
            assert(all[i as int].id == id@);
            return id;
        }
        i += 1;
    }
    assert(!has_proxy(all, id@));
    i = 0;
    assert(all.skip(0) =~= all);
    while i < n
        invariant
            i <= n == config@.len(),
            all == views(config@),
            first_primary(all) == first_primary(all.skip(i as int)),
            !has_proxy(all, id@),
            id@ == (match text_option(*wanted) {
                Some(w) => w,
                None => Seq::empty(),
            }),
        decreases n - i,
    {
        if config[i].is_primary {
            return config[i].id.clone();
        }
        assert(all.skip(i as int).drop_first() =~= all.skip(i + 1));
        i += 1;
    }
    if n > 0 {
        config[0].id.clone()
    } else {
        "default".to_string()
    }
}

/// How a packet that goes out is reported.
pub fn report_outbound(
    h: &PacketHeader,
    pid: u32,
    name: &str,
    action: RuleAction,
    len: u64,
    now: u64,
) -> (r: ConnectionInfo)
    ensures
        r@ == outbound_event(h@, pid, name@, action, len, now),
{
    ConnectionInfo {
        id: make_connection_id(name, h.src_port, &h.dest_ip, h.dest_port),
        pid,
        process_name: name.to_string(),
        protocol: protocol_name(h.is_tcp),
        source_addr: endpoint_to_text(&h.src_ip, h.src_port),
        original_dest: endpoint_to_text(&h.dest_ip, h.dest_port),
        action: action.to_text(),
        bytes_sent: len,
        bytes_received: 0,
        timestamp: now,
        status: match action {
            RuleAction::Block => "Blocked".to_string(),
            _ => "Active".to_string(),
        },
    }
}

/// Routes a packet that goes out from the process `name`.
///
/// `now` is the time in milliseconds since the Unix epoch, if it can be told.
pub fn route_packet(
    state: &mut EngineState,
    d: &mut Vec<u8>,
    h: &PacketHeader,
    pid: u32,
    name: &str,
    now: Option<u64>,
) -> (r: Routed)
    requires
        old(state).wf(),
        parsed(old(d)@) == Some(h@),
        !excluded_process(name@) && now is Some ==> has_room(
            old(state)@.traffic_stats,
            name@,
            old(d)@.len() as u64,
            0,
        ),
    ensures
        final(state).wf(),
        r@ == routed(old(state)@, h@, pid, name@, old(d)@.len() as u64, now),
        final(state)@ == state_after_routing(
            old(state)@,
            h@,
            name@,
            old(d)@.len() as u64,
            now,
        ),
        final(d)@ == (if r is Redirected {
            redirected(old(d)@, h@)
        } else {
            old(d)@
        }),
{
    if is_excluded_process(name) {
        return Routed::Ignored;
    }
    let time: u64 = match now {
        Some(t) => t,
        None => {
            return Routed::NoTime;
        },
    };
    let len: u64 = d.len() as u64;
    let action = choose_action(state, h, name);
    let event = report_outbound(h, pid, name, action, len, time);
    let wanted = match find_rule(&state.rules, name) {
        Some(i) => state.rules[i].proxy_id.clone(),
        None => None,
    };
    state.traffic_stats.record(name, len, 0, time);
    match action {
        RuleAction::Block => Routed::Blocked(event),
        RuleAction::Direct => Routed::Direct(event),
        RuleAction::Proxy => {
            let proxy_id = select_proxy(&state.config, &wanted);
            let dest = SocketAddr { ip: h.dest_ip, port: h.dest_port };
            state.redirect_table.insert(h.src_port, dest, proxy_id);
            redirect_packet(d, h);
            Routed::Redirected(event)
        },
    }
}

/// Routes a packet as [`route_packet`] does, unless there is no room to count it: then nothing
/// is done.
pub fn route_packet_if_counted(
    state: &mut EngineState,
    d: &mut Vec<u8>,
    h: &PacketHeader,
    pid: u32,
    name: &str,
    now: Option<u64>,
) -> (r: Option<Routed>)
    requires
        old(state).wf(),
        parsed(old(d)@) == Some(h@),
    ensures
        final(state).wf(),
        r is None <==> !excluded_process(name@) && now is Some && !has_room(
            old(state)@.traffic_stats,
            name@,
            old(d)@.len() as u64,
            0,
        ),
        match r {
            Some(outcome) => {
                &&& outcome@ == routed(old(state)@, h@, pid, name@, old(d)@.len() as u64, now)
                &&& final(state)@ == state_after_routing(
                    old(state)@,
                    h@,
                    name@,
                    old(d)@.len() as u64,
                    now,
                )
                &&& final(d)@ == (if outcome is Redirected {
                    redirected(old(d)@, h@)
                } else {
                    old(d)@
                })
            },
            None => final(state)@ == old(state)@ && final(d)@ == old(d)@,
        },
{
    if !is_excluded_process(name) && now.is_some() && !state.traffic_stats.fits(
        name,
        d.len() as u64,
        0,
    ) {
        return None;
    }
    Some(route_packet(state, d, h, pid, name, now))
}

// ---------------------------------------------------------------------------------------------
// Processing
// ---------------------------------------------------------------------------------------------

/// A packet that waits for the owner of a local port to be found.
#[derive(Clone, Copy, Debug, PartialEq, Eq)]
pub struct PendingPacket {
    pub header: PacketHeader,
    /// The packet came in, else it goes out.
    pub inbound: bool,
}

/// The model of a [`PendingPacket`].
pub struct PendingView {
    pub header: HeaderView,
    pub inbound: bool,
}

impl View for PendingPacket {
    type V = PendingView;

    open spec fn view(&self) -> PendingView {
        PendingView { header: self.header@, inbound: self.inbound }
    }
}

/// The local port of a pending packet.
pub open spec fn awaited_port(p: PendingView) -> u16 {
    if p.inbound {
        p.header.dest_port
    } else {
        p.header.src_port
    }
}

impl PendingPacket {
    /// The local port whose owner is to be found.
    pub fn port(&self) -> (r: u16)
        ensures
            r == awaited_port(self@),
    {
        if self.inbound {
            self.header.dest_port
        } else {
            self.header.src_port
        }
    }
}

/// What comes next for a captured packet.
#[derive(Debug, PartialEq, Eq)]
pub enum PacketStep {
    /// The owner of a local port is to be found.
    Owner(PendingPacket),
    /// The packet passes as it is, without a report.
    Leave,
    /// The packet passes as it is and is reported.
    Report(ConnectionInfo),
    /// The packet was rewritten: its checksums are to be computed anew, and it is to be marked
    /// so that it is not captured again.
    Rewritten(Option<ConnectionInfo>),
    /// The packet is reported as blocked, and goes no further.
    Blocked(ConnectionInfo),
    /// Processing the packet failed because the time could not be told.
    NoTime,
}

/// The model of a [`PacketStep`].
pub enum PacketStepView {
    Owner(PendingView),
    Leave,
    Report(ConnectionView),
    Rewritten(Option<ConnectionView>),
    Blocked(ConnectionView),
    NoTime,
}

impl View for PacketStep {
    type V = PacketStepView;

    open spec fn view(&self) -> PacketStepView {
        match self {
            PacketStep::Owner(p) => PacketStepView::Owner(p@),
            PacketStep::Leave => PacketStepView::Leave,
            PacketStep::Report(e) => PacketStepView::Report(e@),
            PacketStep::Rewritten(Some(e)) => PacketStepView::Rewritten(Some(e@)),
            PacketStep::Rewritten(None) => PacketStepView::Rewritten(None),
            PacketStep::Blocked(e) => PacketStepView::Blocked(e@),
            PacketStep::NoTime => PacketStepView::NoTime,
        }
    }
}

/// A packet has room for the source address that the answer of the relay is to have.
pub open spec fn answer_has_room(
    d: Seq<u8>,
    outbound: bool,
    redirects: Map<u16, RedirectView>,
) -> bool {
    match classified(d, outbound, redirects) {
        ClassView::Answer(_, dest) => source_at(dest.0) + dest.0.len() <= d.len(),
        _ => true,
    }
}

/// The first step for a captured packet.
pub open spec fn first_step(
    d: Seq<u8>,
    outbound: bool,
    redirects: Map<u16, RedirectView>,
) -> PacketStepView {
    match classified(d, outbound, redirects) {
        ClassView::Pass => PacketStepView::Leave,
        ClassView::Answer(_, _) => PacketStepView::Rewritten(None),
        ClassView::Inbound(header) => PacketStepView::Owner(PendingView { header, inbound: true }),
        ClassView::Outbound(header) => PacketStepView::Owner(
            PendingView { header, inbound: false },
        ),
    }
}

/// The bytes of a captured packet after its first step.
pub open spec fn after_first_step(
    d: Seq<u8>,
    outbound: bool,
    redirects: Map<u16, RedirectView>,
) -> Seq<u8> {
    match classified(d, outbound, redirects) {
        ClassView::Answer(h, dest) => restored(d, h, dest),
        _ => d,
    }
}

/// The last step for a packet, once the owner of its local port is known.
pub open spec fn last_step(
    s: EngineView,
    p: PendingView,
    pid: u32,
    name: Seq<char>,
    len: u64,
    now: Option<u64>,
) -> PacketStepView {
    if p.inbound {
        PacketStepView::Leave
    } else {
        match routed(s, p.header, pid, name, len, now) {
            RoutedView::Ignored => PacketStepView::Leave,
            RoutedView::NoTime => PacketStepView::NoTime,
            RoutedView::Blocked(e) => PacketStepView::Blocked(e),
            RoutedView::Direct(e) => PacketStepView::Report(e),
            RoutedView::Redirected(e) => PacketStepView::Rewritten(Some(e)),
        }
    }
}

/// The bytes of a packet after its last step.
pub open spec fn after_last_step(d: Seq<u8>, p: PendingView, step: PacketStepView) -> Seq<u8> {
    if step is Rewritten {
        redirected(d, p.header)
    } else {
        d
    }
}

/// The state after the last step for a packet.
pub open spec fn state_after_last_step(
    s: EngineView,
    p: PendingView,
    pid: u32,
    name: Seq<char>,
    len: u64,
    now: Option<u64>,
) -> EngineView {
    if p.inbound {
        EngineView {
            traffic_stats: inbound_counted(
                s.traffic_stats,
                pid,
                name,
                len,
                match now {
                    Some(t) => t,
                    None => 0,
                },
            ),
            ..s
        }
    } else {
        state_after_routing(s, p.header, name, len, now)
    }
}

/// There is room to count a packet for the owner of its local port.
pub open spec fn owner_has_room(
    s: EngineView,
    p: PendingView,
    pid: u32,
    name: Seq<char>,
    len: u64,
    now: Option<u64>,
) -> bool {
    if p.inbound {
        counted_owner(pid, name) ==> has_room(s.traffic_stats, name, 0, len)
    } else {
        !excluded_process(name) && now is Some ==> has_room(s.traffic_stats, name, len, 0)
    }
}

/// Whether a packet has room for the source address that the answer of the relay is to have.
pub fn answer_fits(d: &Vec<u8>, outbound: bool, redirects: &RedirectTable) -> (r: bool)
    ensures
        r == answer_has_room(d@, outbound, redirects@),
{
    match classify_packet(d, outbound, redirects) {
        PacketClass::Answer(h, dest) => restore_fits(d, &h, &dest),
        _ => true,
    }
}

/// Takes the first step for a captured packet. An answer of the relay gets the address from
/// which it was expected; for the rest the owner of a local port may be needed.
pub fn take_packet(d: &mut Vec<u8>, outbound: bool, redirects: &RedirectTable) -> (r: PacketStep)
    requires
        answer_has_room(old(d)@, outbound, redirects@),
    ensures
        r@ == first_step(old(d)@, outbound, redirects@),
        final(d)@ == after_first_step(old(d)@, outbound, redirects@),
        r matches PacketStep::Owner(p) ==> parsed(final(d)@) == Some(p.header@),
{
    match classify_packet(d, outbound, redirects) {
        PacketClass::Pass => PacketStep::Leave,
        PacketClass::Answer(h, dest) => {
            restore_source(d, &h, &dest);
            PacketStep::Rewritten(None)
        },
        PacketClass::Inbound(header) => PacketStep::Owner(PendingPacket { header, inbound: true }),
        PacketClass::Outbound(header) => PacketStep::Owner(
            PendingPacket { header, inbound: false },
        ),
    }
}

/// Takes the last step for a packet whose local port belongs to the process `name`, unless there
/// is no room to count it: then nothing is done.
///
/// `now` is the time in milliseconds since the Unix epoch, if it can be told.
pub fn resume_packet(
    state: &mut EngineState,
    d: &mut Vec<u8>,
    p: &PendingPacket,
    pid: u32,
    name: &str,
    now: Option<u64>,
) -> (r: Option<PacketStep>)
    requires
        old(state).wf(),
        parsed(old(d)@) == Some(p.header@),
    ensures
        final(state).wf(),
        r is Some <==> owner_has_room(old(state)@, p@, pid, name@, old(d)@.len() as u64, now),
        match r {
            Some(step) => {
                &&& step@ == last_step(old(state)@, p@, pid, name@, old(d)@.len() as u64, now)
                &&& final(d)@ == after_last_step(old(d)@, p@, step@)
                &&& final(state)@ == state_after_last_step(
                    old(state)@,
                    p@,
                    pid,
                    name@,
                    old(d)@.len() as u64,
                    now,
                )
            },
            None => final(state)@ == old(state)@ && final(d)@ == old(d)@,
        },
{
    if p.inbound {
        let len: u64 = d.len() as u64;
        let time: u64 = match now {
            Some(t) => t,
            None => 0,
        };
        if pid > 0 && !same_text(name, "Unknown") && !state.traffic_stats.fits(name, 0, len) {
            return None;
        }
        count_inbound(state, pid, name, len, time);
        return Some(PacketStep::Leave);
    }
    match route_packet_if_counted(state, d, &p.header, pid, name, now) {
        None => None,
        Some(Routed::Ignored) => Some(PacketStep::Leave),
        Some(Routed::NoTime) => Some(PacketStep::NoTime),
        Some(Routed::Blocked(e)) => Some(PacketStep::Blocked(e)),
        Some(Routed::Direct(e)) => Some(PacketStep::Report(e)),
        Some(Routed::Redirected(e)) => Some(PacketStep::Rewritten(Some(e))),
    }
}

// ---------------------------------------------------------------------------------------------
// Capture
// ---------------------------------------------------------------------------------------------

/// What happened when the next packet was awaited.
#[derive(Clone, Copy, Debug, PartialEq, Eq, Structural)]
pub enum CaptureEvent {
    /// A packet came and may go on, changed or not.
    Passed,
    /// A packet came that a rule blocks.
    Blocked,
    /// A packet came, and processing it failed because the time could not be told.
    Untimed,
    /// No packet could be had.
    Failed,
}

/// What to do before the next packet is awaited.
#[derive(Clone, Copy, Debug, PartialEq, Eq, Structural)]
pub enum CaptureAction {
    /// Put the packet back on its way, and note the failure to process it, if there was one.
    Reinject { note_failure: bool },
    /// Do not put the packet back: it goes no further.
    Drop,
    /// Note the failure and wait for so many milliseconds.
    Pause(u64),
}

/// What to do before the next packet is awaited: a packet that a rule blocks goes no further, and
/// every other one that came is put back on its way.
pub open spec fn action_after(e: CaptureEvent) -> CaptureAction {
    match e {
        CaptureEvent::Passed => CaptureAction::Reinject { note_failure: false },
        CaptureEvent::Blocked => CaptureAction::Drop,
        CaptureEvent::Untimed => CaptureAction::Reinject { note_failure: true },
        CaptureEvent::Failed => CaptureAction::Pause(10),
    }
}

/// What to do before the next packet is awaited.
pub fn after_capture(e: CaptureEvent) -> (r: CaptureAction)
    ensures
        r == action_after(e),
{
    match e {
        CaptureEvent::Passed => CaptureAction::Reinject { note_failure: false },
        CaptureEvent::Blocked => CaptureAction::Drop,
        CaptureEvent::Untimed => CaptureAction::Reinject { note_failure: true },
        CaptureEvent::Failed => CaptureAction::Pause(10),
    }
}

/// The event that the last step for a packet amounts to.
pub open spec fn event_of_step(step: PacketStepView) -> CaptureEvent {
    match step {
        PacketStepView::Blocked(_) => CaptureEvent::Blocked,
        PacketStepView::NoTime => CaptureEvent::Untimed,
        _ => CaptureEvent::Passed,
    }
}

impl PacketStep {
    /// The event that the step amounts to, once it was taken.
    pub fn capture_event(&self) -> (r: CaptureEvent)
        ensures
            r == event_of_step(self@),
    {
        match self {
            PacketStep::Blocked(_) => CaptureEvent::Blocked,
            PacketStep::NoTime => CaptureEvent::Untimed,
            _ => CaptureEvent::Passed,
        }
    }
}

// ---------------------------------------------------------------------------------------------
// Laws
// ---------------------------------------------------------------------------------------------

/// The IP header does not overlap the ports: it has at least the length of its fixed part.
pub open spec fn whole_header(h: HeaderView) -> bool {
    h.header_len >= 20
}

/// The two bytes of a port read back as that port.
proof fn port_reads_back(d: Seq<u8>, at: int, port: u16)
    requires
        0 <= at,
        at + 2 <= d.len(),
    ensures
        port_in(overwritten(d, at, port_bytes(port)), at) == port,
{
}

/// A redirected packet is the same packet with the relay as its destination; its length, and
/// what follows the ports, stay as they are.
pub proof fn redirect_changes_destination(d: Seq<u8>, h: HeaderView)
    requires
        parsed(d) == Some(h),
        whole_header(h),
    ensures
        parsed(redirected(d, h)) == Some(
            HeaderView { dest: loopback_octets(h.dest), dest_port: relay_port(h.is_tcp), ..h },
        ),
        redirected(d, h).len() == d.len(),
        redirected(d, h).skip(h.header_len + 4) == d.skip(h.header_len + 4),
{
    let r = redirected(d, h);
    let at: int = if h.dest.len() == 4 {
        16
    } else {
        24
    };
    let mid = overwritten(d, at, loopback_octets(h.dest));
    port_reads_back(mid, h.header_len + 2, relay_port(h.is_tcp));
    assert(r[0] == d[0]);
    if h.dest.len() == 4 {
        assert(r.subrange(12, 16) =~= d.subrange(12, 16));
        assert(r.subrange(16, 20) =~= loopback_octets(h.dest));
        assert(r[9] == d[9]);
    } else {
        assert(r.subrange(8, 24) =~= d.subrange(8, 24));
        assert(r.subrange(24, 40) =~= loopback_octets(h.dest));
        assert(r[6] == d[6]);
    }
    assert(r[h.header_len] == d[h.header_len] && r[h.header_len + 1] == d[h.header_len + 1]);
    assert(r.skip(h.header_len + 4) =~= d.skip(h.header_len + 4));
}

/// A restored packet is the same packet with the given address as its source; its length, and
/// what follows the ports, stay as they are.
pub proof fn restore_changes_source(d: Seq<u8>, h: HeaderView, dest: (Seq<u8>, u16))
    requires
        parsed(d) == Some(h),
        whole_header(h),
        dest.0.len() == h.src.len(),
    ensures
        parsed(restored(d, h, dest)) == Some(HeaderView { src: dest.0, src_port: dest.1, ..h }),
        restored(d, h, dest).len() == d.len(),
        restored(d, h, dest).skip(h.header_len + 4) == d.skip(h.header_len + 4),
{
    let r = restored(d, h, dest);
    let at = source_at(dest.0);
    let mid = overwritten(d, at, dest.0);
    port_reads_back(mid, h.header_len, dest.1);
    assert(r[0] == d[0]);
    if h.src.len() == 4 {
        assert(r.subrange(12, 16) =~= dest.0);
        assert(r.subrange(16, 20) =~= d.subrange(16, 20));
        assert(r[9] == d[9]);
    } else {
        assert(r.subrange(8, 24) =~= dest.0);
        assert(r.subrange(24, 40) =~= d.subrange(24, 40));
        assert(r[6] == d[6]);
    }
    assert(r[h.header_len + 2] == d[h.header_len + 2] && r[h.header_len + 3] == d[h.header_len
        + 3]);
    assert(r.skip(h.header_len + 4) =~= d.skip(h.header_len + 4));
}

/// A redirected packet that is captured once more passes, so that it is not redirected for ever.
pub proof fn redirected_packet_passes(
    d: Seq<u8>,
    h: HeaderView,
    outbound: bool,
    redirects: Map<u16, RedirectView>,
)
    requires
        parsed(d) == Some(h),
        whole_header(h),
        h.src_port != relay_port(h.is_tcp),
    ensures
        classified(redirected(d, h), outbound, redirects) == ClassView::Pass,
{
    redirect_changes_destination(d, h);
}

/// The application sees the answers of the relay as coming from where it sent its packet: after
/// a packet was redirected, a packet of the relay to the port it came from is an answer, and its
/// source becomes the destination that the packet had.
pub proof fn answers_come_from_destination(
    s: EngineView,
    h: HeaderView,
    name: Seq<char>,
    len: u64,
    now: u64,
    answer: Seq<u8>,
    a: HeaderView,
    outbound: bool,
)
    requires
        !excluded_process(name),
        chosen_action(s, h, name) == RuleAction::Proxy,
        parsed(answer) == Some(a),
        whole_header(a),
        a.is_tcp == h.is_tcp,
        a.src_port == relay_port(h.is_tcp),
        a.dest_port == h.src_port,
        a.src.len() == h.dest.len(),
    ensures
        ({
            let after = state_after_routing(s, h, name, len, Some(now));
            let dest = (h.dest, h.dest_port);
            &&& classified(answer, outbound, after.redirect_table) == ClassView::Answer(a, dest)
            &&& parsed(restored(answer, a, dest)) == Some(
                HeaderView { src: h.dest, src_port: h.dest_port, ..a },
            )
        }),
{
    restore_changes_source(answer, a, (h.dest, h.dest_port));
}

/// While the local network is bypassed, nothing that goes there is redirected or blocked.
pub proof fn local_traffic_is_direct(s: EngineView, h: HeaderView, name: Seq<char>)
    requires
        s.bypass_local,
        local_network(h.dest),
    ensures
        chosen_action(s, h, name) == RuleAction::Direct,
{
}

/// Name queries go through the proxy, or pass, as the flag for them says, whatever the rules
/// say, unless they go to a local network that is bypassed.
pub proof fn name_queries_go_by_flag(s: EngineView, h: HeaderView, name: Seq<char>)
    requires
        !h.is_tcp,
        h.dest_port == 53,
        !(s.bypass_local && local_network(h.dest)),
    ensures
        chosen_action(s, h, name) == (if s.proxy_dns {
            RuleAction::Proxy
        } else {
            RuleAction::Direct
        }),
{
}

/// A packet of a process that is left alone is not reported, and leaves the state as it is.
pub proof fn excluded_traffic_is_ignored(
    s: EngineView,
    h: HeaderView,
    pid: u32,
    name: Seq<char>,
    len: u64,
    now: Option<u64>,
)
    requires
        excluded_process(name),
    ensures
        routed(s, h, pid, name, len, now) == RoutedView::Ignored,
        state_after_routing(s, h, name, len, now) == s,
{
}

/// The primary proxy is one of the pool.
proof fn primary_is_of_pool(config: Seq<ProxyView>)
    ensures
        first_primary(config) is Some ==> has_proxy(config, first_primary(config)->0),
    decreases config.len(),
{
    if config.len() > 0 {
        if config[0].is_primary {
            assert(config[0].id == first_primary(config)->0);
        } else {
            let rest = config.drop_first();
            primary_is_of_pool(rest);
            if first_primary(rest) is Some {
                let i = choose|i: int|
                    0 <= i < rest.len() && (#[trigger] rest[i]).id == first_primary(rest)->0;
                assert(config[i + 1].id == first_primary(config)->0);
            }
        }
    }
}

/// A connection is carried by a proxy of the pool whenever there is one, and by the one to which
/// its rule binds it whenever the pool has that.
pub proof fn selected_proxy_is_of_pool(config: Seq<ProxyView>, wanted: Option<Seq<char>>)
    ensures
        config.len() > 0 ==> has_proxy(config, selected_proxy(config, wanted)),
        wanted is Some && has_proxy(config, wanted->0) ==> selected_proxy(config, wanted)
            == wanted->0,
{
    primary_is_of_pool(config);
    if config.len() > 0 {
        assert(has_proxy(config, config[0].id));
    }
}

/// A packet keeps its bytes unless a step says that it was rewritten.
pub proof fn only_rewritten_packets_change(
    s: EngineView,
    d: Seq<u8>,
    outbound: bool,
    p: PendingView,
    pid: u32,
    name: Seq<char>,
    now: Option<u64>,
)
    ensures
        !(first_step(d, outbound, s.redirect_table) is Rewritten) ==> after_first_step(
            d,
            outbound,
            s.redirect_table,
        ) == d,
        !(last_step(s, p, pid, name, d.len() as u64, now) is Rewritten) ==> after_last_step(
            d,
            p,
            last_step(s, p, pid, name, d.len() as u64, now),
        ) == d,
{
}

/// A packet is dropped exactly where its step says that it is blocked.
pub proof fn only_blocked_steps_drop(step: PacketStepView)
    ensures
        action_after(event_of_step(step)) is Drop <==> step is Blocked,
        !(step is Blocked) ==> action_after(event_of_step(step)) == (CaptureAction::Reinject {
            note_failure: step is NoTime,
        }),
{
}

/// A packet is dropped exactly where it goes out, belongs to a process that is not left alone,
/// and the action for it is to block it; every other one is put back on its way, and processing
/// it failed only where it goes out and cannot be timed.
pub proof fn blocked_packets_are_dropped(
    s: EngineView,
    p: PendingView,
    pid: u32,
    name: Seq<char>,
    len: u64,
    now: Option<u64>,
)
    ensures
        ({
            let action = action_after(event_of_step(last_step(s, p, pid, name, len, now)));
            let judged = !p.inbound && !excluded_process(name);
            if judged && now is Some && chosen_action(s, p.header, name) == RuleAction::Block {
                action == CaptureAction::Drop
            } else {
                action == (CaptureAction::Reinject { note_failure: judged && now is None })
            }
        }),
{
}

/// The first step for a packet never drops it: an answer of the relay, and a packet that passes,
/// are put back on their way.
pub proof fn first_step_drops_nothing(
    d: Seq<u8>,
    outbound: bool,
    redirects: Map<u16, RedirectView>,
)
    ensures
        action_after(event_of_step(first_step(d, outbound, redirects))) == (
        CaptureAction::Reinject { note_failure: false }),
{
}

// ---------------------------------------------------------------------------------------------
// Laws on bytes
// ---------------------------------------------------------------------------------------------

/// A version 4 packet has a header exactly where it is of TCP or UDP and holds its ports, which
/// stand behind as many words as its first byte says. The addresses are the four bytes from the
/// twelfth and from the sixteenth on.
pub proof fn version_4_headers(d: Seq<u8>)
    requires
        d.len() >= 20,
        64 <= d[0] < 80,
    ensures
        ({
            let n = (d[0] - 64) * 4;
            &&& parsed(d) is Some <==> (d[9] == 6 || d[9] == 17) && d.len() >= n + 4
            &&& parsed(d) matches Some(h) ==> {
                &&& h.header_len == n
                &&& h.is_tcp <==> d[9] == 6
                &&& h.src == seq![d[12], d[13], d[14], d[15]]
                &&& h.dest == seq![d[16], d[17], d[18], d[19]]
                &&& h.src_port == d[n] * 256 + d[n + 1]
                &&& h.dest_port == d[n + 2] * 256 + d[n + 3]
            }
        }),
{
    assert(d.subrange(12, 16) =~= seq![d[12], d[13], d[14], d[15]]);
    assert(d.subrange(16, 20) =~= seq![d[16], d[17], d[18], d[19]]);
}

/// A version 6 packet has a header exactly where it is of TCP or UDP and holds its ports, which
/// stand from the fortieth byte on. The addresses are the sixteen bytes from the eighth and from
/// the twenty-fourth on.
pub proof fn version_6_headers(d: Seq<u8>)
    requires
        d.len() >= 20,
        96 <= d[0] < 112,
    ensures
        parsed(d) is Some <==> (d[6] == 6 || d[6] == 17) && d.len() >= 44,
        parsed(d) matches Some(h) ==> {
            &&& h.header_len == 40
            &&& h.is_tcp <==> d[6] == 6
            &&& h.src.len() == 16
            &&& forall|i: int| 0 <= i < 16 ==> #[trigger] h.src[i] == d[8 + i]
            &&& h.dest.len() == 16
            &&& forall|i: int| 0 <= i < 16 ==> #[trigger] h.dest[i] == d[24 + i]
            &&& h.src_port == d[40] * 256 + d[41]
            &&& h.dest_port == d[42] * 256 + d[43]
        },
{
}

/// Nothing else has a header: neither what is shorter than twenty bytes nor what is of another
/// version.
pub proof fn other_bytes_have_no_header(d: Seq<u8>)
    requires
        d.len() < 20 || !(64 <= d[0] < 80 || 96 <= d[0] < 112),
    ensures
        parsed(d) is None,
{
}

/// What follows the ports does not matter to the header.
pub proof fn header_ignores_the_payload(d: Seq<u8>, e: Seq<u8>, h: HeaderView)
    requires
        parsed(d) == Some(h),
        e.len() >= 20,
        e.len() >= h.header_len + 4,
        forall|i: int|
            0 <= i < d.len() && i < e.len() && (i < 20 || i < h.header_len + 4) ==> #[trigger] e[i]
                == d[i],
    ensures
        parsed(e) == Some(h),
{
    assert(e[0] == d[0]);
    if d[0] / 16 == 4 {
        assert(e[9] == d[9]);
        assert(e.subrange(12, 16) =~= d.subrange(12, 16));
        assert(e.subrange(16, 20) =~= d.subrange(16, 20));
    } else {
        assert(e[6] == d[6]);
        assert(e.subrange(8, 24) =~= d.subrange(8, 24));
        assert(e.subrange(24, 40) =~= d.subrange(24, 40));
    }
    let n = h.header_len;
    assert(e[n] == d[n] && e[n + 1] == d[n + 1] && e[n + 2] == d[n + 2] && e[n + 3] == d[n + 3]);
}

/// The relay has one port for TCP and the next one for UDP.
pub proof fn relay_ports()
    ensures
        relay_port(true) == 34010,
        relay_port(false) == 34011,
{
}

/// Redirecting a packet writes the loopback address of its version over its destination address
/// and the port of the relay over its destination port, the port last, and keeps every other
/// byte.
pub proof fn redirect_writes_destination_alone(d: Seq<u8>, h: HeaderView)
    requires
        parsed(d) == Some(h),
    ensures
        ({
            let r = redirected(d, h);
            let at: int = if h.dest.len() == 4 {
                16
            } else {
                24
            };
            let port: int = h.header_len + 2;
            let n = h.dest.len() as int;
            &&& r.len() == d.len()
            &&& r[port] * 256 + r[port + 1] == (if h.is_tcp {
                34010int
            } else {
                34011
            })
            &&& forall|i: int|
                at <= i < at + n && i != port && i != port + 1 ==> #[trigger] r[i] == (if i == at
                    + n - 1 {
                    1u8
                } else if i == at && n == 4 {
                    127
                } else {
                    0
                })
            &&& forall|i: int|
                0 <= i < d.len() && !(at <= i < at + n) && i != port && i != port + 1 ==> (
                #[trigger] r[i]) == d[i]
        }),
{
}

/// Restoring an answer writes the address from which it was expected over its source address and
/// the port over its source port, the port last, and keeps every other byte.
pub proof fn restore_writes_source_alone(d: Seq<u8>, h: HeaderView, dest: (Seq<u8>, u16))
    requires
        parsed(d) == Some(h),
        dest.0.len() == 4 || dest.0.len() == 16,
        dest.0.len() == 16 ==> d.len() >= 24,
    ensures
        ({
            let r = restored(d, h, dest);
            let at: int = if dest.0.len() == 4 {
                12
            } else {
                8
            };
            let port = h.header_len;
            let n = dest.0.len() as int;
            &&& r.len() == d.len()
            &&& r[port] * 256 + r[port + 1] == dest.1
            &&& forall|i: int|
                at <= i < at + n && i != port && i != port + 1 ==> #[trigger] r[i] == dest.0[i - at]
            &&& forall|i: int|
                0 <= i < d.len() && !(at <= i < at + n) && i != port && i != port + 1 ==> (
                #[trigger] r[i]) == d[i]
        }),
{
}

// ---------------------------------------------------------------------------------------------
// Laws on classes and steps
// ---------------------------------------------------------------------------------------------

/// A packet without a header passes. One with a header is an answer exactly where it comes from
/// the port of the relay and goes to a port that was redirected; of the others, those to the
/// port of the relay pass, and the rest are told apart by their direction.
pub proof fn classes_go_by_ports(
    d: Seq<u8>,
    outbound: bool,
    redirects: Map<u16, RedirectView>,
)
    ensures
        parsed(d) is None ==> classified(d, outbound, redirects) is Pass,
        parsed(d) matches Some(h) ==> {
            let relay: int = if h.is_tcp {
                34010
            } else {
                34011
            };
            let answer = h.src_port == relay && redirects.dom().contains(h.dest_port);
            let c = classified(d, outbound, redirects);
            &&& c is Answer <==> answer
            &&& answer ==> c == ClassView::Answer(h, redirects[h.dest_port].dest)
            &&& c is Pass <==> !answer && h.dest_port == relay
            &&& c is Outbound ==> outbound && c == ClassView::Outbound(h)
            &&& c is Inbound ==> !outbound && c == ClassView::Inbound(h)
        },
{
}

/// The first step for a packet: an answer is rewritten, a packet that passes is left, and for the
/// rest the owner of the local port is needed, which is the destination port of a packet that
/// came in and the source port of one that goes out.
pub proof fn first_steps_go_by_class(
    d: Seq<u8>,
    outbound: bool,
    redirects: Map<u16, RedirectView>,
)
    ensures
        ({
            let c = classified(d, outbound, redirects);
            let step = first_step(d, outbound, redirects);
            &&& c is Pass <==> step is Leave
            &&& c is Answer <==> step == PacketStepView::Rewritten(None)
            &&& c matches ClassView::Answer(h, dest) ==> after_first_step(d, outbound, redirects)
                == restored(d, h, dest)
            &&& c matches ClassView::Inbound(h) ==> (step matches PacketStepView::Owner(p)
                && p.inbound && p.header == h && awaited_port(p) == h.dest_port)
            &&& c matches ClassView::Outbound(h) ==> (step matches PacketStepView::Owner(p)
                && !p.inbound && p.header == h && awaited_port(p) == h.src_port)
        }),
{
}

/// An answer has room for the source address exactly where that ends within the packet.
pub proof fn room_for_an_answer(d: Seq<u8>, outbound: bool, redirects: Map<u16, RedirectView>)
    ensures
        classified(d, outbound, redirects) matches ClassView::Answer(_, dest) ==> (dest.0.len() == 4
            ==> answer_has_room(d, outbound, redirects)) && (dest.0.len() == 16 ==> (
        answer_has_room(d, outbound, redirects) <==> d.len() >= 24)),
        !(classified(d, outbound, redirects) is Answer) ==> answer_has_room(d, outbound, redirects),
{
}

/// A packet that came in is counted as received for the process that owns its port, where that
/// is known; nothing else changes, and it passes without a report.
pub proof fn inbound_packets_are_received(
    s: EngineView,
    h: HeaderView,
    pid: u32,
    name: Seq<char>,
    len: u64,
    now: Option<u64>,
)
    ensures
        ({
            let p = PendingView { header: h, inbound: true };
            let after = state_after_last_step(s, p, pid, name, len, now);
            &&& last_step(s, p, pid, name, len, now) is Leave
            &&& pid == 0 || name == "Unknown"@ ==> after == s
            &&& pid != 0 && name != "Unknown"@ ==> {
                &&& after == (EngineView { traffic_stats: after.traffic_stats, ..s })
                &&& after.traffic_stats.dom() == s.traffic_stats.dom().insert(name)
                &&& forall|other: Seq<char>|
                    other != name && s.traffic_stats.dom().contains(other)
                        ==> #[trigger] after.traffic_stats[other] == s.traffic_stats[other]
                &&& now matches Some(t) ==> after.traffic_stats[name].2 == t
                &&& now is None ==> after.traffic_stats[name].2 == 0
                &&& !s.traffic_stats.dom().contains(name) ==> after.traffic_stats[name].0 == 0
                    && after.traffic_stats[name].1 == len
                &&& s.traffic_stats.dom().contains(name) ==> after.traffic_stats[name].0
                    == s.traffic_stats[name].0 && (s.traffic_stats[name].1 + len <= u64::MAX
                    ==> after.traffic_stats[name].1 == s.traffic_stats[name].1 + len)
            }
        }),
{
    let p = PendingView { header: h, inbound: true };
    let after = state_after_last_step(s, p, pid, name, len, now);
    if pid != 0 && name != "Unknown"@ {
        assert(after.traffic_stats.dom() =~= s.traffic_stats.dom().insert(name));
    }
}

/// There is room to count a packet exactly where the total to which it is added stays a number of
/// 64 bits, or it is not counted at all.
pub proof fn room_to_count(
    s: EngineView,
    h: HeaderView,
    pid: u32,
    name: Seq<char>,
    len: u64,
    now: Option<u64>,
)
    ensures
        ({
            let known = s.traffic_stats.dom().contains(name);
            &&& owner_has_room(s, PendingView { header: h, inbound: true }, pid, name, len, now)
                <==> pid == 0 || name == "Unknown"@ || !known || s.traffic_stats[name].1 + len
                <= u64::MAX
            &&& owner_has_room(s, PendingView { header: h, inbound: false }, pid, name, len, now)
                <==> excluded_process(name) || now is None || !known || s.traffic_stats[name].0
                + len <= u64::MAX
        }),
{
}

// ---------------------------------------------------------------------------------------------
// Laws on routing
// ---------------------------------------------------------------------------------------------

/// For a packet, of TCP or of UDP alike, that is no name query and does not go to a local network
/// that is bypassed, the first rule that covers the process decides; where none does, the packet
/// passes.
pub proof fn first_rule_decides(s: EngineView, h: HeaderView, name: Seq<char>, i: int)
    requires
        !(s.bypass_local && local_network(h.dest)),
        h.is_tcp || h.dest_port != 53,
        0 <= i <= s.rules.len(),
        forall|j: int|
            0 <= j < i ==> !pattern_matches((#[trigger] s.rules[j]).process_name, name),
        i < s.rules.len() ==> pattern_matches(s.rules[i].process_name, name),
    ensures
        i < s.rules.len() ==> chosen_action(s, h, name) == s.rules[i].action && bound_proxy(s, name)
            == s.rules[i].proxy_id,
        i == s.rules.len() ==> chosen_action(s, h, name) is Direct && bound_proxy(s, name) is None,
{
    first_covering_rule_applies(s.rules, name, i);
}

/// All packets of a process that are no name queries and do not go to a local network that is
/// bypassed are treated alike, whatever their protocol, ports and addresses are.
pub proof fn packets_of_a_process_are_treated_alike(
    s: EngineView,
    t: EngineView,
    g: HeaderView,
    h: HeaderView,
    name: Seq<char>,
)
    requires
        s.rules == t.rules,
        !(s.bypass_local && local_network(g.dest)),
        !(t.bypass_local && local_network(h.dest)),
        g.is_tcp || g.dest_port != 53,
        h.is_tcp || h.dest_port != 53,
    ensures
        chosen_action(s, g, name) == chosen_action(t, h, name),
{
}

/// The action of a packet is always that of the bypass, that of the flag for name queries, or that
/// of a rule; without any of them the packet passes.
pub proof fn actions_have_a_reason(s: EngineView, h: HeaderView, name: Seq<char>)
    ensures
        s.bypass_local && local_network(h.dest) ==> chosen_action(s, h, name) is Direct,
        !(s.bypass_local && local_network(h.dest)) && !h.is_tcp && h.dest_port == 53 ==> (
        chosen_action(s, h, name) is Proxy <==> s.proxy_dns) && (chosen_action(s, h, name) is Direct
            <==> !s.proxy_dns),
        chosen_action(s, h, name) is Block ==> exists|i: int|
            0 <= i < s.rules.len() && (#[trigger] s.rules[i]).action is Block && pattern_matches(
                s.rules[i].process_name,
                name,
            ),
{
    first_match_is_first(s.rules, name);
}

/// Where the pool has the proxy that is wanted, that one is selected.
pub proof fn wanted_proxy_is_selected(config: Seq<ProxyView>, wanted: Seq<char>, i: int)
    requires
        0 <= i < config.len(),
        config[i].id == wanted,
    ensures
        selected_proxy(config, Some(wanted)) == wanted,
{
}

/// Where the proxy that is wanted is not in the pool, the first primary one is selected, whatever
/// it is like otherwise; and the first of all where none is primary.
pub proof fn primary_proxy_is_the_fallback(
    config: Seq<ProxyView>,
    wanted: Option<Seq<char>>,
    i: int,
)
    requires
        forall|j: int|
            0 <= j < config.len() ==> (#[trigger] config[j]).id != (match wanted {
                Some(w) => w,
                None => Seq::empty(),
            }),
        0 <= i <= config.len(),
        forall|j: int| 0 <= j < i ==> !(#[trigger] config[j]).is_primary,
        i < config.len() ==> config[i].is_primary,
    ensures
        i < config.len() ==> selected_proxy(config, wanted) == config[i].id,
        i == config.len() && config.len() > 0 ==> selected_proxy(config, wanted) == config[0].id,
        config.len() == 0 ==> selected_proxy(config, wanted) == "default"@,
{
    first_primary_is(config, i);
}

/// The first primary proxy is the one that is primary while none before it is.
proof fn first_primary_is(config: Seq<ProxyView>, i: int)
    requires
        0 <= i <= config.len(),
        forall|j: int| 0 <= j < i ==> !(#[trigger] config[j]).is_primary,
        i < config.len() ==> config[i].is_primary,
    ensures
        first_primary(config) == (if i < config.len() {
            Some(config[i].id)
        } else {
            None
        }),
    decreases config.len(),
{
    if config.len() > 0 && i > 0 {
        let rest = config.drop_first();
        assert(!config[0].is_primary);
        assert forall|j: int| 0 <= j < i - 1 implies !(#[trigger] rest[j]).is_primary by {
            assert(rest[j] == config[j + 1]);
        }
        first_primary_is(rest, i - 1);
    }
}

/// Which proxy is selected depends on the identifiers of the pool and on which are primary, and on
/// nothing else of the proxies.
pub proof fn selection_goes_by_identifier_and_rank(
    a: Seq<ProxyView>,
    b: Seq<ProxyView>,
    wanted: Option<Seq<char>>,
)
    requires
        a.len() == b.len(),
        forall|i: int|
            0 <= i < a.len() ==> (#[trigger] a[i]).id == (#[trigger] b[i]).id && a[i].is_primary
                == b[i].is_primary,
    ensures
        selected_proxy(a, wanted) == selected_proxy(b, wanted),
{
    let id = match wanted {
        Some(w) => w,
        None => Seq::empty(),
    };
    same_first_primary(a, b);
    if has_proxy(a, id) {
        let i = choose|i: int| 0 <= i < a.len() && (#[trigger] a[i]).id == id;
        assert(b[i].id == id);
    }
    if has_proxy(b, id) {
        let i = choose|i: int| 0 <= i < b.len() && (#[trigger] b[i]).id == id;
        assert(a[i].id == id);
    }
    if a.len() > 0 {
        assert(a[0].id == b[0].id);
    }
}

/// Pools with the same identifiers and ranks have the same first primary proxy.
proof fn same_first_primary(a: Seq<ProxyView>, b: Seq<ProxyView>)
    requires
        a.len() == b.len(),
        forall|i: int|
            0 <= i < a.len() ==> (#[trigger] a[i]).id == (#[trigger] b[i]).id && a[i].is_primary
                == b[i].is_primary,
    ensures
        first_primary(a) == first_primary(b),
    decreases a.len(),
{
    if a.len() > 0 {
        let x = a.drop_first();
        let y = b.drop_first();
        assert(a[0].id == b[0].id && a[0].is_primary == b[0].is_primary);
        assert forall|i: int| 0 <= i < x.len() implies (#[trigger] x[i]).id == (#[trigger] y[i]).id
            && x[i].is_primary == y[i].is_primary by {
            assert(a[i + 1].id == b[i + 1].id);
        }
        same_first_primary(x, y);
    }
}

/// The report of a packet that goes out tells its process, its two ends, its protocol, its length
/// and the time, and the action that was taken.
pub proof fn report_tells_the_packet(
    h: HeaderView,
    pid: u32,
    name: Seq<char>,
    action: RuleAction,
    len: u64,
    now: u64,
)
    ensures
        ({
            let e = outbound_event(h, pid, name, action, len, now);
            &&& e.pid == pid
            &&& e.process_name == name
            &&& e.id == connection_id(name, h.src_port, h.dest, h.dest_port)
            &&& e.protocol == (if h.is_tcp {
                "TCP"@
            } else {
                "UDP"@
            })
            &&& exists|digits: Seq<char>|
                is_decimal(digits, h.src_port as int) && e.source_addr == #[trigger] (ip_text(h.src)
                    + ":"@ + digits)
            &&& exists|digits: Seq<char>|
                is_decimal(digits, h.dest_port as int) && e.original_dest == #[trigger] (ip_text(
                    h.dest,
                ) + ":"@ + digits)
            &&& e.bytes_sent == len
            &&& e.bytes_received == 0
            &&& e.timestamp == now
            &&& action is Block ==> e.action == "Block"@ && e.status == "Blocked"@
            &&& action is Direct ==> e.action == "Direct"@ && e.status == "Active"@
            &&& action is Proxy ==> e.action == "Proxy"@ && e.status == "Active"@
        }),
{
    port_follows_address(h.src, h.src_port);
    port_follows_address(h.dest, h.dest_port);
}

/// What becomes of a packet that goes out: one of a process that is left alone is ignored, one
/// that cannot be timed is not routed, and any other one is blocked, passed or redirected as the
/// action for it says, and reported with that action.
pub proof fn routing_follows_the_action(
    s: EngineView,
    h: HeaderView,
    pid: u32,
    name: Seq<char>,
    len: u64,
    now: Option<u64>,
)
    ensures
        ({
            let r = routed(s, h, pid, name, len, now);
            let step = last_step(
                s,
                PendingView { header: h, inbound: false },
                pid,
                name,
                len,
                now,
            );
            let action = chosen_action(s, h, name);
            &&& excluded_process(name) ==> r is Ignored && step is Leave
            &&& !excluded_process(name) && now is None ==> r is NoTime && step is NoTime
            &&& !excluded_process(name) && now is Some ==> {
                let e = outbound_event(h, pid, name, action, len, now->0);
                &&& action is Block ==> r == RoutedView::Blocked(e) && step
                    == PacketStepView::Blocked(e)
                &&& action is Direct ==> r == RoutedView::Direct(e) && step
                    == PacketStepView::Report(e)
                &&& action is Proxy ==> r == RoutedView::Redirected(e) && step
                    == PacketStepView::Rewritten(Some(e))
            }
        }),
{
}

/// What a packet that goes out changes: it is counted as sent for its process; where it is
/// redirected, the destination it had and the selected proxy are noted under its source port; and
/// nothing else changes. A packet of a process that is left alone, or that cannot be timed,
/// changes nothing.
pub proof fn routing_counts_and_notes(
    s: EngineView,
    h: HeaderView,
    pid: u32,
    name: Seq<char>,
    len: u64,
    now: Option<u64>,
)
    ensures
        ({
            let after = state_after_last_step(
                s,
                PendingView { header: h, inbound: false },
                pid,
                name,
                len,
                now,
            );
            let proxied = chosen_action(s, h, name) is Proxy;
            &&& after == state_after_routing(s, h, name, len, now)
            &&& excluded_process(name) || now is None ==> after == s
            &&& !excluded_process(name) && now is Some ==> {
                &&& after == (EngineView {
                    traffic_stats: after.traffic_stats,
                    redirect_table: after.redirect_table,
                    ..s
                })
                &&& after.traffic_stats.dom() == s.traffic_stats.dom().insert(name)
                &&& forall|other: Seq<char>|
                    other != name && s.traffic_stats.dom().contains(other)
                        ==> #[trigger] after.traffic_stats[other] == s.traffic_stats[other]
                &&& after.traffic_stats[name].2 == now->0
                &&& !s.traffic_stats.dom().contains(name) ==> after.traffic_stats[name].0 == len
                    && after.traffic_stats[name].1 == 0
                &&& s.traffic_stats.dom().contains(name) ==> after.traffic_stats[name].1
                    == s.traffic_stats[name].1 && (s.traffic_stats[name].0 + len <= u64::MAX
                    ==> after.traffic_stats[name].0 == s.traffic_stats[name].0 + len)
                &&& !proxied ==> after.redirect_table == s.redirect_table
                &&& proxied ==> {
                    &&& after.redirect_table.dom() == s.redirect_table.dom().insert(h.src_port)
                    &&& after.redirect_table[h.src_port].dest == (h.dest, h.dest_port)
                    &&& after.redirect_table[h.src_port].proxy_id == selected_proxy(
                        s.config,
                        bound_proxy(s, name),
                    )
                    &&& forall|other: u16|
                        other != h.src_port && s.redirect_table.dom().contains(other)
                            ==> #[trigger] after.redirect_table[other] == s.redirect_table[other]
                }
            }
        }),
{
    let after = state_after_routing(s, h, name, len, now);
    if !excluded_process(name) && now is Some {
        assert(after.traffic_stats.dom() =~= s.traffic_stats.dom().insert(name));
        if chosen_action(s, h, name) is Proxy {
            assert(after.redirect_table.dom() =~= s.redirect_table.dom().insert(h.src_port));
        }
    }
}

/// The models of headers, classes, outcomes and steps tell all of them.
pub proof fn packet_models_are_whole(
    h: PacketHeader,
    c: PacketClass,
    r: Routed,
    p: PendingPacket,
    step: PacketStep,
)
    ensures
        h@.src == h.src_ip@,
        h@.dest == h.dest_ip@,
        h@.is_tcp == h.is_tcp,
        h@.src_port == h.src_port,
        h@.dest_port == h.dest_port,
        h@.header_len == h.header_len,
        c is Pass <==> c@ is Pass,
        c matches PacketClass::Answer(g, a) ==> c@ == ClassView::Answer(g@, a@),
        c matches PacketClass::Inbound(g) ==> c@ == ClassView::Inbound(g@),
        c matches PacketClass::Outbound(g) ==> c@ == ClassView::Outbound(g@),
        r is Ignored <==> r@ is Ignored,
        r is NoTime <==> r@ is NoTime,
        r matches Routed::Blocked(e) ==> r@ == RoutedView::Blocked(e@),
        r matches Routed::Direct(e) ==> r@ == RoutedView::Direct(e@),
        r matches Routed::Redirected(e) ==> r@ == RoutedView::Redirected(e@),
        p@.header == p.header@,
        p@.inbound == p.inbound,
        step matches PacketStep::Owner(q) ==> step@ == PacketStepView::Owner(q@),
        step is Leave <==> step@ is Leave,
        step matches PacketStep::Report(e) ==> step@ == PacketStepView::Report(e@),
        step matches PacketStep::Rewritten(Some(e)) ==> step@ == PacketStepView::Rewritten(
            Some(e@),
        ),
        step matches PacketStep::Rewritten(None) ==> step@ == PacketStepView::Rewritten(None),
        step matches PacketStep::Blocked(e) ==> step@ == PacketStepView::Blocked(e@),
        step is NoTime <==> step@ is NoTime,
{
}

/// A packet that came is put back on its way exactly where no rule blocks it, and a failure to
/// process it is noted exactly where the time could not be told. Where no packet could be had, the
/// next one is awaited ten milliseconds later.
pub proof fn packets_go_on_unless_blocked(step: PacketStepView, e: CaptureEvent)
    ensures
        action_after(event_of_step(step)) is Drop <==> step is Blocked,
        action_after(event_of_step(step)) is Reinject <==> !(step is Blocked),
        action_after(event_of_step(step)) == (CaptureAction::Reinject { note_failure: true })
            <==> step is NoTime,
        action_after(e) is Pause <==> e is Failed,
        action_after(e) matches CaptureAction::Pause(n) ==> n == 10,
        e is Passed ==> action_after(e) == (CaptureAction::Reinject { note_failure: false }),
        e is Untimed ==> action_after(e) == (CaptureAction::Reinject { note_failure: true }),
        e is Blocked ==> action_after(e) is Drop,
{
}

}
