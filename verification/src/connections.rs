//! The connections that the operating system lists, as they are reported.
use crate::address::{
    ip_text, ipv4, ipv6_at, is_loopback, is_unspecified, loopback, push_ip, socket_text,
    socket_to_text, unspecified, SocketAddr,
};
use crate::engine::{EngineState, EngineView};
use crate::event::{connection_id, make_connection_id, protocol_name, protocol_text};
use crate::model::{views, ConnectionInfo, ConnectionView};
use crate::owner::{
    count_rows, get_process_name_for_pid, image_units, local_address_at, local_port_at,
    local_port_offset, owner_offset, port_at, process_name, read_number, read_port, row_at,
    row_count, row_offset, row_owner, row_size, system_process, table_bytes, TableKind,
};
use crate::rules::{excluded_process, is_excluded_process};
use crate::text::{
    decimal, decimal_reads_back, is_decimal, push_decimal, starts_with_text, text_in_order, text_le, text_le_total,
    text_le_transitive,
};
use crate::traffic::{recorded, Totals};
use vstd::prelude::*;
use vstd::string::*;

verus! {

// ---------------------------------------------------------------------------------------------
// Rows
// ---------------------------------------------------------------------------------------------

/// A connection that a table lists. One of UDP has no remote end.
#[derive(Clone, Copy, Debug, PartialEq, Eq)]
pub struct Candidate {
    pub kind: TableKind,
    pub pid: u32,
    pub local: SocketAddr,
    pub remote: Option<SocketAddr>,
}

/// The model of a [`Candidate`].
pub struct CandidateView {
    pub kind: TableKind,
    pub pid: u32,
    pub local: (Seq<u8>, u16),
    pub remote: Option<(Seq<u8>, u16)>,
}

impl View for Candidate {
    type V = CandidateView;

    open spec fn view(&self) -> CandidateView {
        CandidateView {
            kind: self.kind,
            pid: self.pid,
            local: self.local@,
            remote: match self.remote {
                Some(a) => Some(a@),
                None => None,
            },
        }
    }
}

/// The table is one of TCP connections.
pub open spec fn of_tcp(k: TableKind) -> bool {
    k is Tcp4 || k is Tcp6
}

/// The octets of an address of the table's version.
pub open spec fn octets_of(k: TableKind) -> int {
    if k is Tcp4 || k is Udp4 {
        4
    } else {
        16
    }
}

/// Where the remote address stands in a row of a table of TCP connections.
pub open spec fn remote_address_at(k: TableKind) -> int {
    if k is Tcp4 {
        12
    } else {
        24
    }
}

/// Where the remote port stands in a row of a table of TCP connections.
pub open spec fn remote_port_at(k: TableKind) -> int {
    if k is Tcp4 {
        16
    } else {
        44
    }
}

/// The address and port that stand in a table at the given places.
pub open spec fn socket_in(k: TableKind, b: Seq<u8>, address: int, port: int) -> (Seq<u8>, u16) {
    (b.subrange(address, address + octets_of(k)), port_at(b, port) as u16)
}

/// The connection of row number `i`, unless it is one of the system, or stays within the
/// machine, or has no remote end yet.
pub open spec fn row_candidate(k: TableKind, b: Seq<u8>, i: int) -> Option<CandidateView> {
    let at = row_at(k, i);
    let pid = row_owner(k, b, i) as u32;
    let local = socket_in(k, b, at + local_address_at(k), at + local_port_at(k));
    let remote = socket_in(k, b, at + remote_address_at(k), at + remote_port_at(k));
    if system_process(pid) || loopback(local.0) {
        None
    } else if !of_tcp(k) {
        Some(CandidateView { kind: k, pid, local, remote: None })
    } else if loopback(remote.0) || unspecified(remote.0) {
        None
    } else {
        Some(CandidateView { kind: k, pid, local, remote: Some(remote) })
    }
}

/// The connections of the first `n` rows.
pub open spec fn candidates_below(k: TableKind, b: Seq<u8>, n: int) -> Seq<CandidateView>
    decreases n,
{
    if n <= 0 {
        Seq::empty()
    } else {
        let rest = candidates_below(k, b, n - 1);
        match row_candidate(k, b, n - 1) {
            Some(c) => rest.push(c),
            None => rest,
        }
    }
}

/// The connections of a table; there are none where the table could not be read.
pub open spec fn candidates_in(k: TableKind, table: Option<Seq<u8>>) -> Seq<CandidateView> {
    match table {
        Some(b) => candidates_below(k, b, row_count(k, b)),
        None => Seq::empty(),
    }
}

/// The four tables, as far as they could be read.
pub struct Tables {
    pub tcp4: Option<Vec<u8>>,
    pub tcp6: Option<Vec<u8>>,
    pub udp4: Option<Vec<u8>>,
    pub udp6: Option<Vec<u8>>,
}

/// The connections of the four tables, in their order.
pub open spec fn candidates(t: Tables) -> Seq<CandidateView> {
    candidates_in(TableKind::Tcp4, table_bytes(t.tcp4)) + candidates_in(
        TableKind::Tcp6,
        table_bytes(t.tcp6),
    ) + candidates_in(TableKind::Udp4, table_bytes(t.udp4)) + candidates_in(
        TableKind::Udp6,
        table_bytes(t.udp6),
    )
}

/// The address and port that stand in a table at the given places.
fn read_socket(k: TableKind, b: &Vec<u8>, address: usize, port: usize) -> (r: SocketAddr)
    requires
        address + octets_of(k) <= b@.len(),
        port + 2 <= b@.len(),
    ensures
        r@ == socket_in(k, b@, address as int, port as int),
{
    assert(b.len() == b@.len());
    let ip = match k {
        TableKind::Tcp4 | TableKind::Udp4 => {
            let ip = ipv4(b[address], b[address + 1], b[address + 2], b[address + 3]);
            assert(ip@ =~= b@.subrange(address as int, address + 4));
            ip
        },
        TableKind::Tcp6 | TableKind::Udp6 => ipv6_at(b.as_slice(), address),
    };
    SocketAddr { ip, port: read_port(b, port) }
}

/// The connection of row number `i`.
fn read_candidate(k: TableKind, b: &Vec<u8>, i: usize) -> (r: Option<Candidate>)
    requires
        i < row_count(k, b@),
    ensures
        (match r {
            Some(c) => Some(c@),
            None => None,
        }) == row_candidate(k, b@, i as int),
{
    assert(b.len() == b@.len());
    let at: usize = row_offset(k, b, i);
    let pid: u32 = read_number(b, at + owner_offset(k));
    if pid == 0 || pid == 4 {
        return None;
    }
    let address: usize = match k {
        TableKind::Tcp4 => 4,
        _ => 0,
    };
    let local = read_socket(k, b, at + address, at + local_port_offset(k));
    if is_loopback(local.ip) {
        return None;
    }
    let (remote_address, remote_port): (usize, usize) = match k {
        TableKind::Tcp4 => (12, 16),
        TableKind::Tcp6 => (24, 44),
        _ => {
            return Some(Candidate { kind: k, pid, local, remote: None });
        },
    };
    let remote = read_socket(k, b, at + remote_address, at + remote_port);
    if is_loopback(remote.ip) || is_unspecified(remote.ip) {
        return None;
    }
    Some(Candidate { kind: k, pid, local, remote: Some(remote) })
}

/// Appends the connections of a table.
fn push_candidates(v: &mut Vec<Candidate>, k: TableKind, table: &Option<Vec<u8>>)
    ensures
        views(final(v)@) == views(old(v)@) + candidates_in(k, table_bytes(*table)),
{
    let ghost before = views(v@);
    match table {
        Some(b) => {
            let n: usize = count_rows(k, b);
            let mut i: usize = 0;
            assert(views(v@) =~= before + candidates_below(k, b@, 0));
            while i < n
                invariant
                    i <= n == row_count(k, b@),
                    views(v@) == before + candidates_below(k, b@, i as int),
                decreases n - i,
            {
                match read_candidate(k, b, i) {
                    Some(c) => {
                        let ghost prior = v@;
                        v.push(c);
                        assert(views(v@) =~= views(prior).push(c@));
                        assert(views(v@) =~= before + candidates_below(k, b@, i + 1));
                    },
                    None => {},
                }
                i += 1;
            }
        },
        None => {
            assert(views(v@) =~= before + Seq::<CandidateView>::empty());
        },
    }
}

/// The connections that the tables list.
pub fn connection_candidates(t: &Tables) -> (r: Vec<Candidate>)
    ensures
        views(r@) == candidates(*t),
{
    let mut v: Vec<Candidate> = Vec::new();
    assert(views(v@) =~= Seq::<CandidateView>::empty());
    push_candidates(&mut v, TableKind::Tcp4, &t.tcp4);
    push_candidates(&mut v, TableKind::Tcp6, &t.tcp6);
    push_candidates(&mut v, TableKind::Udp4, &t.udp4);
    push_candidates(&mut v, TableKind::Udp6, &t.udp6);
    assert(views(v@) =~= candidates(*t));
    v
}

// ---------------------------------------------------------------------------------------------
// Reports
// ---------------------------------------------------------------------------------------------

/// The identifier of a connection in the list.
pub open spec fn listed_id(c: CandidateView, name: Seq<char>) -> Seq<char> {
    let head = name + seq![':'] + decimal(c.local.1 as nat);
    match c.remote {
        Some(remote) => connection_id(name, c.local.1, remote.0, remote.1),
        None => if c.kind is Udp4 {
            head + "-UDP:"@ + ip_text(c.local.0)
        } else {
            head + "-UDP6:["@ + ip_text(c.local.0) + seq![']']
        },
    }
}

/// How a connection in the list is reported.
pub open spec fn listed_event(c: CandidateView, name: Seq<char>, now: u64) -> ConnectionView {
    ConnectionView {
        id: listed_id(c, name),
        pid: c.pid,
        process_name: name,
        protocol: protocol_text(c.remote is Some),
        source_addr: socket_text(c.local.0, c.local.1),
        original_dest: match c.remote {
            Some(remote) => socket_text(remote.0, remote.1),
            None => "UDP Endpoint"@,
        },
        action: "Direct"@,
        bytes_sent: 0,
        bytes_received: 0,
        timestamp: now,
        status: "Active"@,
    }
}

/// The name is one that was made up for want of a better one.
pub open spec fn unnamed(name: Seq<char>) -> bool {
    "PID_"@.is_prefix_of(name)
}

/// The reports of connections whose processes have a name, given the images of the processes.
pub open spec fn listed_events(
    c: Seq<CandidateView>,
    images: Seq<Option<Seq<u16>>>,
    now: u64,
) -> Seq<ConnectionView>
    decreases c.len(),
{
    if c.len() == 0 {
        Seq::empty()
    } else {
        let rest = listed_events(c.drop_last(), images, now);
        let name = process_name(c.last().pid, images[c.len() - 1]);
        if unnamed(name) {
            rest
        } else {
            rest.push(listed_event(c.last(), name, now))
        }
    }
}

/// The statistics when all the processes that are reported were active at `now`.
pub open spec fn touched(
    stats: Map<Seq<char>, Totals>,
    events: Seq<ConnectionView>,
    now: u64,
) -> Map<Seq<char>, Totals>
    decreases events.len(),
{
    if events.len() == 0 {
        stats
    } else {
        recorded(touched(stats, events.drop_last(), now), events.last().process_name, 0, 0, now)
    }
}

/// Reports a connection in the list.
pub fn report_listed(c: &Candidate, name: &str, now: u64) -> (r: ConnectionInfo)
    requires
        c.remote is None ==> c.kind is Udp4 || c.kind is Udp6,
    ensures
        r@ == listed_event(c@, name@, now),
{
    let (id, original_dest) = match &c.remote {
        Some(remote) => (
            make_connection_id(name, c.local.port, &remote.ip, remote.port),
            socket_to_text(remote),
        ),
        None => {
            let mut id = name.to_string();
            id.push(':');
            push_decimal(&mut id, c.local.port as u64);
            match c.kind {
                TableKind::Udp4 => {
                    id.append("-UDP:");
                    push_ip(&mut id, &c.local.ip);
                },
                _ => {
                    id.append("-UDP6:[");
                    push_ip(&mut id, &c.local.ip);
                    id.push(']');
                },
            }
            assert(id@ =~= listed_id(c@, name@));
            (id, "UDP Endpoint".to_string())
        },
    };
    ConnectionInfo {
        id,
        pid: c.pid,
        process_name: name.to_string(),
        protocol: protocol_name(c.remote.is_some()),
        source_addr: socket_to_text(&c.local),
        original_dest,
        action: "Direct".to_string(),
        bytes_sent: 0,
        bytes_received: 0,
        timestamp: now,
        status: "Active".to_string(),
    }
}

/// The code units of the images, as far as they could be had.
pub open spec fn images_of(images: Seq<Option<Vec<u16>>>) -> Seq<Option<Seq<u16>>> {
    Seq::new(images.len(), |i: int| image_units(images[i]))
}

// ---------------------------------------------------------------------------------------------
// Order
// ---------------------------------------------------------------------------------------------

/// A sorted run of reports with one more, behind those whose process name is not greater.
pub open spec fn placed(s: Seq<ConnectionView>, x: ConnectionView) -> Seq<ConnectionView>
    decreases s.len(),
{
    if s.len() == 0 || text_le(s.last().process_name, x.process_name) {
        s.push(x)
    } else {
        placed(s.drop_last(), x).push(s.last())
    }
}

/// Reports in the order of their process names, those of one process in the order they had.
pub open spec fn by_process(s: Seq<ConnectionView>) -> Seq<ConnectionView>
    decreases s.len(),
{
    if s.len() == 0 {
        s
    } else {
        placed(by_process(s.drop_last()), s.last())
    }
}

/// No report comes before one of a lesser process name.
pub open spec fn in_order(s: Seq<ConnectionView>) -> bool {
    forall|i: int, j: int|
        0 <= i <= j < s.len() ==> text_le((#[trigger] s[i]).process_name, (
        #[trigger] s[j]).process_name)
}

/// Every text comes before itself.
proof fn text_le_reflexive(a: Seq<char>)
    ensures
        text_le(a, a),
{
    text_le_total(a, a);
}

/// Placing a report in a sorted run keeps it sorted.
proof fn placed_in_order(s: Seq<ConnectionView>, x: ConnectionView)
    requires
        in_order(s),
    ensures
        in_order(placed(s, x)),
        placed(s, x).len() == s.len() + 1,
        forall|i: int|
            0 <= i < placed(s, x).len() ==> (#[trigger] placed(s, x)[i] == x || s.contains(
                placed(s, x)[i],
            )),
    decreases s.len(),
{
    let p = placed(s, x);
    text_le_reflexive(x.process_name);
    if s.len() == 0 {
    } else if text_le(s.last().process_name, x.process_name) {
        assert forall|i: int, j: int| 0 <= i <= j < p.len() implies text_le(
            (#[trigger] p[i]).process_name,
            (#[trigger] p[j]).process_name,
        ) by {
            if j == s.len() && i < s.len() {
                assert(text_le(s[i].process_name, s[s.len() - 1].process_name));
                text_le_transitive(s[i].process_name, s.last().process_name, x.process_name);
            }
        }
        assert forall|i: int| 0 <= i < p.len() implies (#[trigger] p[i] == x || s.contains(p[i])) by {
            if i < s.len() {
                assert(s[i] == p[i]);
            }
        }
    } else {
        let front = s.drop_last();
        let q = placed(front, x);
        assert forall|i: int, j: int| 0 <= i <= j < front.len() implies text_le(
            (#[trigger] front[i]).process_name,
            (#[trigger] front[j]).process_name,
        ) by {
            assert(front[i] == s[i] && front[j] == s[j]);
        }
        placed_in_order(front, x);
        text_le_total(s.last().process_name, x.process_name);
        text_le_reflexive(s.last().process_name);
        assert forall|i: int| 0 <= i < q.len() implies text_le(
            (#[trigger] q[i]).process_name,
            s.last().process_name,
        ) by {
            if q[i] != x {
                let k = choose|k: int| 0 <= k < front.len() && front[k] == q[i];
                assert(text_le(s[k].process_name, s[s.len() - 1].process_name));
            }
        }
        assert forall|i: int| 0 <= i < p.len() implies (#[trigger] p[i] == x || s.contains(p[i])) by {
            if i < q.len() {
                assert(q[i] == p[i]);
                if q[i] != x {
                    let k = choose|k: int| 0 <= k < front.len() && front[k] == q[i];
                    assert(s[k] == p[i]);
                }
            } else {
                assert(s[s.len() - 1] == p[i]);
            }
        }
    }
}

/// The reports come out in the order of their process names.
pub proof fn by_process_is_in_order(s: Seq<ConnectionView>)
    ensures
        in_order(by_process(s)),
        by_process(s).len() == s.len(),
    decreases s.len(),
{
    if s.len() > 0 {
        by_process_is_in_order(s.drop_last());
        placed_in_order(by_process(s.drop_last()), s.last());
    }
}

/// The reports of one process, in order.
pub open spec fn of_process(s: Seq<ConnectionView>, name: Seq<char>) -> Seq<ConnectionView>
    decreases s.len(),
{
    if s.len() == 0 {
        s
    } else {
        let rest = of_process(s.drop_last(), name);
        if s.last().process_name == name {
            rest.push(s.last())
        } else {
            rest
        }
    }
}

/// Placing a report puts it behind the others of its process.
proof fn placed_of_process(s: Seq<ConnectionView>, x: ConnectionView, name: Seq<char>)
    ensures
        of_process(placed(s, x), name) == (if x.process_name == name {
            of_process(s, name).push(x)
        } else {
            of_process(s, name)
        }),
    decreases s.len(),
{
    let p = placed(s, x);
    if s.len() == 0 || text_le(s.last().process_name, x.process_name) {
        assert(p.drop_last() =~= s);
    } else {
        text_le_reflexive(x.process_name);
        placed_of_process(s.drop_last(), x, name);
        assert(p.drop_last() =~= placed(s.drop_last(), x));
    }
}

/// The order of reports keeps, for each process, its reports in the order they had, so that
/// none is lost and none is added.
pub proof fn by_process_is_stable(s: Seq<ConnectionView>, name: Seq<char>)
    ensures
        of_process(by_process(s), name) == of_process(s, name),
    decreases s.len(),
{
    if s.len() > 0 {
        by_process_is_stable(s.drop_last(), name);
        placed_of_process(by_process(s.drop_last()), s.last(), name);
    }
}

/// A report is placed where those before it have no greater name and those behind it have one.
proof fn placed_at(s: Seq<ConnectionView>, x: ConnectionView, k: int)
    requires
        0 <= k <= s.len(),
        k > 0 ==> text_le(s[k - 1].process_name, x.process_name),
        forall|j: int|
            k <= j < s.len() ==> !text_le((#[trigger] s[j]).process_name, x.process_name),
    ensures
        placed(s, x) == s.insert(k, x),
    decreases s.len(),
{
    if k == s.len() {
        assert(s.insert(k, x) =~= s.push(x));
    } else {
        let front = s.drop_last();
        assert(!text_le(s[s.len() - 1].process_name, x.process_name));
        assert forall|j: int| k <= j < front.len() implies !text_le(
            (#[trigger] front[j]).process_name,
            x.process_name,
        ) by {
            assert(front[j] == s[j]);
        }
        placed_at(front, x, k);
        assert(front.insert(k, x).push(s.last()) =~= s.insert(k, x));
    }
}

/// Places a report in a sorted run.
fn place(v: &mut Vec<ConnectionInfo>, x: ConnectionInfo)
    requires
        in_order(views(old(v)@)),
    ensures
        views(final(v)@) == placed(views(old(v)@), x@),
        in_order(views(final(v)@)),
{
    let ghost s = views(v@);
    let n: usize = v.len();
    let mut low: usize = 0;
    let mut high: usize = n;
    while low < high
        invariant
            low <= high <= n == v@.len(),
            s == views(v@),
            in_order(s),
            forall|j: int|
                0 <= j < low ==> text_le((#[trigger] s[j]).process_name, x.process_name@),
            forall|j: int|
                high <= j < n ==> !text_le((#[trigger] s[j]).process_name, x.process_name@),
        decreases high - low,
    {
        let mid: usize = low + (high - low) / 2;
        if text_in_order(v[mid].process_name.as_str(), x.process_name.as_str()) {
            assert forall|j: int| 0 <= j < mid + 1 implies text_le(
                (#[trigger] s[j]).process_name,
                x.process_name@,
            ) by {
                assert(text_le(s[j].process_name, s[mid as int].process_name));
                text_le_transitive(s[j].process_name, s[mid as int].process_name, x.process_name@);
            }
            low = mid + 1;
        } else {
            assert forall|j: int| mid <= j < n implies !text_le(
                (#[trigger] s[j]).process_name,
                x.process_name@,
            ) by {
                if text_le(s[j].process_name, x.process_name@) {
                    assert(text_le(s[mid as int].process_name, s[j].process_name));
                    text_le_transitive(
                        s[mid as int].process_name,
                        s[j].process_name,
                        x.process_name@,
                    );
                }
            }
            high = mid;
        }
    }
    proof {
        if low > 0 {
            assert(text_le(s[low - 1].process_name, x.process_name@));
        }
        placed_at(s, x@, low as int);
        placed_in_order(s, x@);
    }
    let ghost before = v@;
    v.insert(low, x);
    assert(views(v@) =~= views(before).insert(low as int, x@));
}

/// The greatest number of connections that are reported.
pub const LIST_LIMIT: usize = 1000;

/// The first reports, as many as are shown.
pub open spec fn limited(s: Seq<ConnectionView>) -> Seq<ConnectionView> {
    if s.len() > LIST_LIMIT {
        s.take(LIST_LIMIT as int)
    } else {
        s
    }
}

/// The connections that the operating system lists, by process name, and not too many.
///
/// `images` holds, for each of the [`connection_candidates`] of the tables, the path of the
/// image of its process, if it could be had. The processes that are found are noted as active.
pub fn get_active_system_connections(
    state: &mut EngineState,
    t: &Tables,
    images: &Vec<Option<Vec<u16>>>,
    now: u64,
) -> (r: Vec<ConnectionInfo>)
    requires
        old(state).wf(),
        images@.len() == candidates(*t).len(),
    ensures
        final(state).wf(),
        ({
            let events = listed_events(candidates(*t), images_of(images@), now);
            &&& views(r@) == limited(by_process(events))
            &&& final(state)@ == (EngineView {
                traffic_stats: touched(old(state)@.traffic_stats, events, now),
                ..old(state)@
            })
        }),
{
    let list = connection_candidates(t);
    let n: usize = list.len();
    let ghost all = views(list@);
    let ghost paths = images_of(images@);
    let ghost stats = state@.traffic_stats;
    let mut r: Vec<ConnectionInfo> = Vec::new();
    let mut i: usize = 0;
    let ghost mut events: Seq<ConnectionView> = Seq::empty();
    proof {
        candidates_have_ends(*t);
        assert(views(r@) =~= by_process(events));
        assert(all.take(0) =~= Seq::<CandidateView>::empty());
        assert(state@ =~= (EngineView { traffic_stats: touched(stats, events, now), ..old(state)@ }));
    }
    while i < n
        invariant
            i <= n == list@.len(),
            all == views(list@),
            all == candidates(*t),
            n == images@.len(),
            paths == images_of(images@),
            stats == old(state)@.traffic_stats,
            forall|j: int|
                0 <= j < n && (#[trigger] all[j]).remote is None ==> all[j].kind is Udp4
                    || all[j].kind is Udp6,
            events == listed_events(all.take(i as int), paths, now),
            views(r@) == by_process(events),
            in_order(views(r@)),
            state.wf(),
            state@ == (EngineView { traffic_stats: touched(stats, events, now), ..old(state)@ }),
        decreases n - i,
    {
        assert(all.take(i + 1).drop_last() =~= all.take(i as int));
        assert(all.take(i + 1).last() == all[i as int]);
        let c = &list[i];
        assert(c@ == all[i as int]);
        let name = get_process_name_for_pid(c.pid, &images[i]);
        assert(name@ == process_name(all[i as int].pid, paths[i as int]));
        if !starts_with_text(name.as_str(), "PID_") {
            let e = report_listed(c, name.as_str(), now);
            state.traffic_stats.touch(name.as_str(), now);
            proof {
                let more = events.push(e@);
                assert(more.drop_last() =~= events);
                assert(more == listed_events(all.take(i + 1), paths, now));
                events = more;
            }
            place(&mut r, e);
            assert(state@ =~= (EngineView {
                traffic_stats: touched(stats, events, now),
                ..old(state)@
            }));
        }
        i += 1;
    }
    assert(all.take(n as int) =~= all);
    if r.len() > LIST_LIMIT {
        let ghost full = r@;
        r.truncate(LIST_LIMIT);
        assert(views(r@) =~= views(full).take(LIST_LIMIT as int));
    }
    r
}

/// Only connections of UDP lack a remote end.
proof fn rows_have_ends(k: TableKind, b: Seq<u8>, n: int)
    ensures
        forall|j: int|
            0 <= j < candidates_below(k, b, n).len() && (#[trigger] candidates_below(k, b, n)[j]).remote
                is None ==> candidates_below(k, b, n)[j].kind is Udp4 || candidates_below(
                k,
                b,
                n,
            )[j].kind is Udp6,
    decreases n,
{
    if n > 0 {
        rows_have_ends(k, b, n - 1);
    }
}

/// Only connections of UDP lack a remote end.
proof fn candidates_have_ends(t: Tables)
    ensures
        forall|j: int|
            0 <= j < candidates(t).len() && (#[trigger] candidates(t)[j]).remote is None
                ==> candidates(t)[j].kind is Udp4 || candidates(t)[j].kind is Udp6,
{
    if t.tcp4 is Some {
        rows_have_ends(TableKind::Tcp4, t.tcp4->0@, row_count(TableKind::Tcp4, t.tcp4->0@));
    }
    if t.tcp6 is Some {
        rows_have_ends(TableKind::Tcp6, t.tcp6->0@, row_count(TableKind::Tcp6, t.tcp6->0@));
    }
    if t.udp4 is Some {
        rows_have_ends(TableKind::Udp4, t.udp4->0@, row_count(TableKind::Udp4, t.udp4->0@));
    }
    if t.udp6 is Some {
        rows_have_ends(TableKind::Udp6, t.udp6->0@, row_count(TableKind::Udp6, t.udp6->0@));
    }
}

// ---------------------------------------------------------------------------------------------
// Discovery
// ---------------------------------------------------------------------------------------------

/// The names of the processes that are reported and not left alone, each once.
pub open spec fn discovered(s: Seq<ConnectionView>) -> Seq<Seq<char>>
    decreases s.len(),
{
    if s.len() == 0 {
        Seq::empty()
    } else {
        let rest = discovered(s.drop_last());
        let name = s.last().process_name;
        if excluded_process(name) || rest.contains(name) {
            rest
        } else {
            rest.push(name)
        }
    }
}

/// The names of the processes that are reported and not left alone, each once.
pub fn discovered_processes(connections: &Vec<ConnectionInfo>) -> (r: Vec<String>)
    ensures
        views(r@) == discovered(views(connections@)),
{
    let n: usize = connections.len();
    let ghost all = views(connections@);
    let mut r: Vec<String> = Vec::new();
    let mut i: usize = 0;
    assert(views(r@) =~= discovered(all.take(0)));
    while i < n
        invariant
            i <= n == connections@.len(),
            all == views(connections@),
            views(r@) == discovered(all.take(i as int)),
        decreases n - i,
    {
        assert(all.take(i + 1).drop_last() =~= all.take(i as int));
        let name = &connections[i].process_name;
        if !is_excluded_process(name.as_str()) && !holds_name(&r, name) {
            let ghost before = r@;
            r.push(name.clone());
            assert(views(r@) =~= views(before).push(name@));
        }
        i += 1;
    }
    assert(all.take(n as int) =~= all);
    r
}

/// Whether a name is among others.
fn holds_name(v: &Vec<String>, name: &String) -> (r: bool)
    ensures
        r == views(v@).contains(name@),
{
    let n: usize = v.len();
    let mut i: usize = 0;
    while i < n
        invariant
            i <= n == v@.len(),
            forall|j: int| 0 <= j < i ==> #[trigger] views(v@)[j] != name@,
        decreases n - i,
    {
        if v[i] == *name {
            assert(views(v@)[i as int] == name@);
            return true;
        }
        i += 1;
    }
    false
}

/// A name is discovered exactly where a report has it and its process is not left alone, and no
/// name is discovered twice.
pub proof fn discovery_is_complete(s: Seq<ConnectionView>)
    ensures
        discovered(s).no_duplicates(),
        forall|name: Seq<char>| #[trigger]
            discovered(s).contains(name) <==> !excluded_process(name) && exists|i: int|
                0 <= i < s.len() && (#[trigger] s[i]).process_name == name,
    decreases s.len(),
{
    if s.len() > 0 {
        let front = s.drop_last();
        let last = s.last().process_name;
        discovery_is_complete(front);
        let d = discovered(s);
        let rest = discovered(front);
        assert forall|name: Seq<char>| #[trigger] d.contains(name) <==> !excluded_process(name)
            && exists|i: int| 0 <= i < s.len() && (#[trigger] s[i]).process_name == name by {
            if d.contains(name) {
                let k = choose|k: int| 0 <= k < d.len() && d[k] == name;
                if k < rest.len() {
                    assert(rest[k] == name);
                    assert(rest.contains(name));
                    let i = choose|i: int|
                        0 <= i < front.len() && (#[trigger] front[i]).process_name == name;
                    assert(s[i].process_name == name);
                } else {
                    assert(s[s.len() - 1].process_name == name);
                }
            }
            if !excluded_process(name) && exists|i: int|
                0 <= i < s.len() && (#[trigger] s[i]).process_name == name {
                let i = choose|i: int| 0 <= i < s.len() && (#[trigger] s[i]).process_name == name;
                if i < front.len() {
                    assert(front[i].process_name == name);
                    assert(rest.contains(name));
                    let k = choose|k: int| 0 <= k < rest.len() && rest[k] == name;
                    assert(d[k] == name);
                } else if rest.contains(last) {
                    assert(d.contains(name));
                } else {
                    assert(d[d.len() - 1] == name);
                }
            }
        }
    }
}

// ---------------------------------------------------------------------------------------------
// Laws on rows and reports
// ---------------------------------------------------------------------------------------------

/// A row of a table of TCP connections gives a connection unless its owner is process 0 or 4, one
/// of its ends is a loopback address, or its remote address is unspecified. A row of one of UDP
/// gives one unless its owner is process 0 or 4 or its local address is a loopback address. The
/// addresses, ports and the owner are those that stand in the row at their places.
pub proof fn rows_tell_their_connections(k: TableKind, b: Seq<u8>, i: int)
    requires
        0 <= i < row_count(k, b),
    ensures
        ({
            let tcp = k is Tcp4 || k is Tcp6;
            let octets: int = if k is Tcp4 || k is Udp4 {
                4
            } else {
                16
            };
            let start: int = match k {
                TableKind::Tcp4 => 4 + 24 * i,
                TableKind::Tcp6 => 4 + 56 * i,
                TableKind::Udp4 => 4 + 12 * i,
                TableKind::Udp6 => 4 + 28 * i,
            };
            let address: int = match k {
                TableKind::Tcp4 => start + 4,
                _ => start,
            };
            let port: int = match k {
                TableKind::Tcp4 => start + 8,
                TableKind::Udp4 => start + 4,
                _ => start + 20,
            };
            let remote_address: int = if k is Tcp4 {
                start + 12
            } else {
                start + 24
            };
            let remote_port: int = if k is Tcp4 {
                start + 16
            } else {
                start + 44
            };
            let owner: int = match k {
                TableKind::Tcp4 => start + 20,
                TableKind::Tcp6 => start + 52,
                TableKind::Udp4 => start + 8,
                TableKind::Udp6 => start + 24,
            };
            let pid = b[owner] + 256 * b[owner + 1] + 65536 * b[owner + 2] + 16777216 * b[owner
                + 3];
            let here = b.subrange(address, address + octets);
            let there = b.subrange(remote_address, remote_address + octets);
            let found = row_candidate(k, b, i);
            &&& found is Some <==> {
                &&& pid != 0
                &&& pid != 4
                &&& !loopback(here)
                &&& tcp ==> !loopback(there) && !unspecified(there)
            }
            &&& found matches Some(c) ==> {
                &&& c.kind == k
                &&& c.pid == pid
                &&& c.local.0 == here
                &&& c.local.1 == b[port] * 256 + b[port + 1]
                &&& !tcp ==> c.remote is None
                &&& tcp ==> {
                    &&& c.remote matches Some(remote)
                    &&& remote.0 == there
                    &&& remote.1 == b[remote_port] * 256 + b[remote_port + 1]
                }
            }
        }),
{
    match k {
        TableKind::Tcp4 => {
            assert(i * row_size(k) == 24 * i) by (nonlinear_arith)
                requires
                    row_size(k) == 24,
            ;
        },
        TableKind::Tcp6 => {
            assert(i * row_size(k) == 56 * i) by (nonlinear_arith)
                requires
                    row_size(k) == 56,
            ;
        },
        TableKind::Udp4 => {
            assert(i * row_size(k) == 12 * i) by (nonlinear_arith)
                requires
                    row_size(k) == 12,
            ;
        },
        TableKind::Udp6 => {
            assert(i * row_size(k) == 28 * i) by (nonlinear_arith)
                requires
                    row_size(k) == 28,
            ;
        },
    }
}

/// The connections of a table are those that its rows give, in their order.
pub proof fn tables_give_the_connections_of_their_rows(k: TableKind, b: Seq<u8>)
    ensures
        candidates_in(k, Some(b)) == Seq::new(row_count(k, b) as nat, |i: int| i).filter_map(
            |i: int| row_candidate(k, b, i),
        ),
        candidates_in(k, None).len() == 0,
{
    connections_of_first_rows(k, b, row_count(k, b));
}

/// The connections of the first rows are those that these rows give.
proof fn connections_of_first_rows(k: TableKind, b: Seq<u8>, n: int)
    requires
        0 <= n,
    ensures
        candidates_below(k, b, n) == Seq::new(n as nat, |i: int| i).filter_map(
            |i: int| row_candidate(k, b, i),
        ),
    decreases n,
{
    let f = |i: int| row_candidate(k, b, i);
    let rows = Seq::new(n as nat, |i: int| i);
    reveal_with_fuel(Seq::filter_map, 1);
    if n > 0 {
        let front = Seq::new((n - 1) as nat, |i: int| i);
        connections_of_first_rows(k, b, n - 1);
        assert(rows.drop_last() =~= front);
        assert(rows.last() == n - 1);
        assert(candidates_below(k, b, n) =~= rows.filter_map(f));
    } else {
        assert(candidates_below(k, b, n) =~= rows.filter_map(f));
    }
}

/// The connections of TCP come before those of UDP, and of each protocol those of version 4 before
/// those of version 6.
pub proof fn tables_come_in_order(t: Tables)
    ensures
        ({
            let a = candidates_in(TableKind::Tcp4, table_bytes(t.tcp4));
            let b = candidates_in(TableKind::Tcp6, table_bytes(t.tcp6));
            let c = candidates_in(TableKind::Udp4, table_bytes(t.udp4));
            let d = candidates_in(TableKind::Udp6, table_bytes(t.udp6));
            let all = candidates(t);
            &&& all.len() == a.len() + b.len() + c.len() + d.len()
            &&& all.take(a.len() as int) == a
            &&& all.skip(a.len() as int).take(b.len() as int) == b
            &&& all.skip((a.len() + b.len()) as int).take(c.len() as int) == c
            &&& all.skip((a.len() + b.len() + c.len()) as int) == d
        }),
{
}

/// A report of the list names the process, tells both ends of the connection, says that it is
/// active and goes straight to its destination, and has counted nothing.
pub proof fn lists_tell_connections(c: CandidateView, name: Seq<char>, now: u64)
    ensures
        ({
            let e = listed_event(c, name, now);
            &&& e.pid == c.pid
            &&& e.process_name == name
            &&& e.source_addr == socket_text(c.local.0, c.local.1)
            &&& e.action == "Direct"@
            &&& e.bytes_sent == 0
            &&& e.bytes_received == 0
            &&& e.timestamp == now
            &&& e.status == "Active"@
            &&& c.remote is None ==> e.protocol == "UDP"@ && e.original_dest == "UDP Endpoint"@
            &&& c.remote matches Some(remote) ==> {
                &&& e.protocol == "TCP"@
                &&& e.original_dest == socket_text(remote.0, remote.1)
                &&& e.id == connection_id(name, c.local.1, remote.0, remote.1)
            }
            &&& c.remote is None ==> exists|port: Seq<char>|
                is_decimal(port, c.local.1 as int) && #[trigger] (name + ":"@ + port + "-UDP"@)
                    + (if c.kind is Udp4 {
                    ":"@ + ip_text(c.local.0)
                } else {
                    "6:["@ + ip_text(c.local.0) + "]"@
                }) == e.id
        }),
{
    let port = decimal(c.local.1 as nat);
    decimal_reads_back(c.local.1 as nat);
    if c.remote is None {
        let head = name + ":"@ + port + "-UDP"@;
        reveal_strlit(":");
        reveal_strlit("]");
        reveal_strlit("6:[");
        reveal_strlit("-UDP");
        reveal_strlit("-UDP:");
        reveal_strlit("-UDP6:[");
        if c.kind is Udp4 {
            assert(head + (":"@ + ip_text(c.local.0)) =~= listed_id(c, name));
        } else {
            assert(head + ("6:["@ + ip_text(c.local.0) + "]"@) =~= listed_id(c, name));
        }
    }
}

/// The names that are made up for processes without an image mark their connections as unnamed; a
/// name is so marked by its first four characters alone.
pub proof fn made_up_names_are_unnamed(pid: u32, name: Seq<char>)
    ensures
        pid != 0 && pid != 4 ==> unnamed(process_name(pid, None)),
        !unnamed(process_name(0, None)) && !unnamed(process_name(4, None)),
        unnamed(name) <==> name.len() >= 4 && name.take(4) == "PID_"@,
{
    reveal_strlit("PID_");
    reveal_strlit("System");
    assert("PID_"@[0] == 'P' && "System"@[0] == 'S');
    if pid != 0 && pid != 4 {
        assert("PID_"@.is_prefix_of("PID_"@ + decimal(pid as nat)));
    }
    if name.len() >= 4 {
        assert(name.take(4) =~= name.subrange(0, 4));
    }
}

/// The list has, in their order, exactly the connections whose process has a name.
pub proof fn named_connections_are_listed(
    c: Seq<CandidateView>,
    images: Seq<Option<Seq<u16>>>,
    now: u64,
)
    ensures
        listed_events(c, images, now) == Seq::new(c.len(), |i: int| i).filter_map(
            |i: int|
                {
                    let name = process_name(c[i].pid, images[i]);
                    if "PID_"@.is_prefix_of(name) {
                        None
                    } else {
                        Some(listed_event(c[i], name, now))
                    }
                },
        ),
{
    let f = |i: int|
        {
            let name = process_name(c[i].pid, images[i]);
            if "PID_"@.is_prefix_of(name) {
                None
            } else {
                Some(listed_event(c[i], name, now))
            }
        };
    first_connections_are_listed(c, images, now, c.len() as int, f);
    assert(c.take(c.len() as int) =~= c);
}

/// The list of the first connections has those whose process has a name.
proof fn first_connections_are_listed(
    c: Seq<CandidateView>,
    images: Seq<Option<Seq<u16>>>,
    now: u64,
    n: int,
    f: spec_fn(int) -> Option<ConnectionView>,
)
    requires
        0 <= n <= c.len(),
        forall|i: int|
            0 <= i < c.len() ==> #[trigger] f(i) == (if unnamed(
                process_name(c[i].pid, images[i]),
            ) {
                None
            } else {
                Some(listed_event(c[i], process_name(c[i].pid, images[i]), now))
            }),
    ensures
        listed_events(c.take(n), images, now) == Seq::new(n as nat, |i: int| i).filter_map(f),
    decreases n,
{
    let s = Seq::new(n as nat, |i: int| i);
    reveal_with_fuel(Seq::filter_map, 1);
    if n > 0 {
        first_connections_are_listed(c, images, now, n - 1, f);
        assert(s.drop_last() =~= Seq::new((n - 1) as nat, |i: int| i));
        assert(c.take(n).drop_last() =~= c.take(n - 1));
        assert(s.last() == n - 1);
        assert(f(n - 1) == f(s.last()));
        assert(listed_events(c.take(n), images, now) =~= s.filter_map(f));
    } else {
        assert(listed_events(c.take(n), images, now) =~= s.filter_map(f));
    }
}

/// The processes in the list were active now, and have sent and received what they had before;
/// nothing is noted of any other one.
pub proof fn listed_processes_are_active(
    stats: Map<Seq<char>, Totals>,
    events: Seq<ConnectionView>,
    now: u64,
    name: Seq<char>,
)
    ensures
        ({
            let after = touched(stats, events, now);
            let known = stats.dom().contains(name);
            let listed = exists|i: int|
                0 <= i < events.len() && (#[trigger] events[i]).process_name == name;
            &&& after.dom().contains(name) <==> known || listed
            &&& listed ==> after[name].2 == now
            &&& listed && known ==> after[name].0 == stats[name].0 && after[name].1
                == stats[name].1
            &&& listed && !known ==> after[name].0 == 0 && after[name].1 == 0
            &&& known && !listed ==> after[name] == stats[name]
        }),
    decreases events.len(),
{
    if events.len() > 0 {
        let front = events.drop_last();
        listed_processes_are_active(stats, front, now, name);
        if events.last().process_name == name {
            assert(events[events.len() - 1].process_name == name);
        }
        assert forall|i: int| 0 <= i < front.len() implies #[trigger] front[i] == events[i] by {}
        if exists|i: int| 0 <= i < front.len() && (#[trigger] front[i]).process_name == name {
            let i = choose|i: int|
                0 <= i < front.len() && (#[trigger] front[i]).process_name == name;
            assert(events[i].process_name == name);
        }
        if exists|i: int| 0 <= i < events.len() && (#[trigger] events[i]).process_name == name {
            let i = choose|i: int|
                0 <= i < events.len() && (#[trigger] events[i]).process_name == name;
            if i < front.len() {
                assert(front[i].process_name == name);
            }
        }
    }
}

/// The first thousand reports are shown, or all where there are no more.
pub proof fn lists_are_limited(s: Seq<ConnectionView>)
    ensures
        limited(s).is_prefix_of(s),
        s.len() <= 1000 ==> limited(s).len() == s.len(),
        s.len() > 1000 ==> limited(s).len() == 1000,
{
}

/// What the list has of a process is what was reported of it, in the order in which it was
/// reported.
pub proof fn ordering_keeps_the_reports_of_a_process(s: Seq<ConnectionView>, name: Seq<char>)
    ensures
        by_process(s).filter(|e: ConnectionView| e.process_name == name) == s.filter(
            |e: ConnectionView| e.process_name == name,
        ),
{
    by_process_is_stable(s, name);
    reports_of_process(s, name);
    reports_of_process(by_process(s), name);
}

/// The reports of a process are those that have its name.
proof fn reports_of_process(s: Seq<ConnectionView>, name: Seq<char>)
    ensures
        of_process(s, name) == s.filter(|e: ConnectionView| e.process_name == name),
    decreases s.len(),
{
    reveal(Seq::filter);
    if s.len() > 0 {
        reports_of_process(s.drop_last(), name);
    }
}

/// More reports discover no fewer names, and leave those that were discovered where they stood.
pub proof fn discovery_goes_on(s: Seq<ConnectionView>, more: Seq<ConnectionView>)
    ensures
        discovered(s).is_prefix_of(discovered(s + more)),
    decreases more.len(),
{
    let all = s + more;
    if more.len() == 0 {
        assert(all =~= s);
    } else {
        discovery_goes_on(s, more.drop_last());
        assert(all.drop_last() =~= s + more.drop_last());
    }
}

/// The model of a listed connection tells all of it.
pub proof fn candidate_model_is_whole(c: Candidate, images: Seq<Option<Vec<u16>>>, i: int)
    ensures
        c@.kind == c.kind,
        c@.pid == c.pid,
        c@.local == c.local@,
        c.remote is None <==> c@.remote is None,
        c.remote matches Some(remote) ==> c@.remote == Some(remote@),
        images_of(images).len() == images.len(),
        0 <= i < images.len() ==> images_of(images)[i] == image_units(images[i]),
{
}

}
