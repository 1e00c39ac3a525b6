//! Internet addresses, their classes and their text forms.
use crate::text::{
    after_last, decimal, decimal_reads_back, digits_value, fields, fields_are_some,
    fields_of_joined, hexadecimal, hexadecimal_reads_back, is_decimal, is_hexadecimal,
    last_part_of_joined, one_field, push_decimal, push_hexadecimal,
};
use vstd::prelude::*;
use vstd::string::*;

verus! {

/// An internet address, as its octets in network order.
#[derive(Clone, Copy, Debug, PartialEq, Eq)]
pub enum IpAddr {
    V4([u8; 4]),
    V6([u8; 16]),
}

/// An internet address and a port.
#[derive(Clone, Copy, Debug, PartialEq, Eq)]
pub struct SocketAddr {
    pub ip: IpAddr,
    pub port: u16,
}

/// The model of an address: its four or sixteen octets.
impl View for IpAddr {
    type V = Seq<u8>;

    open spec fn view(&self) -> Seq<u8> {
        match self {
            IpAddr::V4(o) => o@,
            IpAddr::V6(o) => o@,
        }
    }
}

/// The model of an address and port: the octets and the port.
impl View for SocketAddr {
    type V = (Seq<u8>, u16);

    open spec fn view(&self) -> (Seq<u8>, u16) {
        (self.ip@, self.port)
    }
}

/// Octets that make an address: four of them, or sixteen.
pub open spec fn address_octets(o: Seq<u8>) -> bool {
    o.len() == 4 || o.len() == 16
}

/// An address is of version 4 exactly where it has four octets, and else has sixteen.
pub proof fn version_by_length(ip: IpAddr)
    ensures
        ip is V4 <==> ip@.len() == 4,
        ip is V6 <==> ip@.len() == 16,
        address_octets(ip@),
{
}

/// Two addresses with the same octets are the same address.
pub proof fn address_by_octets(a: IpAddr, b: IpAddr)
    requires
        a@ == b@,
    ensures
        a == b,
{
    version_by_length(a);
    version_by_length(b);
    match (a, b) {
        (IpAddr::V4(x), IpAddr::V4(y)) => {
            assert(x =~= y);
        },
        (IpAddr::V6(x), IpAddr::V6(y)) => {
            assert(x =~= y);
        },
        _ => {},
    }
}

/// The address of four octets.
pub fn ipv4(a: u8, b: u8, c: u8, d: u8) -> (r: IpAddr)
    ensures
        r is V4,
        r@ == seq![a, b, c, d],
{
    let r = IpAddr::V4([a, b, c, d]);
    assert(r@ =~= seq![a, b, c, d]);
    r
}

/// The version 6 address whose octets stand in `data` from `at` on.
pub fn ipv6_at(data: &[u8], at: usize) -> (r: IpAddr)
    requires
        at + 16 <= data@.len(),
    ensures
        r is V6,
        r@ == data@.subrange(at as int, at + 16),
{
    assert(data.len() == data@.len());
    let r = IpAddr::V6(
        [
            data[at],
            data[at + 1],
            data[at + 2],
            data[at + 3],
            data[at + 4],
            data[at + 5],
            data[at + 6],
            data[at + 7],
            data[at + 8],
            data[at + 9],
            data[at + 10],
            data[at + 11],
            data[at + 12],
            data[at + 13],
            data[at + 14],
            data[at + 15],
        ],
    );
    assert(r@ =~= data@.subrange(at as int, at + 16));
    r
}

impl IpAddr {
    /// The octet at position `i`.
    pub fn octet(&self, i: usize) -> (r: u8)
        requires
            i < self@.len(),
        ensures
            r == self@[i as int],
    {
        match self {
            IpAddr::V4(o) => o[i],
            IpAddr::V6(o) => o[i],
        }
    }

    /// The number of octets.
    pub fn octet_count(&self) -> (r: usize)
        ensures
            r == self@.len(),
    {
        match self {
            IpAddr::V4(_) => 4,
            IpAddr::V6(_) => 16,
        }
    }
}

// ---------------------------------------------------------------------------------------------
// Classes
// ---------------------------------------------------------------------------------------------

/// The sixteen-bit segment number `i`.
pub open spec fn segment(o: Seq<u8>, i: int) -> int {
    o[2 * i] * 256 + o[2 * i + 1]
}

/// All octets from `from` up to `to` are zero.
pub open spec fn zero_octets(o: Seq<u8>, from: int, to: int) -> bool {
    forall|i: int| from <= i < to ==> o[i] == 0
}

/// `127.0.0.0/8` or `::1`.
pub open spec fn loopback(o: Seq<u8>) -> bool {
    if o.len() == 4 {
        o[0] == 127
    } else {
        zero_octets(o, 0, 15) && o[15] == 1
    }
}

/// `0.0.0.0` or `::`.
pub open spec fn unspecified(o: Seq<u8>) -> bool {
    zero_octets(o, 0, o.len() as int)
}

/// The address belongs to the machine or to a private network: loopback, `10.0.0.0/8`,
/// `172.16.0.0/12`, `192.168.0.0/16`, `169.254.0.0/16`, `fe80::/10` or `fc00::/7`.
pub open spec fn local_network(o: Seq<u8>) -> bool {
    if o.len() == 4 {
        ||| o[0] == 127
        ||| o[0] == 10
        ||| o[0] == 172 && 16 <= o[1] <= 31
        ||| o[0] == 192 && o[1] == 168
        ||| o[0] == 169 && o[1] == 254
    } else {
        ||| loopback(o)
        ||| 0xFE80 <= segment(o, 0) <= 0xFEBF
        ||| 0xFC00 <= segment(o, 0) <= 0xFDFF
    }
}

/// Whether all octets from `from` up to `to` are zero.
fn all_zero(ip: &IpAddr, from: usize, to: usize) -> (r: bool)
    requires
        from <= to <= ip@.len(),
    ensures
        r == zero_octets(ip@, from as int, to as int),
{
    let mut i: usize = from;
    while i < to
        invariant
            from <= i <= to <= ip@.len(),
            zero_octets(ip@, from as int, i as int),
        decreases to - i,
    {
        if ip.octet(i) != 0 {
            return false;
        }
        i += 1;
    }
    true
}

/// Whether the address is a loopback address.
pub fn is_loopback(ip: IpAddr) -> (r: bool)
    ensures
        r == loopback(ip@),
{
    match ip {
        IpAddr::V4(o) => o[0] == 127,
        IpAddr::V6(o) => all_zero(&ip, 0, 15) && o[15] == 1,
    }
}

/// Whether the address is the unspecified address.
pub fn is_unspecified(ip: IpAddr) -> (r: bool)
    ensures
        r == unspecified(ip@),
{
    let n = ip.octet_count();
    all_zero(&ip, 0, n)
}

/// Whether the address belongs to the machine or to a private network.
pub fn is_local_ip(ip: IpAddr) -> (r: bool)
    ensures
        r == local_network(ip@),
{
    match ip {
        IpAddr::V4(o) => {
            o[0] == 127 || o[0] == 10 || (o[0] == 172 && o[1] >= 16 && o[1] <= 31) || (o[0] == 192
                && o[1] == 168) || (o[0] == 169 && o[1] == 254)
        },
        IpAddr::V6(o) => {
            let s0: u16 = (o[0] as u16) * 256 + (o[1] as u16);
            assert((s0 & 0xFFC0) == 0xFE80 <==> 0xFE80 <= s0 <= 0xFEBF) by (bit_vector);
            assert((s0 & 0xFE00) == 0xFC00 <==> 0xFC00 <= s0 <= 0xFDFF) by (bit_vector);
            is_loopback(ip) || (s0 & 0xFFC0) == 0xFE80 || (s0 & 0xFE00) == 0xFC00
        },
    }
}

/// Every loopback address is local.
pub proof fn loopback_is_local(ip: IpAddr)
    ensures
        loopback(ip@) ==> local_network(ip@),
{
}

// ---------------------------------------------------------------------------------------------
// Text
// ---------------------------------------------------------------------------------------------

/// `a.b.c.d`.
pub open spec fn ipv4_text(o: Seq<u8>) -> Seq<char> {
    decimal(o[0] as nat).push('.') + decimal(o[1] as nat).push('.') + decimal(o[2] as nat).push('.')
        + decimal(o[3] as nat)
}

/// The number of zero segments in a row from segment `i` on.
pub open spec fn zero_run(o: Seq<u8>, i: int) -> int
    decreases 8 - i,
{
    if i < 0 || i >= 8 || segment(o, i) != 0 {
        0
    } else {
        1 + zero_run(o, i + 1)
    }
}

/// Start and length of the first longest run of zero segments that begins below segment `k`.
pub open spec fn longest_run(o: Seq<u8>, k: int) -> (int, int)
    decreases k,
{
    if k <= 0 {
        (0, 0)
    } else {
        let best = longest_run(o, k - 1);
        if zero_run(o, k - 1) > best.1 {
            (k - 1, zero_run(o, k - 1))
        } else {
            best
        }
    }
}

/// The segments `from..to` in hexadecimal, with a colon between each two.
pub open spec fn segments_text(o: Seq<u8>, from: int, to: int) -> Seq<char>
    decreases to - from,
{
    if from >= to {
        Seq::empty()
    } else if from + 1 == to {
        hexadecimal(segment(o, from) as nat)
    } else {
        segments_text(o, from, to - 1).push(':') + hexadecimal(segment(o, to - 1) as nat)
    }
}

/// Twelve octets that mark an IPv4 address mapped into IPv6.
pub open spec fn ipv4_mapped(o: Seq<u8>) -> bool {
    zero_octets(o, 0, 10) && o[10] == 0xFF && o[11] == 0xFF
}

/// The canonical text of a version 6 address (RFC 5952): the first longest run of at least two
/// zero segments is written `::`, and a mapped IPv4 address ends in its own text.
pub open spec fn ipv6_text(o: Seq<u8>) -> Seq<char> {
    let (start, len) = longest_run(o, 8);
    if ipv4_mapped(o) {
        seq![':', ':', 'f', 'f', 'f', 'f', ':'] + ipv4_text(o.skip(12))
    } else if len > 1 {
        segments_text(o, 0, start) + seq![':', ':'] + segments_text(o, start + len, 8)
    } else {
        segments_text(o, 0, 8)
    }
}

/// The text of an address.
pub open spec fn ip_text(o: Seq<u8>) -> Seq<char> {
    if o.len() == 4 {
        ipv4_text(o)
    } else {
        ipv6_text(o)
    }
}

/// The text of an address and the port, with a colon between them and no brackets.
pub open spec fn endpoint_text(o: Seq<u8>, port: u16) -> Seq<char> {
    ip_text(o).push(':') + decimal(port as nat)
}

/// The text of an address and the port, with brackets round a version 6 address.
pub open spec fn socket_text(o: Seq<u8>, port: u16) -> Seq<char> {
    if o.len() == 4 {
        endpoint_text(o, port)
    } else {
        seq!['['] + ip_text(o) + seq![']', ':'] + decimal(port as nat)
    }
}

/// Appends four octets as `a.b.c.d`.
fn push_ipv4(s: &mut String, a: u8, b: u8, c: u8, d: u8)
    ensures
        final(s)@ == old(s)@ + ipv4_text(seq![a, b, c, d]),
{
    push_decimal(s, a as u64);
    s.push('.');
    push_decimal(s, b as u64);
    s.push('.');
    push_decimal(s, c as u64);
    s.push('.');
    push_decimal(s, d as u64);
    assert(s@ =~= old(s)@ + ipv4_text(seq![a, b, c, d]));
}

/// Segment number `i` of a version 6 address.
fn segment_of(ip: &IpAddr, i: usize) -> (r: u16)
    requires
        ip is V6,
        i < 8,
    ensures
        r == segment(ip@, i as int),
{
    (ip.octet(2 * i) as u16) * 256 + (ip.octet(2 * i + 1) as u16)
}

/// The number of zero segments in a row from segment `from` on.
fn zero_run_from(ip: &IpAddr, from: usize) -> (r: usize)
    requires
        ip is V6,
        from < 8,
    ensures
        r == zero_run(ip@, from as int),
        from + r <= 8,
{
    let mut i: usize = from;
    while i < 8 && segment_of(ip, i) == 0
        invariant
            ip is V6,
            from <= i <= 8,
            zero_run(ip@, from as int) == (i - from) + zero_run(ip@, i as int),
        decreases 8 - i,
    {
        i += 1;
    }
    i - from
}

/// Appends the segments `from..to`, with a colon between each two.
fn push_segments(s: &mut String, ip: &IpAddr, from: usize, to: usize)
    requires
        ip is V6,
        from <= to <= 8,
    ensures
        final(s)@ == old(s)@ + segments_text(ip@, from as int, to as int),
{
    let ghost start = s@;
    let mut i: usize = from;
    assert(s@ =~= start + segments_text(ip@, from as int, from as int));
    while i < to
        invariant
            ip is V6,
            from <= i <= to <= 8,
            s@ == start + segments_text(ip@, from as int, i as int),
        decreases to - i,
    {
        if i > from {
            s.push(':');
        }
        push_hexadecimal(s, segment_of(ip, i));
        i += 1;
        assert(s@ =~= start + segments_text(ip@, from as int, i as int));
    }
}

/// Appends the canonical text of a version 6 address.
fn push_ipv6(s: &mut String, ip: &IpAddr)
    requires
        ip is V6,
    ensures
        final(s)@ == old(s)@ + ipv6_text(ip@),
{
    let ghost start = s@;
    if all_zero(ip, 0, 10) && ip.octet(10) == 0xFF && ip.octet(11) == 0xFF {
        s.push(':');
        s.push(':');
        s.push('f');
        s.push('f');
        s.push('f');
        s.push('f');
        s.push(':');
        push_ipv4(s, ip.octet(12), ip.octet(13), ip.octet(14), ip.octet(15));
        assert(ip@.skip(12) =~= seq![ip@[12], ip@[13], ip@[14], ip@[15]]);
        assert(s@ =~= start + ipv6_text(ip@));
        return ;
    }
    let mut best: usize = 0;
    let mut best_len: usize = 0;
    let mut i: usize = 0;
    while i < 8
        invariant
            ip is V6,
            i <= 8,
            best + best_len <= 8,
            longest_run(ip@, i as int) == (best as int, best_len as int),
        decreases 8 - i,
    {
        let len = zero_run_from(ip, i);
        if len > best_len {
            best = i;
            best_len = len;
        }
        i += 1;
    }
    if best_len > 1 {
        push_segments(s, ip, 0, best);
        s.push(':');
        s.push(':');
        push_segments(s, ip, best + best_len, 8);
    } else {
        push_segments(s, ip, 0, 8);
    }
    assert(s@ =~= start + ipv6_text(ip@));
}

/// Appends the text of an address.
pub fn push_ip(s: &mut String, ip: &IpAddr)
    ensures
        final(s)@ == old(s)@ + ip_text(ip@),
{
    match ip {
        IpAddr::V4(o) => {
            push_ipv4(s, o[0], o[1], o[2], o[3]);
            assert(ip@ =~= seq![o@[0], o@[1], o@[2], o@[3]]);
        },
        IpAddr::V6(_) => {
            push_ipv6(s, ip);
        },
    }
}

/// The text of an address.
pub fn ip_to_text(ip: &IpAddr) -> (r: String)
    ensures
        r@ == ip_text(ip@),
{
    let mut s = String::new();
    push_ip(&mut s, ip);
    assert(Seq::<char>::empty() + ip_text(ip@) =~= ip_text(ip@));
    s
}

/// The text of an address and a port, with a colon between them and no brackets.
pub fn endpoint_to_text(ip: &IpAddr, port: u16) -> (r: String)
    ensures
        r@ == endpoint_text(ip@, port),
{
    let mut s = ip_to_text(ip);
    s.push(':');
    push_decimal(&mut s, port as u64);
    s
}

/// The text of an address and a port, with brackets round a version 6 address.
pub fn socket_to_text(a: &SocketAddr) -> (r: String)
    ensures
        r@ == socket_text(a.ip@, a.port),
{
    match &a.ip {
        IpAddr::V4(_) => endpoint_to_text(&a.ip, a.port),
        IpAddr::V6(_) => {
            let mut s = String::new();
            s.push('[');
            push_ip(&mut s, &a.ip);
            s.push(']');
            s.push(':');
            push_decimal(&mut s, a.port as u64);
            assert(s@ =~= socket_text(a.ip@, a.port));
            s
        },
    }
}

// ---------------------------------------------------------------------------------------------
// Laws
// ---------------------------------------------------------------------------------------------

/// The number that the four octets of a version 4 address make.
pub open spec fn address_number(o: Seq<u8>) -> int {
    o[0] * 16777216 + o[1] * 65536 + o[2] * 256 + o[3]
}

/// A version 4 address is local exactly where it lies between the first and the last address of
/// one of five networks; the first of these is that of loopback addresses.
pub proof fn local_networks_of_version_4(o: Seq<u8>)
    requires
        o.len() == 4,
    ensures
        ({
            let n = address_number(o);
            &&& loopback(o) <==> 0x7F00_0000 <= n <= 0x7FFF_FFFF
            &&& unspecified(o) <==> n == 0
            &&& local_network(o) <==> (0x7F00_0000 <= n <= 0x7FFF_FFFF) || (0x0A00_0000 <= n
                <= 0x0AFF_FFFF) || (0xAC10_0000 <= n <= 0xAC1F_FFFF) || (0xC0A8_0000 <= n
                <= 0xC0A8_FFFF) || (0xA9FE_0000 <= n <= 0xA9FE_FFFF)
        }),
{
    if address_number(o) == 0 {
        assert(o[0] == 0 && o[1] == 0 && o[2] == 0 && o[3] == 0);
    }
}

/// A version 6 address is local exactly where it is the loopback address, or its first ten bits
/// are those of link-local addresses, or its first seven those of unique local ones.
pub proof fn local_networks_of_version_6(o: Seq<u8>)
    requires
        o.len() == 16,
    ensures
        loopback(o) <==> o == Seq::new(16, |i: int| if i == 15 { 1u8 } else { 0u8 }),
        unspecified(o) <==> o == Seq::new(16, |i: int| 0u8),
        local_network(o) <==> loopback(o) || (o[0] == 0xFE && o[1] / 64 == 2) || o[0] / 2 == 0x7E,
{
    let one = Seq::new(16, |i: int| if i == 15 { 1u8 } else { 0u8 });
    let none = Seq::new(16, |i: int| 0u8);
    if loopback(o) {
        assert(o =~= one);
    }
    if o == one {
        assert forall|i: int| 0 <= i < 15 implies o[i] == 0 by {
            assert(one[i] == 0);
        }
        assert(one[15] == 1);
    }
    if unspecified(o) {
        assert(o =~= none);
    }
    if o == none {
        assert forall|i: int| 0 <= i < 16 implies o[i] == 0 by {
            assert(none[i] == 0);
        }
    }
    assert(segment(o, 0) == o[0] * 256 + o[1]);
}

/// A number in decimal holds digits alone.
proof fn decimal_has_no(n: nat, c: char)
    requires
        !('0' <= c <= '9'),
    ensures
        !decimal(n).contains(c),
{
    decimal_reads_back(n);
}

/// A number in hexadecimal holds no colon.
proof fn hexadecimal_has_no_colon(n: nat)
    ensures
        !hexadecimal(n).contains(':'),
{
    hexadecimal_reads_back(n);
}

/// The text reads as the octets: four numbers in decimal between dots, in the order of the octets.
pub open spec fn reads_octets(s: Seq<char>, o: Seq<u8>) -> bool {
    &&& fields(s, '.').len() == 4
    &&& forall|i: int| 0 <= i < 4 ==> is_decimal(#[trigger] fields(s, '.')[i], o[i] as int)
}

/// The text of a version 4 address reads back as its octets.
pub proof fn ipv4_text_reads_back(o: Seq<u8>)
    requires
        o.len() == 4,
    ensures
        reads_octets(ip_text(o), o),
{
    four_octets(o);
}

/// Four octets in decimal, between dots.
proof fn four_octets(o: Seq<u8>)
    requires
        o.len() == 4,
    ensures
        reads_octets(ipv4_text(o), o),
{
    let d0 = decimal(o[0] as nat);
    let d1 = decimal(o[1] as nat);
    let d2 = decimal(o[2] as nat);
    let d3 = decimal(o[3] as nat);
    decimal_reads_back(o[0] as nat);
    decimal_reads_back(o[1] as nat);
    decimal_reads_back(o[2] as nat);
    decimal_reads_back(o[3] as nat);
    one_field(d0, '.');
    fields_of_joined(d0, '.', d1);
    let a = d0.push('.') + d1;
    fields_of_joined(a, '.', d2);
    let b = a.push('.') + d2;
    fields_of_joined(b, '.', d3);
    assert(ipv4_text(o) =~= b.push('.') + d3);
    assert(fields(ipv4_text(o), '.') =~= seq![d0, d1, d2, d3]);
}

/// Different version 4 addresses have different texts.
pub proof fn ipv4_text_is_injective(a: Seq<u8>, b: Seq<u8>)
    requires
        a.len() == 4,
        b.len() == 4,
        ip_text(a) == ip_text(b),
    ensures
        a == b,
{
    ipv4_text_reads_back(a);
    ipv4_text_reads_back(b);
    let f = fields(ip_text(a), '.');
    assert(is_decimal(f[0], a[0] as int) && is_decimal(f[0], b[0] as int));
    assert(is_decimal(f[1], a[1] as int) && is_decimal(f[1], b[1] as int));
    assert(is_decimal(f[2], a[2] as int) && is_decimal(f[2], b[2] as int));
    assert(is_decimal(f[3], a[3] as int) && is_decimal(f[3], b[3] as int));
    assert(a =~= b);
}

/// The text reads as the segments `from..to`: numbers in hexadecimal between colons, each made of
/// two octets, the first the more significant.
pub open spec fn reads_segments(s: Seq<char>, o: Seq<u8>, from: int, to: int) -> bool {
    if from == to {
        s.len() == 0
    } else {
        &&& fields(s, ':').len() == to - from
        &&& forall|i: int|
            0 <= i < to - from ==> is_hexadecimal(
                #[trigger] fields(s, ':')[i],
                o[2 * (from + i)] * 256 + o[2 * (from + i) + 1],
            )
    }
}

/// The segments in hexadecimal, between colons.
proof fn segments_read_back(o: Seq<u8>, from: int, to: int)
    requires
        o.len() == 16,
        0 <= from <= to <= 8,
    ensures
        reads_segments(segments_text(o, from, to), o, from, to),
    decreases to - from,
{
    if from < to {
        let n = segment(o, to - 1) as nat;
        let h = hexadecimal(n);
        hexadecimal_reads_back(n);
        hexadecimal_has_no_colon(n);
        if from + 1 == to {
            one_field(h, ':');
        } else {
            segments_read_back(o, from, to - 1);
            let front = segments_text(o, from, to - 1);
            fields_of_joined(front, ':', h);
            let f = fields(segments_text(o, from, to), ':');
            assert forall|i: int| 0 <= i < to - from implies is_hexadecimal(
                #[trigger] f[i],
                o[2 * (from + i)] * 256 + o[2 * (from + i) + 1],
            ) by {
                if i < to - 1 - from {
                    assert(f[i] == fields(front, ':')[i]);
                }
            }
        }
    }
}

/// The octets of the segments from `i` on, so many of them, are zero.
pub open spec fn zero_segments(o: Seq<u8>, i: int, n: int) -> bool {
    forall|j: int| 2 * i <= j < 2 * (i + n) ==> o[j] == 0
}

/// A run of zero segments.
proof fn run_is_zero(o: Seq<u8>, i: int)
    requires
        o.len() == 16,
        0 <= i <= 8,
    ensures
        0 <= zero_run(o, i) <= 8 - i,
        zero_segments(o, i, zero_run(o, i)),
        forall|n: int|
            0 <= n && i + n <= 8 && #[trigger] zero_segments(o, i, n) ==> n <= zero_run(o, i),
    decreases 8 - i,
{
    if i < 8 {
        run_is_zero(o, i + 1);
        let r = zero_run(o, i);
        if segment(o, i) == 0 {
            assert(o[2 * i] == 0 && o[2 * i + 1] == 0);
            assert(zero_segments(o, i + 1, zero_run(o, i + 1)));
            assert(zero_segments(o, i, r)) by {
                assert forall|j: int| 2 * i <= j < 2 * (i + r) implies o[j] == 0 by {
                    if j >= 2 * (i + 1) {
                        assert(o[j] == 0);
                    }
                }
            }
        }
        assert forall|n: int|
            0 <= n && i + n <= 8 && #[trigger] zero_segments(o, i, n) implies n <= r by {
            if n > 0 {
                assert(o[2 * i] == 0 && o[2 * i + 1] == 0);
                assert(segment(o, i) == 0);
                assert(zero_segments(o, i + 1, n - 1));
            }
        }
    } else {
        assert(zero_run(o, i) == 0);
    }
}

/// The longest run of zero segments.
proof fn longest_run_is_longest(o: Seq<u8>, k: int)
    requires
        o.len() == 16,
        0 <= k <= 8,
    ensures
        ({
            let (start, len) = longest_run(o, k);
            &&& 0 <= start
            &&& 0 <= len
            &&& start + len <= 8
            &&& zero_segments(o, start, len)
            &&& forall|i: int| 0 <= i < k ==> #[trigger] zero_run(o, i) <= len
            &&& forall|i: int| 0 <= i < start ==> #[trigger] zero_run(o, i) < len
        }),
    decreases k,
{
    if k > 0 {
        longest_run_is_longest(o, k - 1);
        run_is_zero(o, k - 1);
    }
}

/// The text of a version 6 address reads back as its octets. One that stands for a version 4
/// address ends in the text of that; else the first of the longest runs of zero segments is left
/// out between two colons, where it has at least two segments, and all other segments are there,
/// in order.
pub proof fn ipv6_text_reads_back(o: Seq<u8>)
    requires
        o.len() == 16,
    ensures
        ({
            let t = ip_text(o);
            let mapped = zero_segments(o, 0, 5) && o[10] == 0xFF && o[11] == 0xFF;
            &&& mapped ==> t.len() > 7 && t.take(7) == "::ffff:"@ && reads_octets(
                t.skip(7),
                o.skip(12),
            )
            &&& !mapped ==> (reads_segments(t, o, 0, 8) && (forall|i: int|
                0 <= i <= 6 ==> !#[trigger] zero_segments(o, i, 2))) || exists|
                start: int,
                len: int,
                head: Seq<char>,
                tail: Seq<char>,
            |
                {
                    &&& #[trigger] shortened(o, start, len)
                    &&& t == #[trigger] (head + "::"@ + tail)
                    &&& reads_segments(head, o, 0, start)
                    &&& reads_segments(tail, o, start + len, 8)
                }
        }),
{
    reveal_strlit("::ffff:");
    reveal_strlit("::");
    let t = ip_text(o);
    if ipv4_mapped(o) {
        let v4 = o.skip(12);
        four_octets(v4);
        fields_are_some(ipv4_text(v4), '.');
        assert(t.skip(7) =~= ipv4_text(v4));
        assert(t.take(7) =~= "::ffff:"@);
        assert(zero_segments(o, 0, 5));
        if t.len() == 7 {
            assert(ipv4_text(v4) =~= Seq::<char>::empty());
            one_field(ipv4_text(v4), '.');
        }
    } else {
        if zero_segments(o, 0, 5) && o[10] == 0xFF && o[11] == 0xFF {
            assert(zero_octets(o, 0, 10));
        }
        let (start, len) = longest_run(o, 8);
        longest_run_is_longest(o, 8);
        if len > 1 {
            let head = segments_text(o, 0, start);
            let tail = segments_text(o, start + len, 8);
            segments_read_back(o, 0, start);
            segments_read_back(o, start + len, 8);
            assert forall|i: int, n: int|
                0 <= i && 0 < n && i + n <= 8 && #[trigger] zero_segments(o, i, n) implies n < len
                || (n == len && start <= i) by {
                run_is_zero(o, i);
            }
            assert(shortened(o, start, len));
            assert("::"@ =~= seq![':', ':']);
            assert(t == head + "::"@ + tail);
        } else {
            segments_read_back(o, 0, 8);
            assert forall|i: int| 0 <= i <= 6 implies !#[trigger] zero_segments(o, i, 2) by {
                run_is_zero(o, i);
            }
        }
    }
}

/// The segments from `start` on, `len` of them and at least two, are zero; no longer run of
/// segments is, and none as long before it.
pub open spec fn shortened(o: Seq<u8>, start: int, len: int) -> bool {
    &&& 0 <= start
    &&& 2 <= len
    &&& start + len <= 8
    &&& zero_segments(o, start, len)
    &&& forall|i: int, n: int|
        0 <= i && 0 < n && i + n <= 8 && #[trigger] zero_segments(o, i, n) ==> n < len || (n == len
            && start <= i)
}

/// The text of an address and a port is the text of the address, in brackets where they are wanted
/// and it is of version 6, then a colon and the port in decimal.
pub proof fn port_follows_address(o: Seq<u8>, port: u16)
    ensures
        exists|digits: Seq<char>|
            is_decimal(digits, port as int) && endpoint_text(o, port) == #[trigger] (ip_text(o)
                + ":"@ + digits),
        o.len() == 4 ==> exists|digits: Seq<char>|
            is_decimal(digits, port as int) && socket_text(o, port) == #[trigger] (ip_text(o)
                + ":"@ + digits),
        o.len() != 4 ==> exists|digits: Seq<char>|
            is_decimal(digits, port as int) && socket_text(o, port) == #[trigger] ("["@ + ip_text(o)
                + "]:"@ + digits),
        digits_value(after_last(endpoint_text(o, port), ':'), 10) == port,
        digits_value(after_last(socket_text(o, port), ':'), 10) == port,
{
    let digits = decimal(port as nat);
    decimal_reads_back(port as nat);
    decimal_has_no(port as nat, ':');
    reveal_strlit(":");
    reveal_strlit("[");
    reveal_strlit("]:");
    assert(endpoint_text(o, port) =~= ip_text(o) + ":"@ + digits);
    last_part_of_joined(ip_text(o), ':', digits);
    if o.len() != 4 {
        assert(socket_text(o, port) =~= "["@ + ip_text(o) + "]:"@ + digits);
        let before = seq!['['] + ip_text(o) + seq![']'];
        assert(socket_text(o, port) =~= before.push(':') + digits);
        last_part_of_joined(before, ':', digits);
    }
}

/// The texts of two addresses and ports differ where the ports do, or the addresses of version 4.
pub proof fn socket_text_tells_sockets_apart(a: (Seq<u8>, u16), b: (Seq<u8>, u16))
    requires
        socket_text(a.0, a.1) == socket_text(b.0, b.1),
    ensures
        a.1 == b.1,
        a.0.len() == 4 && b.0.len() == 4 ==> a.0 == b.0,
{
    port_follows_address(a.0, a.1);
    port_follows_address(b.0, b.1);
    if a.0.len() == 4 && b.0.len() == 4 {
        let s = ip_text(a.0);
        let t = ip_text(b.0);
        let n = decimal(a.1 as nat).len();
        assert(socket_text(a.0, a.1).len() == s.len() + 1 + n);
        assert(socket_text(b.0, b.1).len() == t.len() + 1 + n);
        assert(s =~= socket_text(a.0, a.1).take(s.len() as int));
        assert(t =~= socket_text(b.0, b.1).take(t.len() as int));
        ipv4_text_is_injective(a.0, b.0);
    }
}

/// The model of an address has its octets in their order, and that of a socket its address and its
/// port.
pub proof fn address_models_are_whole(ip: IpAddr, s: SocketAddr)
    ensures
        ip matches IpAddr::V4(o) ==> ip@ == o@,
        ip matches IpAddr::V6(o) ==> ip@ == o@,
        s@.0 == s.ip@,
        s@.1 == s.port,
{
}

}
