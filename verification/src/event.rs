//! How a connection is named in reports.
use crate::address::{ip_text, push_ip, IpAddr};
use crate::text::{decimal, decimal_reads_back, is_decimal, push_decimal};
use vstd::prelude::*;
use vstd::string::*;

verus! {

/// `process:port-address:port`, the identifier of a connection.
pub open spec fn connection_id(name: Seq<char>, port: u16, dest: Seq<u8>, dest_port: u16) -> Seq<
    char,
> {
    name + seq![':'] + decimal(port as nat) + seq!['-'] + ip_text(dest) + seq![':'] + decimal(
        dest_port as nat,
    )
}

/// The identifier of a connection.
pub fn make_connection_id(name: &str, port: u16, dest: &IpAddr, dest_port: u16) -> (r: String)
    ensures
        r@ == connection_id(name@, port, dest@, dest_port),
{
    let mut s = name.to_string();
    s.push(':');
    push_decimal(&mut s, port as u64);
    s.push('-');
    push_ip(&mut s, dest);
    s.push(':');
    push_decimal(&mut s, dest_port as u64);
    assert(s@ =~= connection_id(name@, port, dest@, dest_port));
    s
}

/// The name of a protocol.
pub open spec fn protocol_text(is_tcp: bool) -> Seq<char> {
    if is_tcp {
        "TCP"@
    } else {
        "UDP"@
    }
}

/// The name of a protocol.
pub fn protocol_name(is_tcp: bool) -> (r: String)
    ensures
        r@ == protocol_text(is_tcp),
{
    if is_tcp {
        "TCP".to_string()
    } else {
        "UDP".to_string()
    }
}

/// The identifier of a connection is the name of its process, its port, the text of its
/// destination and the port there, with `:`, `-` and `:` between them.
pub proof fn identifier_names_the_connection(
    name: Seq<char>,
    port: u16,
    dest: Seq<u8>,
    dest_port: u16,
)
    ensures
        exists|from: Seq<char>, to: Seq<char>|
            is_decimal(from, port as int) && is_decimal(to, dest_port as int) && connection_id(
                name,
                port,
                dest,
                dest_port,
            ) == #[trigger] (name + ":"@ + from + "-"@ + ip_text(dest) + ":"@ + to),
{
    let from = decimal(port as nat);
    let to = decimal(dest_port as nat);
    decimal_reads_back(port as nat);
    decimal_reads_back(dest_port as nat);
    reveal_strlit(":");
    reveal_strlit("-");
    assert(connection_id(name, port, dest, dest_port) =~= name + ":"@ + from + "-"@ + ip_text(dest)
        + ":"@ + to);
}

/// The two protocols have different names.
pub proof fn protocols_differ()
    ensures
        protocol_text(true) == "TCP"@,
        protocol_text(false) == "UDP"@,
        protocol_text(true) != protocol_text(false),
{
    reveal_strlit("TCP");
    reveal_strlit("UDP");
    assert("TCP"@[0] == 'T' && "UDP"@[0] == 'U');
}

}
