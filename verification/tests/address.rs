use proxier::address::{
    endpoint_to_text, ip_to_text, ipv4, is_local_ip, is_loopback, is_unspecified, socket_to_text,
    IpAddr, SocketAddr,
};

fn v6(s: [u16; 8]) -> IpAddr {
    let mut o = [0u8; 16];
    for i in 0..8 {
        o[2 * i] = (s[i] >> 8) as u8;
        o[2 * i + 1] = (s[i] & 0xFF) as u8;
    }
    IpAddr::V6(o)
}

#[test]
fn ipv4_text_form() {
    assert_eq!(ip_to_text(&ipv4(192, 168, 0, 255)), "192.168.0.255");
    assert_eq!(endpoint_to_text(&ipv4(1, 1, 1, 1), 80), "1.1.1.1:80");
    assert_eq!(socket_to_text(&SocketAddr { ip: ipv4(1, 1, 1, 1), port: 0 }), "1.1.1.1:0");
}

#[test]
fn ipv6_text_form() {
    assert_eq!(ip_to_text(&v6([0, 0, 0, 0, 0, 0, 0, 0])), "::");
    assert_eq!(ip_to_text(&v6([0, 0, 0, 0, 0, 0, 0, 1])), "::1");
    assert_eq!(ip_to_text(&v6([0xfe80, 0, 0, 0, 0, 0, 0, 0])), "fe80::");
    assert_eq!(ip_to_text(&v6([1, 2, 3, 4, 5, 6, 7, 8])), "1:2:3:4:5:6:7:8");
    assert_eq!(ip_to_text(&v6([1, 0, 3, 4, 5, 6, 7, 8])), "1:0:3:4:5:6:7:8");
    assert_eq!(ip_to_text(&v6([0x2001, 0xdb8, 0, 0, 1, 0, 0, 1])), "2001:db8::1:0:0:1");
    assert_eq!(ip_to_text(&v6([1, 0, 0, 2, 0, 0, 0, 3])), "1:0:0:2::3");
    assert_eq!(ip_to_text(&v6([0, 0, 0, 0, 0, 0xffff, 0xc000, 0x0280])), "::ffff:192.0.2.128");
    assert_eq!(ip_to_text(&v6([0, 0, 0, 0, 0, 0, 0xc000, 0x0280])), "::c000:280");
    let a = SocketAddr { ip: v6([0xabcd, 0, 0, 0, 0, 0, 0, 1]), port: 443 };
    assert_eq!(socket_to_text(&a), "[abcd::1]:443");
    assert_eq!(endpoint_to_text(&a.ip, 443), "abcd::1:443");
}

#[test]
fn local_addresses() {
    assert!(is_local_ip(ipv4(127, 9, 9, 9)));
    assert!(is_local_ip(ipv4(10, 0, 0, 1)));
    assert!(!is_local_ip(ipv4(172, 15, 0, 1)));
    assert!(is_local_ip(ipv4(172, 16, 0, 1)));
    assert!(is_local_ip(ipv4(172, 31, 0, 1)));
    assert!(!is_local_ip(ipv4(172, 32, 0, 1)));
    assert!(is_local_ip(ipv4(192, 168, 1, 1)));
    assert!(!is_local_ip(ipv4(192, 169, 1, 1)));
    assert!(is_local_ip(ipv4(169, 254, 1, 1)));
    assert!(!is_local_ip(ipv4(8, 8, 8, 8)));
    assert!(is_local_ip(v6([0, 0, 0, 0, 0, 0, 0, 1])));
    assert!(is_local_ip(v6([0xfebf, 0, 0, 0, 0, 0, 0, 1])));
    assert!(!is_local_ip(v6([0xfec0, 0, 0, 0, 0, 0, 0, 1])));
    assert!(is_local_ip(v6([0xfc00, 0, 0, 0, 0, 0, 0, 1])));
    assert!(is_local_ip(v6([0xfdff, 0, 0, 0, 0, 0, 0, 1])));
    assert!(!is_local_ip(v6([0x2001, 0, 0, 0, 0, 0, 0, 1])));
}

#[test]
fn loopback_and_unspecified() {
    assert!(is_loopback(ipv4(127, 0, 0, 1)));
    assert!(!is_loopback(ipv4(128, 0, 0, 1)));
    assert!(is_loopback(v6([0, 0, 0, 0, 0, 0, 0, 1])));
    assert!(!is_loopback(v6([0, 0, 0, 0, 0, 0, 0, 0])));
    assert!(is_unspecified(ipv4(0, 0, 0, 0)));
    assert!(!is_unspecified(ipv4(0, 0, 0, 1)));
    assert!(is_unspecified(v6([0, 0, 0, 0, 0, 0, 0, 0])));
    assert!(!is_unspecified(v6([0, 0, 0, 0, 1, 0, 0, 0])));
}
