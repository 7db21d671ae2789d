use socks_tunnel::target::{parse_target, IpLiteral, SocketTarget};

fn v4(octets: [u8; 4], port: u16) -> Option<SocketTarget> {
    Some(SocketTarget { ip: IpLiteral::V4(octets), port })
}

fn v6(groups: [u16; 8], port: u16) -> Option<SocketTarget> {
    scoped(groups, 0, port)
}

fn scoped(groups: [u16; 8], scope_id: u32, port: u16) -> Option<SocketTarget> {
    Some(SocketTarget { ip: IpLiteral::V6 { groups, scope_id }, port })
}

#[test]
fn literal_address_is_parsed() {
    assert_eq!(
        parse_target("93.184.216.34:443"),
        v4([93, 184, 216, 34], 443)
    );
}

#[test]
fn host_name_is_rejected() {
    assert_eq!(parse_target("example.org:443"), None);
    assert_eq!(parse_target("localhost:8080"), None);
}

#[test]
fn extreme_values_are_accepted() {
    assert_eq!(
        parse_target("0.0.0.0:0"),
        v4([0, 0, 0, 0], 0)
    );
    assert_eq!(
        parse_target("255.255.255.255:65535"),
        v4([255, 255, 255, 255], 65535)
    );
}

#[test]
fn port_may_have_leading_zeros() {
    assert_eq!(
        parse_target("10.0.0.1:00080"),
        v4([10, 0, 0, 1], 80)
    );
}

#[test]
fn out_of_range_values_are_rejected() {
    assert_eq!(parse_target("256.1.1.1:80"), None);
    assert_eq!(parse_target("1.2.3.4:65536"), None);
    assert_eq!(parse_target("1.2.3.4:9999999999999999999999"), None);
}

#[test]
fn malformed_literals_are_rejected() {
    assert_eq!(parse_target(""), None);
    assert_eq!(parse_target("1.2.3.4"), None);
    assert_eq!(parse_target("1.2.3.4:"), None);
    assert_eq!(parse_target("1.2.3:80"), None);
    assert_eq!(parse_target("1.2.3.4.5:80"), None);
    assert_eq!(parse_target("01.2.3.4:80"), None);
    assert_eq!(parse_target("1..3.4:80"), None);
    assert_eq!(parse_target("1.2.3.4:80x"), None);
    assert_eq!(parse_target("1234.2.3.4:80"), None);
    assert_eq!(parse_target(" 1.2.3.4:80"), None);
}

#[test]
fn ipv6_literals_are_parsed() {
    assert_eq!(parse_target("[::1]:443"), v6([0, 0, 0, 0, 0, 0, 0, 1], 443));
    assert_eq!(parse_target("[::]:80"), v6([0; 8], 80));
    assert_eq!(
        parse_target("[2001:db8::8a2e:370:7334]:8080"),
        v6([0x2001, 0xdb8, 0, 0, 0, 0x8a2e, 0x370, 0x7334], 8080)
    );
    assert_eq!(parse_target("[1:2:3:4:5:6:7:8]:1"), v6([1, 2, 3, 4, 5, 6, 7, 8], 1));
    assert_eq!(parse_target("[1:2:3:4:5:6:7::]:1"), v6([1, 2, 3, 4, 5, 6, 7, 0], 1));
    assert_eq!(parse_target("[ABCD:ef01::]:65535"), v6([0xabcd, 0xef01, 0, 0, 0, 0, 0, 0], 65535));
}

#[test]
fn malformed_ipv6_literals_are_rejected() {
    assert_eq!(parse_target("[::1]"), None);
    assert_eq!(parse_target("[::1]:"), None);
    assert_eq!(parse_target("::1:443"), None);
    assert_eq!(parse_target("[:1]:80"), None);
    assert_eq!(parse_target("[1:]:80"), None);
    assert_eq!(parse_target("[1:2:3:4:5:6:7:8:9]:1"), None);
    assert_eq!(parse_target("[1:2:3:4:5:6:7:8::]:1"), None);
    assert_eq!(parse_target("[1:2:3:4::5:6:7:8]:1"), None);
    assert_eq!(parse_target("[1::2::3]:1"), None);
    assert_eq!(parse_target("[12345::1]:1"), None);
    assert_eq!(parse_target("[::g]:1"), None);
    assert_eq!(parse_target("[::1]:65536"), None);
    assert_eq!(parse_target("[1.2.3.4]:80"), None);
}

#[test]
fn ipv6_with_dotted_quad_tail_is_parsed() {
    assert_eq!(
        parse_target("[::ffff:1.2.3.4]:443"),
        v6([0, 0, 0, 0, 0, 0xffff, 0x0102, 0x0304], 443)
    );
    assert_eq!(parse_target("[::1.2.3.4]:80"), v6([0, 0, 0, 0, 0, 0, 0x0102, 0x0304], 80));
    assert_eq!(
        parse_target("[1:2:3:4:5:6:255.0.0.1]:80"),
        v6([1, 2, 3, 4, 5, 6, 0xff00, 0x0001], 80)
    );
}

#[test]
fn misplaced_dotted_quads_are_rejected() {
    assert_eq!(parse_target("[1.2.3.4::]:80"), None);
    assert_eq!(parse_target("[1:2:3:4:5:6:7:1.2.3.4]:80"), None);
    assert_eq!(parse_target("[::01.2.3.4]:80"), None);
    assert_eq!(parse_target("[::1.2.3.4.5]:80"), None);
    assert_eq!(parse_target("[::1.2.3.256]:80"), None);
}

#[test]
fn ipv6_with_scope_id_is_parsed() {
    assert_eq!(parse_target("[fe80::1%2]:443"), scoped([0xfe80, 0, 0, 0, 0, 0, 0, 1], 2, 443));
    assert_eq!(parse_target("[::1%2]:443"), scoped([0, 0, 0, 0, 0, 0, 0, 1], 2, 443));
    assert_eq!(
        parse_target("[::1%4294967295]:443"),
        scoped([0, 0, 0, 0, 0, 0, 0, 1], 4294967295, 443)
    );
    assert_eq!(
        parse_target("[::ffff:1.2.3.4%7]:1"),
        scoped([0, 0, 0, 0, 0, 0xffff, 0x0102, 0x0304], 7, 1)
    );
}

#[test]
fn malformed_scope_ids_are_rejected() {
    assert_eq!(parse_target("[::1%]:443"), None);
    assert_eq!(parse_target("[::1%x]:443"), None);
    assert_eq!(parse_target("[::1%4294967296]:443"), None);
    assert_eq!(parse_target("[::1%2%3]:443"), None);
    assert_eq!(parse_target("[::1]%2:443"), None);
}
