use ip_endpoint::ipv4::{parse_ipv4, parse_octet};
use ip_endpoint::ipv6::{find_longest_zeros, parse_hex_group, parse_ipv6, parse_segments};
use ip_endpoint::number::{digit_to_char, parse_number, push_numeral};
use ip_endpoint::socket::{
    between_brackets, in_brackets, parse_host, parse_ip, parse_port, parse_socket_addr,
};
use ip_endpoint::{IpAddr, Ipv4Addr, Ipv6Addr};

fn chars(s: &str) -> Vec<char> {
    s.chars().collect()
}

fn ipv4(s: &str) -> Option<Ipv4Addr> {
    parse_ipv4(&chars(s))
}

fn ipv6(s: &str) -> Option<[u16; 8]> {
    parse_ipv6(&chars(s)).map(|x| x.segments())
}

#[test]
fn numbers_in_base_ten_and_sixteen() {
    assert_eq!(parse_number(&chars("0"), 10, 255), Some(0));
    assert_eq!(parse_number(&chars("255"), 10, 255), Some(255));
    assert_eq!(parse_number(&chars("256"), 10, 255), None);
    assert_eq!(parse_number(&chars("0255"), 10, 255), Some(255));
    assert_eq!(parse_number(&chars(""), 10, 255), None);
    assert_eq!(parse_number(&chars("12a"), 10, 0xFFFF), None);
    assert_eq!(parse_number(&chars("12a"), 16, 0xFFFF), Some(0x12a));
    assert_eq!(parse_number(&chars("FfFf"), 16, 0xFFFF), Some(0xFFFF));
    assert_eq!(parse_number(&chars("10000"), 16, 0xFFFF), None);
    assert_eq!(parse_number(&chars("g"), 16, 0xFFFF), None);
    assert_eq!(parse_number(&chars("4294967295"), 10, u32::MAX), Some(u32::MAX));
    assert_eq!(parse_number(&chars("4294967296"), 10, u32::MAX), None);
    assert_eq!(parse_number(&chars("777"), 8, 1000), Some(511));
    assert_eq!(parse_number(&chars("8"), 8, 1000), None);
    assert_eq!(parse_number(&chars("\u{0663}"), 10, 255), None);
    assert_eq!(parse_number(&chars("\u{ff11}"), 10, 255), None);
}

#[test]
fn numbers_are_written_without_zeros_in_front() {
    let mut out: Vec<char> = vec!['x'];
    push_numeral(&mut out, 0, 10);
    out.push(' ');
    push_numeral(&mut out, 7, 10);
    out.push(' ');
    push_numeral(&mut out, 255, 10);
    out.push(' ');
    push_numeral(&mut out, 0xab0, 16);
    out.push(' ');
    push_numeral(&mut out, 0xffff, 16);
    out.push(' ');
    push_numeral(&mut out, u32::MAX, 10);
    out.push(' ');
    push_numeral(&mut out, 5, 2);
    let text: String = out.iter().collect();
    assert_eq!(text, "x0 7 255 ab0 ffff 4294967295 101");
}

#[test]
fn digits_are_written_in_lower_case() {
    let all: String = (0..16).map(digit_to_char).collect();
    assert_eq!(all, "0123456789abcdef");
}

#[test]
fn octets() {
    assert_eq!(parse_octet(&chars("0")), Some(0));
    assert_eq!(parse_octet(&chars("9")), Some(9));
    assert_eq!(parse_octet(&chars("10")), Some(10));
    assert_eq!(parse_octet(&chars("255")), Some(255));
    assert_eq!(parse_octet(&chars("256")), None);
    assert_eq!(parse_octet(&chars("00")), None);
    assert_eq!(parse_octet(&chars("01")), None);
    assert_eq!(parse_octet(&chars("001")), None);
    assert_eq!(parse_octet(&chars("1000")), None);
    assert_eq!(parse_octet(&chars("0000")), None);
    assert_eq!(parse_octet(&chars("")), None);
    assert_eq!(parse_octet(&chars("1a")), None);
    assert_eq!(parse_octet(&chars("-1")), None);
}

#[test]
fn dotted_quads() {
    assert_eq!(ipv4("1.2.3.4"), Some(Ipv4Addr::new(1, 2, 3, 4)));
    assert_eq!(ipv4("0.0.0.0"), Some(Ipv4Addr::new(0, 0, 0, 0)));
    assert_eq!(ipv4("255.255.255.255"), Some(Ipv4Addr::new(255, 255, 255, 255)));
    assert_eq!(ipv4("192.168.1.1"), Some(Ipv4Addr::new(192, 168, 1, 1)));
    for bad in vec![
        "", ".", "1", "1.2.3", "1.2.3.4.5", "1.2.3.4.", ".1.2.3.4", "1..2.3", "1.2.3.256",
        "01.2.3.4", "1.2.3.4 ", "1.2.3.4:80", "a.b.c.d", "1.2.3.0x4", "1,2,3,4", "1.2.3.-4",
        "1.2.3.4/8",
    ] {
        assert_eq!(ipv4(bad), None, "{:?}", bad);
    }
}

#[test]
fn octets_come_back_in_order() {
    assert_eq!(Ipv4Addr::new(1, 2, 3, 4).octets(), [1, 2, 3, 4]);
    assert_eq!(
        Ipv6Addr::new(1, 2, 3, 4, 5, 6, 7, 8).segments(),
        [1, 2, 3, 4, 5, 6, 7, 8]
    );
    assert_eq!(
        Ipv6Addr::from_segments(&[8, 7, 6, 5, 4, 3, 2, 1]),
        Ipv6Addr::new(8, 7, 6, 5, 4, 3, 2, 1)
    );
}

#[test]
fn hexadecimal_groups() {
    assert_eq!(parse_hex_group(&chars("0")), Some(0));
    assert_eq!(parse_hex_group(&chars("0000")), Some(0));
    assert_eq!(parse_hex_group(&chars("0001")), Some(1));
    assert_eq!(parse_hex_group(&chars("ffff")), Some(0xffff));
    assert_eq!(parse_hex_group(&chars("FFFF")), Some(0xffff));
    assert_eq!(parse_hex_group(&chars("aBc")), Some(0xabc));
    assert_eq!(parse_hex_group(&chars("00000")), None);
    assert_eq!(parse_hex_group(&chars("10000")), None);
    assert_eq!(parse_hex_group(&chars("")), None);
    assert_eq!(parse_hex_group(&chars("g")), None);
    assert_eq!(parse_hex_group(&chars("0x1")), None);
}

#[test]
fn segments_between_colons() {
    assert_eq!(parse_segments(&chars(""), false), Some(vec![]));
    assert_eq!(parse_segments(&chars(""), true), Some(vec![]));
    assert_eq!(parse_segments(&chars("1"), false), Some(vec![1]));
    assert_eq!(parse_segments(&chars("1:2:ff"), false), Some(vec![1, 2, 0xff]));
    assert_eq!(parse_segments(&chars("1:"), false), None);
    assert_eq!(parse_segments(&chars(":1"), false), None);
    assert_eq!(parse_segments(&chars("1::2"), false), None);
    assert_eq!(parse_segments(&chars("1:1.2.3.4"), false), None);
    assert_eq!(
        parse_segments(&chars("1:1.2.3.4"), true),
        Some(vec![1, 0x0102, 0x0304])
    );
    assert_eq!(
        parse_segments(&chars("255.254.253.252"), true),
        Some(vec![0xfffe, 0xfdfc])
    );
    assert_eq!(parse_segments(&chars("1.2.3.4:1"), true), None);
    assert_eq!(
        parse_segments(&chars("1:2:3:4:5:6:7:8:9:a"), true),
        Some(vec![1, 2, 3, 4, 5, 6, 7, 8, 9, 10])
    );
}

#[test]
fn ipv6_in_full() {
    assert_eq!(ipv6("1:2:3:4:5:6:7:8"), Some([1, 2, 3, 4, 5, 6, 7, 8]));
    assert_eq!(
        ipv6("2001:0db8:0000:0000:0000:0000:0000:0001"),
        Some([0x2001, 0xdb8, 0, 0, 0, 0, 0, 1])
    );
    assert_eq!(
        ipv6("FFFF:ffff:FfFf:0:0:0:0:0"),
        Some([0xffff, 0xffff, 0xffff, 0, 0, 0, 0, 0])
    );
    assert_eq!(ipv6("1:2:3:4:5:6:7"), None);
    assert_eq!(ipv6("1:2:3:4:5:6:7:8:9"), None);
    assert_eq!(ipv6("1:2:3:4:5:6:7:"), None);
    assert_eq!(ipv6(":1:2:3:4:5:6:7"), None);
    assert_eq!(ipv6("1:2:3:4:5:6:7:12345"), None);
    assert_eq!(ipv6("1:2:3:4:5:6:7:g"), None);
}

#[test]
fn ipv6_with_a_double_colon() {
    assert_eq!(ipv6("::"), Some([0, 0, 0, 0, 0, 0, 0, 0]));
    assert_eq!(ipv6("::1"), Some([0, 0, 0, 0, 0, 0, 0, 1]));
    assert_eq!(ipv6("1::"), Some([1, 0, 0, 0, 0, 0, 0, 0]));
    assert_eq!(ipv6("1::8"), Some([1, 0, 0, 0, 0, 0, 0, 8]));
    assert_eq!(ipv6("1:2::7:8"), Some([1, 2, 0, 0, 0, 0, 7, 8]));
    assert_eq!(ipv6("1:2:3:4:5:6:7::"), Some([1, 2, 3, 4, 5, 6, 7, 0]));
    assert_eq!(ipv6("::2:3:4:5:6:7:8"), Some([0, 2, 3, 4, 5, 6, 7, 8]));
    assert_eq!(ipv6("1:2:3::5:6:7:8"), Some([1, 2, 3, 0, 5, 6, 7, 8]));
    assert_eq!(
        ipv6("fe80::1ff:fe23:4567:890a"),
        Some([0xfe80, 0, 0, 0, 0x1ff, 0xfe23, 0x4567, 0x890a])
    );
    for bad in vec![
        "", ":", ":::", "::::", "1::2::3", "::1::", "1:2:3:4:5:6:7:8::", "::1:2:3:4:5:6:7:8",
        "1:2:3:4::5:6:7:8", ":1::", "1::2:", "1:::2", "12345::", "::12345", "::g", "[::1]",
        "::1%eth0", "::1 ", "1::/64",
    ] {
        assert_eq!(ipv6(bad), None, "{:?}", bad);
    }
}

#[test]
fn ipv6_with_a_dotted_quad() {
    assert_eq!(ipv6("::1.2.3.4"), Some([0, 0, 0, 0, 0, 0, 0x0102, 0x0304]));
    assert_eq!(
        ipv6("::ffff:192.168.1.1"),
        Some([0, 0, 0, 0, 0, 0xffff, 0xc0a8, 0x0101])
    );
    assert_eq!(
        ipv6("1:2:3:4:5:6:1.2.3.4"),
        Some([1, 2, 3, 4, 5, 6, 0x0102, 0x0304])
    );
    assert_eq!(
        ipv6("1:2:3:4:5::1.2.3.4"),
        Some([1, 2, 3, 4, 5, 0, 0x0102, 0x0304])
    );
    assert_eq!(
        ipv6("1::255.255.255.255"),
        Some([1, 0, 0, 0, 0, 0, 0xffff, 0xffff])
    );
    for bad in vec![
        "1.2.3.4",
        "1.2.3.4::",
        "::1.2.3.4:5",
        "1:2:3:4:5:6:7:1.2.3.4",
        "1:2:3:4:5:1.2.3.4",
        "1:2:3:4:5:6::1.2.3.4",
        "::1.2.3",
        "::1.2.3.256",
        "::01.2.3.4",
        "::1.2.3.4.5",
        "1.2.3.4::1",
    ] {
        assert_eq!(ipv6(bad), None, "{:?}", bad);
    }
}

#[test]
fn longest_run_of_zeros() {
    assert_eq!(find_longest_zeros(&[1, 2, 3, 4, 5, 6, 7, 8]), (0, 0));
    assert_eq!(find_longest_zeros(&[0, 0, 0, 0, 0, 0, 0, 0]), (0, 8));
    assert_eq!(find_longest_zeros(&[1, 0, 3, 4, 5, 6, 7, 8]), (1, 1));
    assert_eq!(find_longest_zeros(&[1, 0, 0, 4, 0, 0, 0, 8]), (4, 3));
    assert_eq!(find_longest_zeros(&[1, 0, 0, 4, 5, 0, 0, 8]), (1, 2));
    assert_eq!(find_longest_zeros(&[0, 0, 1, 0, 0, 1, 0, 0]), (0, 2));
    assert_eq!(find_longest_zeros(&[1, 2, 3, 4, 5, 6, 0, 0]), (6, 2));
    assert_eq!(find_longest_zeros(&[1, 2, 3, 4, 5, 6, 7, 0]), (7, 1));
    assert_eq!(find_longest_zeros(&[0, 2, 3, 4, 5, 6, 7, 0]), (0, 1));
}

#[test]
fn ports() {
    assert_eq!(parse_port(&chars("0")), Some(0));
    assert_eq!(parse_port(&chars("80")), Some(80));
    assert_eq!(parse_port(&chars("65535")), Some(65535));
    assert_eq!(parse_port(&chars("65536")), None);
    assert_eq!(parse_port(&chars("0000000000000000000080")), Some(80));
    assert_eq!(parse_port(&chars("99999999999999999999999999")), None);
    assert_eq!(parse_port(&chars("")), None);
    assert_eq!(parse_port(&chars("8o")), None);
    assert_eq!(parse_port(&chars("ff")), None);
}

#[test]
fn brackets() {
    assert!(in_brackets(&chars("[]")));
    assert!(in_brackets(&chars("[x]")));
    assert!(in_brackets(&chars("[[]]")));
    assert!(!in_brackets(&chars("")));
    assert!(!in_brackets(&chars("[")));
    assert!(!in_brackets(&chars("]")));
    assert!(!in_brackets(&chars("[x")));
    assert!(!in_brackets(&chars("x]")));
    assert!(!in_brackets(&chars("][")));
    assert_eq!(between_brackets(&chars("[]")), &[] as &[char]);
    assert_eq!(between_brackets(&chars("[::1]")), &chars("::1")[..]);
}

#[test]
fn addresses_of_either_family() {
    assert_eq!(
        parse_ip(&chars("1.2.3.4")),
        Some(IpAddr::V4(Ipv4Addr::new(1, 2, 3, 4)))
    );
    assert_eq!(
        parse_ip(&chars("::1")),
        Some(IpAddr::V6(Ipv6Addr::new(0, 0, 0, 0, 0, 0, 0, 1)))
    );
    assert_eq!(
        parse_ip(&chars("::1.2.3.4")),
        Some(IpAddr::V6(Ipv6Addr::new(0, 0, 0, 0, 0, 0, 0x0102, 0x0304)))
    );
    assert_eq!(parse_ip(&chars("[::1]")), None);
    assert_eq!(parse_ip(&chars("1.2.3.4:80")), None);
    assert_eq!(parse_ip(&chars("")), None);
}

#[test]
fn hosts_of_socket_addresses() {
    assert_eq!(
        parse_host(&chars("1.2.3.4")),
        Some(IpAddr::V4(Ipv4Addr::new(1, 2, 3, 4)))
    );
    assert_eq!(
        parse_host(&chars("[::1]")),
        Some(IpAddr::V6(Ipv6Addr::new(0, 0, 0, 0, 0, 0, 0, 1)))
    );
    assert_eq!(parse_host(&chars("::1")), None);
    assert_eq!(parse_host(&chars("[1.2.3.4]")), None);
    assert_eq!(parse_host(&chars("[[::1]]")), None);
    assert_eq!(parse_host(&chars("[]")), None);
}

#[test]
fn socket_addresses() {
    assert_eq!(
        parse_socket_addr(&chars("1.2.3.4:80")),
        Some((IpAddr::V4(Ipv4Addr::new(1, 2, 3, 4)), 80))
    );
    assert_eq!(
        parse_socket_addr(&chars("[1::8]:65535")),
        Some((IpAddr::V6(Ipv6Addr::new(1, 0, 0, 0, 0, 0, 0, 8)), 65535))
    );
    for bad in vec![
        "1.2.3.4", "[::1]", "::1:80", "1.2.3.4:", "[::1]:", ":80", "[::1]80", "[::1]:80:",
        "1.2.3.4:80:90", "[::1]:65536", "[1.2.3.4]:80", "1.2.3.4 :80", "[::1%5]:80", "",
    ] {
        assert_eq!(parse_socket_addr(&chars(bad)), None, "{:?}", bad);
    }
}
