use ip_endpoint::{parse, IpVersion, Ipv4Addr, Ipv6Addr};

#[test]
fn simple_ipv4() {
    let result = parse("10.0.0.1");
    assert_eq!(
        result,
        Ok((IpVersion::V4(Ipv4Addr::new(10, 0, 0, 1)), None))
    );
}

#[test]
fn invalid_ipv4_number_too_high() {
    let result = parse("300.1.1.1");
    assert!(result.is_err());
}

#[test]
fn error_cases() {
    let test_cases = vec![
        "invalid",
        "[invalid]",
        "192.168.1.1:99999",
        "[2001:db8::1]:99999",
        "2001:db8::1:60000",
        "",
    ];
    for input in test_cases {
        let result = parse(input);
        assert!(result.is_err());
    }
}

#[test]
fn ok_cases() {
    let test_cases = vec![
        "192.168.1.1",
        "192.168.1.1:80",
        "127.0.0.1:8080",
        "0.0.0.0:443",
        "2001:db8::1",
        "[2001:db8::1]",
        "[2001:db8::1]:80",
        "[::1]:8080",
        "::1",
        "[2001:db8:85a3::8a2e:370:7334]:443",
        "::ffff:192.168.1.1",
        "[::ffff:192.168.1.1]:80",
    ];
    for input in test_cases {
        let result = parse(input);
        assert!(result.is_ok());
    }
}

#[test]
fn scoped_literal() {
    let test_cases = vec![
        "fe80::1ff:fe23:4567:890a%eth2",
        "fe80::1ff:fe23:4567:890a%3",
    ];
    for input in test_cases {
        let result = parse(input);
        assert!(result.is_ok());
    }
}

#[test]
fn with_protocol() {
    let test_cases = vec![
        "http://192.168.1.1:8080",
        "https://10.0.0.1:443",
        "ftp://192.168.1.1:21",
        "tcp://192.168.1.1:22",
        "udp://10.0.0.1:53",
        "ws://192.168.1.1:8080",
        "wss://[2001:db8::1]:443",
    ];
    for input in test_cases {
        let result = parse(input);
        assert!(result.is_ok());
    }
}

#[test]
fn network_socket_notation() {
    let test_cases = vec![
        "inet:192.168.1.1:8080",
        "tcp4:192.168.1.1:22",
        "tcp6:[::1]:22",
    ];
    for input in test_cases {
        let result = parse(input);
        assert!(result.is_ok());
    }
}

#[test]
fn with_spaces() {
    let test_cases = vec!["192.168.1.1 : 8080", "192 . 168 . 1 . 1", "[ ::1 ] : 22"];
    for input in test_cases {
        let result = parse(input);
        assert!(result.is_ok());
    }
}

#[test]
fn bracketed_ipv6_with_port() {
    assert_eq!(
        parse("[2001:db8::1]:80"),
        Ok((
            IpVersion::V6(Ipv6Addr::new(0x2001, 0xdb8, 0, 0, 0, 0, 0, 1)),
            Some(80)
        ))
    );
}
