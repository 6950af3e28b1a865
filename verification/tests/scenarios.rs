use ip_endpoint::{parse, IpAddr, IpVersion, Ipv4Addr, Ipv6Addr};

fn v4(a: u8, b: u8, c: u8, d: u8) -> IpVersion {
    IpVersion::V4(Ipv4Addr::new(a, b, c, d))
}

fn v6(g: [u16; 8]) -> IpVersion {
    IpVersion::V6(Ipv6Addr::from_segments(&g))
}

fn message(input: &str) -> String {
    match parse(input) {
        Ok(found) => panic!("{:?} was read as {:?}", input, found),
        Err(e) => e,
    }
}

#[test]
fn ipv4_with_port() {
    assert_eq!(parse("192.168.1.1:80"), Ok((v4(192, 168, 1, 1), Some(80))));
    assert_eq!(parse("127.0.0.1:8080"), Ok((v4(127, 0, 0, 1), Some(8080))));
    assert_eq!(parse("0.0.0.0:443"), Ok((v4(0, 0, 0, 0), Some(443))));
}

#[test]
fn ipv4_port_out_of_range() {
    assert!(parse("192.168.1.1:99999").is_err());
    assert!(parse("192.168.1.1:65536").is_err());
    assert_eq!(
        message("192.168.1.1:65536"),
        "Invalid IP address: 192.168.1.1:65536"
    );
}

#[test]
fn port_limits() {
    assert_eq!(parse("1.2.3.4:0"), Ok((v4(1, 2, 3, 4), Some(0))));
    assert_eq!(parse("1.2.3.4:65535"), Ok((v4(1, 2, 3, 4), Some(65535))));
    assert_eq!(parse("1.2.3.4:080"), Ok((v4(1, 2, 3, 4), Some(80))));
    assert_eq!(parse("1.2.3.4:00000000080"), Ok((v4(1, 2, 3, 4), Some(80))));
    assert!(parse("1.2.3.4:").is_err());
    assert!(parse("1.2.3.4:-1").is_err());
    assert!(parse("1.2.3.4:+80").is_err());
    assert!(parse("1.2.3.4:8a").is_err());
    assert!(parse("1.2.3.4:4294967376").is_err());
    assert!(parse("1.2.3.4:18446744073709551696").is_err());
}

#[test]
fn bracketed_ipv6_with_port_exact() {
    assert_eq!(
        parse("[2001:db8::1]:80"),
        Ok((v6([0x2001, 0xdb8, 0, 0, 0, 0, 0, 1]), Some(80)))
    );
    assert_eq!(
        parse("[::1]:8080"),
        Ok((v6([0, 0, 0, 0, 0, 0, 0, 1]), Some(8080)))
    );
    assert_eq!(
        parse("[2001:db8:85a3::8a2e:370:7334]:443"),
        Ok((
            v6([0x2001, 0xdb8, 0x85a3, 0, 0, 0x8a2e, 0x370, 0x7334]),
            Some(443)
        ))
    );
    assert_eq!(
        parse("[::ffff:192.168.1.1]:80"),
        Ok((v6([0, 0, 0, 0, 0, 0xffff, 0xc0a8, 0x0101]), Some(80)))
    );
    assert!(parse("[2001:db8::1]:99999").is_err());
}

#[test]
fn unbracketed_ipv6_cannot_carry_a_port() {
    assert!(parse("2001:db8::1:60000").is_err());
    assert!(parse("::1:2:3:4:5:6:7:80").is_err());
}

#[test]
fn bracketed_ipv6_without_port() {
    assert_eq!(parse("[::1]"), Ok((v6([0, 0, 0, 0, 0, 0, 0, 1]), None)));
    assert_eq!(
        parse("[2001:db8::1]"),
        Ok((v6([0x2001, 0xdb8, 0, 0, 0, 0, 0, 1]), None))
    );
}

#[test]
fn bracketed_content_that_is_no_address() {
    assert_eq!(message("[invalid]"), "Invalid IPv6 address in brackets: invalid");
    assert_eq!(message("[]"), "Invalid IPv6 address in brackets: ");
    assert_eq!(message("[1.2.3.4]"), "Invalid IPv6 address in brackets: 1.2.3.4");
    assert_eq!(message("[::1%eth0]"), "Invalid IPv6 address in brackets: ::1%eth0");
    assert_eq!(message(" [ x y ] "), "Invalid IPv6 address in brackets: xy");
}

#[test]
fn text_that_is_no_address() {
    assert_eq!(message(""), "Invalid IP address: ");
    assert_eq!(message("invalid"), "Invalid IP address: invalid");
    assert_eq!(message("   "), "Invalid IP address: ");
    assert_eq!(message("[::1"), "Invalid IP address: [::1");
    assert_eq!(message("::1]"), "Invalid IP address: ::1]");
    assert_eq!(message("300.1.1.1"), "Invalid IP address: 300.1.1.1");
    assert_eq!(message("example.com"), "Invalid IP address: example.com");
    assert_eq!(message("example.com:80"), "Invalid IP address: example.com:80");
}

#[test]
fn message_shows_the_text_after_stripping() {
    assert_eq!(message("http://bad host"), "Invalid IP address: badhost");
    assert_eq!(message("tcp4:1.2.3:80"), "Invalid IP address: 1.2.3:80");
    assert_eq!(message("http://"), "Invalid IP address: ");
    assert_eq!(message("tcp:"), "Invalid IP address: tcp:");
    assert_eq!(message("tcp:80"), "Invalid IP address: tcp:80");
}

#[test]
fn scoped_literal_drops_the_zone() {
    let want = v6([0xfe80, 0, 0, 0, 0x1ff, 0xfe23, 0x4567, 0x890a]);
    assert_eq!(parse("fe80::1ff:fe23:4567:890a%eth2"), Ok((want, None)));
    assert_eq!(parse("fe80::1ff:fe23:4567:890a%3"), Ok((want, None)));
    assert_eq!(parse("fe80::1ff:fe23:4567:890a%"), Ok((want, None)));
    assert_eq!(parse("fe80::1%a%b"), Ok((v6([0xfe80, 0, 0, 0, 0, 0, 0, 1]), None)));
}

#[test]
fn scoped_text_that_is_no_address() {
    assert_eq!(message("nothing%eth0"), "Invalid IP address: nothing%eth0");
    assert_eq!(message("1.2.3.4%eth0"), "Invalid IP address: 1.2.3.4%eth0");
    assert_eq!(message("%"), "Invalid IP address: %");
}

#[test]
fn a_tag_is_not_taken_off_a_scoped_address() {
    assert_eq!(
        message("tcp6:fe80::1%eth0"),
        "Invalid IP address: tcp6:fe80::1%eth0"
    );
}

#[test]
fn mapped_ipv4_is_ipv6() {
    assert_eq!(
        parse("::ffff:192.168.1.1"),
        Ok((v6([0, 0, 0, 0, 0, 0xffff, 0xc0a8, 0x0101]), None))
    );
}

#[test]
fn scheme_is_taken_off() {
    assert_eq!(
        parse("http://192.168.1.1:8080"),
        Ok((v4(192, 168, 1, 1), Some(8080)))
    );
    assert_eq!(parse("https://10.0.0.1:443"), Ok((v4(10, 0, 0, 1), Some(443))));
    assert_eq!(
        parse("wss://[2001:db8::1]:443"),
        Ok((v6([0x2001, 0xdb8, 0, 0, 0, 0, 0, 1]), Some(443)))
    );
    assert_eq!(parse("://10.0.0.1"), Ok((v4(10, 0, 0, 1), None)));
    assert_eq!(parse("any thing at all://10.0.0.1"), Ok((v4(10, 0, 0, 1), None)));
    assert_eq!(parse("a:/://10.0.0.1"), Ok((v4(10, 0, 0, 1), None)));
}

#[test]
fn scheme_changes_nothing() {
    let endpoints = vec![
        "10.0.0.1",
        "10.0.0.1:80",
        "[::1]",
        "[::1]:22",
        "::1",
        "fe80::1%eth0",
        "nonsense",
        "",
    ];
    let schemes = vec!["http", "https", "x", "", "a.b+c", "tcp:", "q/"];
    for e in &endpoints {
        for s in &schemes {
            let whole = format!("{}://{}", s, e);
            assert_eq!(parse(&whole), parse(e), "{}", whole);
        }
    }
}

#[test]
fn only_the_first_scheme_mark_counts() {
    assert_eq!(message("a://b://10.0.0.1"), "Invalid IP address: //10.0.0.1");
}

#[test]
fn tag_is_taken_off() {
    assert_eq!(
        parse("inet:192.168.1.1:8080"),
        Ok((v4(192, 168, 1, 1), Some(8080)))
    );
    assert_eq!(parse("tcp4:192.168.1.1:22"), Ok((v4(192, 168, 1, 1), Some(22))));
    assert_eq!(
        parse("tcp6:[::1]:22"),
        Ok((v6([0, 0, 0, 0, 0, 0, 0, 1]), Some(22)))
    );
    assert_eq!(parse("in_addr_t:10.0.0.1"), Ok((v4(10, 0, 0, 1), None)));
    assert_eq!(parse("_:10.0.0.1"), Ok((v4(10, 0, 0, 1), None)));
    assert_eq!(parse("tcp6:[::1]"), Ok((v6([0, 0, 0, 0, 0, 0, 0, 1]), None)));
    assert_eq!(parse("tcp6:::1"), Ok((v6([0, 0, 0, 0, 0, 0, 0, 1]), None)));
}

#[test]
fn tag_changes_nothing() {
    let endpoints = vec!["10.0.0.1", "10.0.0.1:80", "[::1]", "[::1]:22", "::1", "::ffff:1.2.3.4"];
    let tags = vec!["tcp", "tcp4", "inet", "in_addr_t", "_", "9", "\u{e9}t\u{e9}", "\u{0663}"];
    for e in &endpoints {
        for t in &tags {
            let whole = format!("{}:{}", t, e);
            assert_eq!(parse(&whole), parse(e), "{}", whole);
            assert!(parse(e).is_ok());
        }
    }
}

#[test]
fn tag_of_other_characters_stays() {
    assert_eq!(message("a-b:10.0.0.1"), "Invalid IP address: a-b:10.0.0.1");
    assert_eq!(message("\u{20ac}:10.0.0.1"), "Invalid IP address: \u{20ac}:10.0.0.1");
    assert_eq!(message(":10.0.0.1"), "Invalid IP address: :10.0.0.1");
}

#[test]
fn tag_and_scheme_together() {
    assert_eq!(parse("http://tcp4:10.0.0.1:80"), Ok((v4(10, 0, 0, 1), Some(80))));
    assert_eq!(parse("tcp4:http://10.0.0.1:80"), Ok((v4(10, 0, 0, 1), Some(80))));
}

#[test]
fn a_leading_hexadecimal_group_is_taken_for_a_tag() {
    assert_eq!(
        parse("2001:db8::1"),
        Ok((v6([0xdb8, 0, 0, 0, 0, 0, 0, 1]), None))
    );
    assert_eq!(message("1:2:3:4:5:6:7:8"), "Invalid IP address: 2:3:4:5:6:7:8");
    assert_eq!(message("1::"), "Invalid IP address: :");
}

#[test]
fn white_space_is_ignored() {
    assert_eq!(
        parse("192.168.1.1 : 8080"),
        Ok((v4(192, 168, 1, 1), Some(8080)))
    );
    assert_eq!(parse("192 . 168 . 1 . 1"), Ok((v4(192, 168, 1, 1), None)));
    assert_eq!(
        parse("[ ::1 ] : 22"),
        Ok((v6([0, 0, 0, 0, 0, 0, 0, 1]), Some(22)))
    );
    assert_eq!(parse("1 0 . 0 . 0 . 1"), Ok((v4(10, 0, 0, 1), None)));
    assert_eq!(parse("\t10.0.0.1\r\n"), Ok((v4(10, 0, 0, 1), None)));
    assert_eq!(
        parse("\u{a0}10.\u{2003}0.0\u{3000}.1\u{85}:\u{1680}80\u{2028}"),
        Ok((v4(10, 0, 0, 1), Some(80)))
    );
    assert_eq!(parse("h t t p : / / 10.0.0.1"), Ok((v4(10, 0, 0, 1), None)));
    assert_eq!(parse("t c p : 10.0.0.1"), Ok((v4(10, 0, 0, 1), None)));
}

#[test]
fn white_space_changes_nothing() {
    let inputs = vec![
        "10.0.0.1",
        "10.0.0.1:80",
        "[::1]:22",
        "http://[2001:db8::1]:443",
        "tcp4:1.2.3.4",
        "fe80::1%eth0",
        "bad",
    ];
    let spaces = vec![" ", "\t", "\n", "\u{a0}", "\u{2009}", " \t \u{3000}"];
    for input in &inputs {
        let chars: Vec<char> = input.chars().collect();
        for at in 0..=chars.len() {
            for space in &spaces {
                let mut spaced = String::new();
                for c in &chars[..at] {
                    spaced.push(*c);
                }
                spaced.push_str(space);
                for c in &chars[at..] {
                    spaced.push(*c);
                }
                assert_eq!(parse(&spaced), parse(input), "{:?}", spaced);
            }
        }
    }
}

#[test]
fn characters_that_are_not_white_space_stay() {
    assert!(parse("10.0.0.1\u{200b}").is_err());
    assert!(parse("10.0.0.1\u{180e}").is_err());
    assert!(parse("10.0.0.1\u{feff}").is_err());
}

#[test]
fn every_dotted_quad_is_read_exactly() {
    let octets: Vec<u8> = vec![0, 1, 9, 10, 19, 99, 100, 101, 199, 200, 249, 250, 255];
    for a in &octets {
        for b in &octets {
            let text = format!("{}.{}.{}.{}", a, b, 255 - *a, 255 - *b);
            assert_eq!(
                parse(&text),
                Ok((v4(*a, *b, 255 - *a, 255 - *b), None)),
                "{}",
                text
            );
        }
    }
}

#[test]
fn dotted_quads_with_an_octet_too_high_fail() {
    for text in vec![
        "256.1.1.1",
        "1.256.1.1",
        "1.1.256.1",
        "1.1.1.256",
        "300.1.1.1",
        "999.999.999.999",
        "1.1.1.1000",
    ] {
        assert_eq!(parse(text), Err(format!("Invalid IP address: {}", text)));
    }
}

#[test]
fn dotted_quads_with_other_than_four_parts_fail() {
    for text in vec![
        "1", "1.2", "1.2.3", "1.2.3.4.5", "1.2.3.4.5.6", ".", "...", "....", "1.2.3.", ".1.2.3",
        "1..3.4", "1.2.3.4.",
    ] {
        assert_eq!(parse(text), Err(format!("Invalid IP address: {}", text)));
    }
}

#[test]
fn octets_with_zeros_in_front_fail() {
    assert!(parse("01.2.3.4").is_err());
    assert!(parse("1.2.3.04").is_err());
    assert!(parse("1.2.3.00").is_err());
    assert!(parse("000.0.0.0").is_err());
    assert_eq!(parse("0.0.0.0"), Ok((v4(0, 0, 0, 0), None)));
}

#[test]
fn family_tag_round_trip() {
    let a = IpAddr::V4(Ipv4Addr::new(10, 0, 0, 1));
    let b = IpAddr::V6(Ipv6Addr::new(0x2001, 0xdb8, 0, 0, 0, 0, 0, 1));
    assert_eq!(IpVersion::from(a), v4(10, 0, 0, 1));
    assert_eq!(IpVersion::from(b), v6([0x2001, 0xdb8, 0, 0, 0, 0, 0, 1]));
    assert_eq!(IpAddr::from(IpVersion::from(a)), a);
    assert_eq!(IpAddr::from(IpVersion::from(b)), b);
    assert_eq!(IpVersion::from(IpAddr::from(v4(1, 2, 3, 4))), v4(1, 2, 3, 4));
    let parsed = parse("[::1]:80").unwrap().0;
    assert_eq!(IpVersion::from(IpAddr::from(parsed)), parsed);
}
