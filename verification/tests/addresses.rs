use tokio_proxy_protocol::addr::port::{parse_port, PortError};
use tokio_proxy_protocol::addr::v4::{parse_ipv4, push_ipv4};
use tokio_proxy_protocol::addr::v6::{parse_ipv6, push_ipv6};
use tokio_proxy_protocol::addr::{AddrParseError, IpAddr, Ipv4Addr, Ipv6Addr, SocketAddr};
use tokio_proxy_protocol::text::split_fields;

fn text4(octets: [u8; 4]) -> String {
    let mut out = Vec::new();
    push_ipv4(&mut out, &Ipv4Addr { octets });
    String::from_utf8(out).unwrap()
}

fn text6(segments: [u16; 8]) -> String {
    let mut out = Vec::new();
    push_ipv6(&mut out, &Ipv6Addr { segments });
    String::from_utf8(out).unwrap()
}

fn v6(text: &str) -> Option<[u16; 8]> {
    parse_ipv6(text.as_bytes()).map(|ip| ip.segments)
}

#[test]
fn ipv4_texts() {
    assert_eq!("0.0.0.0", text4([0, 0, 0, 0]));
    assert_eq!("255.254.100.9", text4([255, 254, 100, 9]));
    assert_eq!(Some(Ipv4Addr { octets: [1, 20, 255, 0] }), parse_ipv4(b"1.20.255.0"));
    for text in vec![
        "", "1", "1.2.3", "1.2.3.4.5", "1.2.3.", ".1.2.3", "1..2.3", "256.0.0.0", "01.2.3.4", "00.0.0.0",
        "1.2.3.0004", "a.b.c.d", "1.2.3.4 ", "-1.2.3.4", "+1.2.3.4", "1.2.3.0x4",
    ] {
        assert_eq!(None, parse_ipv4(text.as_bytes()), "{}", text);
    }
}

#[test]
fn ipv6_texts() {
    assert_eq!("::", text6([0; 8]));
    assert_eq!("::1", text6([0, 0, 0, 0, 0, 0, 0, 1]));
    assert_eq!("1::", text6([1, 0, 0, 0, 0, 0, 0, 0]));
    assert_eq!("1:2:3:4:5:6:7:8", text6([1, 2, 3, 4, 5, 6, 7, 8]));
    assert_eq!("1:0:3:0:5:0:7:0", text6([1, 0, 3, 0, 5, 0, 7, 0]));
    assert_eq!("2001:db8::1:0:0:1", text6([0x2001, 0xdb8, 0, 0, 1, 0, 0, 1]));
    assert_eq!("2001:0:0:1::1", text6([0x2001, 0, 0, 1, 0, 0, 0, 1]));
    assert_eq!("::ffff:1.2.3.4", text6([0, 0, 0, 0, 0, 0xffff, 0x102, 0x304]));
    assert_eq!("::102:304", text6([0, 0, 0, 0, 0, 0, 0x102, 0x304]));
    assert_eq!("::fffe:102:304", text6([0, 0, 0, 0, 0, 0xfffe, 0x102, 0x304]));
    assert_eq!("abcd:ef01:10:a00:ffff:f:0:1", text6([0xabcd, 0xef01, 0x10, 0xa00, 0xffff, 0xf, 0, 1]));
}

#[test]
fn ipv6_readings() {
    assert_eq!(Some([0; 8]), v6("::"));
    assert_eq!(Some([0, 0, 0, 0, 0, 0, 0, 1]), v6("0:0:0:0:0:0:0:1"));
    assert_eq!(Some([0xabcd, 0, 0, 0, 0, 0, 0, 1]), v6("AbCd::0001"));
    assert_eq!(Some([1, 2, 3, 4, 5, 6, 7, 0]), v6("1:2:3:4:5:6:7::"));
    assert_eq!(Some([0, 2, 3, 4, 5, 6, 7, 8]), v6("::2:3:4:5:6:7:8"));
    assert_eq!(Some([1, 2, 3, 4, 5, 6, 0x708, 0x90a]), v6("1:2:3:4:5:6:7.8.9.10"));
    assert_eq!(Some([1, 0, 0, 0, 0, 0, 0x708, 0x90a]), v6("1::7.8.9.10"));
    assert_eq!(Some([0, 0, 0, 0, 0, 0xffff, 0x102, 0x304]), v6("::ffff:1.2.3.4"));
    assert_eq!(Some([1, 2, 3, 4, 5, 0, 0x102, 0x304]), v6("1:2:3:4:5::1.2.3.4"));
    for text in vec![
        "", ":", ":::", "1:2:3:4:5:6:7", "1:2:3:4:5:6:7:8:9", "1:2:3:4:5:6:7:8::", "::1:2:3:4:5:6:7:8",
        "1::2::3", "12345::", "g::", "1:2:3:4:5:6:7:", ":1:2:3:4:5:6:7", "1.2.3.4", "1.2.3.4::",
        "1:2:3:4:5:6:7:1.2.3.4", "1:2:3:4:5:6::1.2.3.4", "::1.2.3.4:5", "::1.2.3", "::01.2.3.4", " ::1", "::1%eth0",
    ] {
        assert_eq!(None, v6(text), "{}", text);
    }
}

#[test]
fn texts_are_read_back() {
    // every choice of zero and non-zero groups
    for mask in 0..256u32 {
        let mut segments = [0u16; 8];
        for i in 0..8 {
            if mask & (1 << i) != 0 {
                segments[i] = (0x1u16 << (2 * i)) | 1;
            }
        }
        assert_eq!(Some(segments), v6(&text6(segments)));
    }
    for n in 0..=255u8 {
        let octets = [n, n / 2, 255 - n, 7];
        assert_eq!(Some(Ipv4Addr { octets }), parse_ipv4(text4(octets).as_bytes()));
    }
}

#[test]
fn ports() {
    assert_eq!(Ok(0), parse_port(b"0"));
    assert_eq!(Ok(65535), parse_port(b"65535"));
    assert_eq!(Ok(80), parse_port(b"+0000000080"));
    assert_eq!(Err(PortError::Empty), parse_port(b""));
    assert_eq!(Err(PortError::InvalidDigit), parse_port(b"+"));
    assert_eq!(Err(PortError::InvalidDigit), parse_port(b"-"));
    assert_eq!(Err(PortError::InvalidDigit), parse_port(b"-1"));
    assert_eq!(Err(PortError::InvalidDigit), parse_port(b"++1"));
    assert_eq!(Err(PortError::InvalidDigit), parse_port(b"1 "));
    assert_eq!(Err(PortError::InvalidDigit), parse_port(b"8a"));
    assert_eq!(Err(PortError::TooLarge), parse_port(b"65536"));
    assert_eq!(Err(PortError::TooLarge), parse_port(b"99999x"));
}

#[test]
fn ports_as_the_standard_library_reads_them() {
    for text in vec![
        "", "0", "00", "1", "+1", "+", "-", "-0", "65535", "65536", "065535", "99999", "9999x", "99999x", "6554x", "x99999", "1x",
        "12345678901234567890", "\u{17e}",
    ] {
        let expected = text.parse::<u16>();
        let got = parse_port(text.as_bytes());
        assert_eq!(expected.as_ref().ok(), got.as_ref().ok(), "{}", text);
        if let (Err(expected), Err(got)) = (expected, got) {
            assert_eq!(expected.to_string(), got.description(), "{}", text);
        }
    }
}

#[test]
fn errors_in_words() {
    assert_eq!("invalid IPv4 address syntax", AddrParseError::Ipv4.description());
    assert_eq!("invalid IPv6 address syntax", AddrParseError::Ipv6.description());
    assert_eq!("cannot parse integer from empty string", PortError::Empty.description());
    assert_eq!("invalid digit found in string", PortError::InvalidDigit.description());
    assert_eq!("number too large to fit in target type", PortError::TooLarge.description());
}

#[test]
fn socket_addresses() {
    let addr = SocketAddr::new(IpAddr::V4(Ipv4Addr { octets: [1, 2, 3, 4] }), 5);
    assert_eq!(5, addr.port());
    let mut out = b"at ".to_vec();
    addr.push_ip(&mut out);
    assert_eq!(b"at 1.2.3.4".to_vec(), out);
    match SocketAddr::new(IpAddr::V6(Ipv6Addr { segments: [1; 8] }), 6) {
        SocketAddr::V6(a) => {
            assert_eq!([1; 8], a.ip.segments);
            assert_eq!((6, 0, 0), (a.port, a.flowinfo, a.scope_id));
        }
        other => panic!("{:?}", other),
    }
}

#[test]
fn field_splitting() {
    let parts = split_fields(b"a  bc ", b' ');
    assert_eq!(vec![&b"a"[..], &b""[..], &b"bc"[..], &b""[..]], parts);
    assert_eq!(vec![&b""[..]], split_fields(b"", b' '));
}
