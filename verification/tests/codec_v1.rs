use bytes::{Buf, BufMut, BytesMut};
use std::convert::TryFrom;
use tokio_proxy_protocol::addr::port::PortError;
use tokio_proxy_protocol::addr::{
    AddrParseError, Ipv4Addr, Ipv6Addr, SocketAddr, SocketAddrV4, SocketAddrV6,
};
use tokio_proxy_protocol::codec::{required_header, ProxyInfo, ProxyProtocolCodecV1, SocketType};
use tokio_proxy_protocol::error::Error;
use tokio_util::codec::Decoder;

fn v4(octets: [u8; 4], port: u16) -> SocketAddr {
    SocketAddr::V4(SocketAddrV4 { ip: Ipv4Addr { octets }, port })
}

fn v6(segments: [u16; 8], port: u16) -> SocketAddr {
    SocketAddr::V6(SocketAddrV6 { ip: Ipv6Addr { segments }, port, flowinfo: 0, scope_id: 0 })
}

fn decode(bytes: &[u8]) -> (Result<Option<ProxyInfo>, Error>, Vec<u8>) {
    let mut buf = BytesMut::from(bytes);
    let answer = ProxyProtocolCodecV1::new().decode(&mut buf);
    (answer, buf.to_vec())
}

fn encode(info: ProxyInfo) -> Vec<u8> {
    let mut buf = BytesMut::new();
    ProxyProtocolCodecV1::new().encode(info, &mut buf).unwrap();
    buf.to_vec()
}

fn known(socket_type: SocketType, source: SocketAddr, destination: SocketAddr) -> ProxyInfo {
    ProxyInfo {
        socket_type,
        original_source: Some(source),
        original_destination: Some(destination),
    }
}

fn unknown() -> ProxyInfo {
    ProxyInfo { socket_type: SocketType::Unknown, original_source: None, original_destination: None }
}

fn proxy_message(answer: Result<Option<ProxyInfo>, Error>) -> String {
    match answer {
        Err(Error::Proxy(m)) => m,
        other => panic!("not a protocol error: {:?}", other),
    }
}

#[test]
fn test_header_v1_in_small_pieces() {
    let data = [
        "PROX",
        "Y TCP4",
        " 192.168",
        ".0.1 ",
        "19",
        "2.168.0.1",
        "1 563",
        "24 443\r",
        "\nUsak",
    ];
    let data: Vec<_> = data.iter().map(|s| s.as_bytes()).collect();
    let mut d = ProxyProtocolCodecV1::new();
    let mut buf = BytesMut::new();
    for &piece in &data[..data.len() - 1] {
        buf.put(piece);
        let r = d.decode(&mut buf).unwrap();
        assert!(r.is_none())
    }
    // put there last piece

    buf.put(*data.last().unwrap());
    let r = d
        .decode(&mut buf)
        .expect("Buffer should should be ok")
        .expect("and contain full header");
    assert_eq!(SocketType::Ipv4, r.socket_type);
    // 192.168.0.1:56324
    assert_eq!(v4([192, 168, 0, 1], 56324), r.original_source.unwrap());
    // 192.168.0.11:443
    assert_eq!(v4([192, 168, 0, 11], 443), r.original_destination.unwrap());
    assert_eq!(b"Usak", &buf[..]);
}

#[test]
fn test_long_v1_header_without_eol() {
    let data = (b'a'..b'z').cycle().take(600).collect::<Vec<_>>();
    let mut buf = BytesMut::from(&data[..]);
    let mut d = ProxyProtocolCodecV1::new();
    let r = d.decode(&mut buf);
    assert!(r.is_err());
    if let Err(Error::Proxy(m)) = r {
        assert!(m.contains("does not contain EOL"), "error is  about missing EOL")
    } else {
        panic!("Wrong error")
    }
}

#[test]
fn test_v1_header_creation() {
    let header_bytes = "PROXY TCP4 192.168.0.1 192.168.0.11 56324 443\r\n".as_bytes();
    let header_info = ProxyInfo {
        socket_type: SocketType::Ipv4,
        // 192.168.0.1:56324
        original_source: Some(v4([192, 168, 0, 1], 56324)),
        // 192.168.0.11:443
        original_destination: Some(v4([192, 168, 0, 11], 443)),
    };

    let mut buf = BytesMut::new();
    let mut e = ProxyProtocolCodecV1::new();
    e.encode(header_info, &mut buf).unwrap();

    assert_eq!(header_bytes, &buf[..]);
}

#[test]
fn test_v1_header_creation_for_ipv6() {
    let header_bytes = b"PROXY TCP6 ffff:ffff:ffff:ffff:ffff:ffff:ffff:ffff aaaa:aaaa:aaaa:aaaa:aaaa:aaaa:aaaa:aaaa 65535 65534\r\n";
    let header_info = ProxyInfo {
        socket_type: SocketType::Ipv6,
        // [ffff:ffff:ffff:ffff:ffff:ffff:ffff:ffff]:65535
        original_source: Some(v6([0xffff; 8], 65535)),
        // [aaaa:aaaa:aaaa:aaaa:aaaa:aaaa:aaaa:aaaa]:65534
        original_destination: Some(v6([0xaaaa; 8], 65534)),
    };

    let mut buf = BytesMut::new();
    let mut e = ProxyProtocolCodecV1::new();
    e.encode(header_info, &mut buf).unwrap();

    assert_eq!(&header_bytes[..], &buf[..]);
}

#[test]
fn test_v1_header_decode_tcp6() {
    let header_bytes = b"PROXY TCP6 ffff:ffff:ffff:ffff:ffff:ffff:ffff:ffff aaaa:aaaa:aaaa:aaaa:aaaa:aaaa:aaaa:aaaa 65535 65534\r\nHello";
    let mut d = ProxyProtocolCodecV1::new();
    let mut buf = BytesMut::new();
    buf.put(&header_bytes[..]);
    let header_info = d
        .decode(&mut buf)
        .expect("parsed_ok")
        .expect("contains full header");
    // [ffff:ffff:ffff:ffff:ffff:ffff:ffff:ffff]:65535
    let original_source: Option<SocketAddr> = Some(v6([0xffff; 8], 65535));
    // [aaaa:aaaa:aaaa:aaaa:aaaa:aaaa:aaaa:aaaa]:65534
    let original_destination: Option<SocketAddr> = Some(v6([0xaaaa; 8], 65534));
    assert_eq!(SocketType::Ipv6, header_info.socket_type);
    assert_eq!(original_source, header_info.original_source);
    assert_eq!(original_destination, header_info.original_destination);
}

/// The codec as a decoder of frames, and its errors beside those of the transport.
struct Frames(ProxyProtocolCodecV1);

#[derive(Debug)]
enum FrameError {
    Io(std::io::Error),
    Header(Error),
}

impl From<std::io::Error> for FrameError {
    fn from(e: std::io::Error) -> Self {
        FrameError::Io(e)
    }
}

impl Decoder for Frames {
    type Item = ProxyInfo;
    type Error = FrameError;

    fn decode(&mut self, buf: &mut BytesMut) -> Result<Option<ProxyInfo>, FrameError> {
        assert!(self.0.resumes_in(buf));
        self.0.decode(buf).map_err(FrameError::Header)
    }
}

fn accept(bytes: &[u8]) -> (Result<ProxyInfo, FrameError>, BytesMut) {
    let mut frames = Frames(ProxyProtocolCodecV1::new());
    let mut buf = BytesMut::from(bytes);
    let next = match frames.decode(&mut buf) {
        Ok(None) => frames.decode_eof(&mut buf),
        other => other,
    };
    let info = next.and_then(|next| required_header(next).map_err(FrameError::Header));
    (info, buf)
}

#[test]
fn test_accept_v1() {
    let (info, read_buf) =
        accept("PROXY TCP4 192.168.0.1 192.168.0.11 56324 443\r\nHello".as_bytes());
    let info = info.expect("Error parsing header");

    assert_eq!(SocketType::Ipv4, info.socket_type);
    // 192.168.0.1:56324
    assert_eq!(info.original_source, Some(v4([192, 168, 0, 1], 56324)));
    // 192.168.0.11:443
    assert_eq!(info.original_destination, Some(v4([192, 168, 0, 11], 443)));

    assert_eq!(b"Hello", &read_buf[..])
}

#[test]
fn test_accept_v1_incomplete_header() {
    let (res, _) = accept("PROXY TCP4 192.168.0.1 192.168.".as_bytes());

    assert!(res.is_err());

    if let Err(FrameError::Io(e)) = res {
        println!("ERROR: {:?}", e);
    } else {
        panic!("Invalid error")
    }
}

#[test]
fn test_accept_v1_malformed() {
    let (res, _) = accept("PROXY TCP4 192.168.0.1 192.168.\r\nHello".as_bytes());

    assert!(res.is_err());

    if let Err(FrameError::Header(Error::Proxy(e))) = res {
        println!("ERROR: {}", e);
    } else {
        panic!("Invalid error")
    }
}

#[test]
fn missing_header() {
    match required_header(None) {
        Err(Error::Proxy(m)) => assert_eq!("Proxy header is missing", m),
        other => panic!("{:?}", other),
    }
    assert_eq!(unknown(), required_header(Some(unknown())).unwrap());
    let (res, _) = accept(b"");
    assert!(matches!(res, Err(FrameError::Header(Error::Proxy(_)))));
}

#[test]
fn unknown_header() {
    assert_eq!(b"PROXY UNKNOWN\r\n".to_vec(), encode(unknown()));
    let (answer, rest) = decode(b"PROXY UNKNOWN\r\nrest");
    assert_eq!(Some(unknown()), answer.unwrap());
    assert_eq!(b"rest".to_vec(), rest);
    // whatever follows the word is not looked at
    let (answer, rest) = decode(b"PROXY UNKNOWN ffff::1 what ever\r\nrest");
    assert_eq!(Some(unknown()), answer.unwrap());
    assert_eq!(b"rest".to_vec(), rest);
}

#[test]
fn written_headers_are_read_back() {
    let infos = vec![
        unknown(),
        known(SocketType::Ipv4, v4([0, 0, 0, 0], 0), v4([255, 255, 255, 255], 65535)),
        known(SocketType::Ipv4, v4([10, 100, 9, 99], 10), v4([1, 20, 200, 3], 9999)),
        known(SocketType::Ipv6, v6([0; 8], 1), v6([0, 0, 0, 0, 0, 0, 0, 1], 2)),
        known(
            SocketType::Ipv6,
            v6([0x2001, 0xdb8, 0, 0, 1, 0, 0, 1], 443),
            v6([0, 0, 0, 0, 0, 0xffff, 0x0102, 0x0304], 80),
        ),
        known(
            SocketType::Ipv6,
            v6([1, 0, 0, 0, 0, 0, 0, 0], 443),
            v6([0xfe80, 0, 1, 0, 2, 0, 3, 0], 80),
        ),
    ];
    for info in infos {
        let mut bytes = encode(info.clone());
        assert!(bytes.len() >= 15 && bytes.len() <= 104);
        bytes.extend_from_slice(b"\r\ndata");
        let (answer, rest) = decode(&bytes);
        assert_eq!(Some(info), answer.unwrap());
        assert_eq!(b"\r\ndata".to_vec(), rest);
    }
}

#[test]
fn pieces_of_every_size() {
    let info = known(SocketType::Ipv6, v6([1, 2, 3, 0, 0, 0, 7, 8], 1234), v6([0; 8], 5));
    let mut bytes = encode(info.clone());
    bytes.extend_from_slice(b"tail");
    for size in 1..bytes.len() {
        let mut codec = ProxyProtocolCodecV1::default();
        let mut buf = BytesMut::new();
        let mut found = None;
        for piece in bytes.chunks(size) {
            buf.extend_from_slice(piece);
            if found.is_none() {
                assert!(codec.resumes_in(&buf));
                found = codec.decode(&mut buf).unwrap();
            }
        }
        assert_eq!(Some(info.clone()), found);
        assert_eq!(b"tail", &buf[..]);
    }
}

#[test]
fn search_goes_on_where_it_stopped() {
    let mut codec = ProxyProtocolCodecV1::new();
    let mut buf = BytesMut::from(&b"PROXY UNKNOWN\r"[..]);
    assert_eq!(None, codec.decode(&mut buf).unwrap());
    assert!(codec.resumes_in(&buf));
    buf.advance(13);
    assert!(!codec.resumes_in(&buf));
}

#[test]
fn length_limit() {
    let short = vec![b'x'; 535];
    let (answer, rest) = decode(&short);
    assert_eq!(None, answer.unwrap());
    assert_eq!(short, rest);
    let long = vec![b'x'; 536];
    let (answer, rest) = decode(&long);
    assert_eq!("Proxy header v1 does not contain EOL", proxy_message(answer));
    assert_eq!(long, rest);
    // an end that is there counts, however late it comes
    let mut late = b"PROXY UNKNOWN ".to_vec();
    late.extend_from_slice(&long);
    late.extend_from_slice(b"\r\n");
    let (answer, rest) = decode(&late);
    assert_eq!(Some(unknown()), answer.unwrap());
    assert!(rest.is_empty());
}

#[test]
fn faults_of_a_line() {
    let (answer, rest) = decode(b"proxy UNKNOWN\r\n");
    assert_eq!("Protocol tag is wrong", proxy_message(answer));
    assert_eq!(b"proxy UNKNOWN\r\n".to_vec(), rest);

    let (answer, rest) = decode(b"\r\n");
    assert_eq!("Protocol tag is wrong", proxy_message(answer));
    assert_eq!(b"\r\n".to_vec(), rest);

    let (answer, rest) = decode(b"PROXY\r\n");
    assert_eq!("At least two parts are needed", proxy_message(answer));
    assert_eq!(b"PROXY\r\n".to_vec(), rest);

    let (answer, rest) = decode("PROXY UDP4 \u{17e}\r\nx".as_bytes());
    assert_eq!("Invalid proxy header v1: PROXY UDP4 \u{17e}", proxy_message(answer));
    assert_eq!(b"x".to_vec(), rest);

    let (answer, rest) = decode(b"PROXY TCP4 1.2.3.4 1.2.3.4 1\r\nx");
    assert_eq!(
        "Invalid proxy header v1: PROXY TCP4 1.2.3.4 1.2.3.4 1",
        proxy_message(answer)
    );
    assert_eq!(b"x".to_vec(), rest);
}

#[test]
fn faults_of_encoding() {
    let (answer, rest) = decode(b"PROXY \xff\r\n");
    match answer {
        Err(Error::Utf8(e)) => assert_eq!(6, e.valid_up_to()),
        other => panic!("{:?}", other),
    }
    assert_eq!(b"PROXY \xff\r\n".to_vec(), rest);
}

#[test]
fn faults_of_addresses_and_ports() {
    let cases: Vec<(&[u8], Result<AddrParseError, PortError>)> = vec![
        (b"PROXY TCP4 1.2.3.256 1.2.3.4 1 2\r\n", Ok(AddrParseError::Ipv4)),
        (b"PROXY TCP4 1.2.3.4 ::1 1 2\r\n", Ok(AddrParseError::Ipv4)),
        (b"PROXY TCP6 1.2.3.4 ::1 1 2\r\n", Ok(AddrParseError::Ipv6)),
        (b"PROXY TCP6 ::1 ::1::2 1 2\r\n", Ok(AddrParseError::Ipv6)),
        (b"PROXY TCP4 1.2.3.4 1.2.3.4  2\r\n", Err(PortError::Empty)),
        (b"PROXY TCP4 1.2.3.4 1.2.3.4 1 \r\n", Err(PortError::Empty)),
        (b"PROXY TCP4 1.2.3.4 1.2.3.4 x 2\r\n", Err(PortError::InvalidDigit)),
        (b"PROXY TCP4 1.2.3.4 1.2.3.4 1 65536\r\n", Err(PortError::TooLarge)),
        // the source comes first
        (b"PROXY TCP4 1.2.3.4 x x 2\r\n", Err(PortError::InvalidDigit)),
        (b"PROXY TCP4 x x x x\r\n", Ok(AddrParseError::Ipv4)),
        (b"PROXY TCP4 1.2.3.4 x 1 x\r\n", Ok(AddrParseError::Ipv4)),
    ];
    for (bytes, fault) in cases {
        let (answer, rest) = decode(bytes);
        match (answer, fault) {
            (Err(Error::IPAddress(e)), Ok(expected)) => assert_eq!(expected, e),
            (Err(Error::Port(e)), Err(expected)) => assert_eq!(expected, e),
            (answer, fault) => panic!("{:?} in place of {:?}", answer, fault),
        }
        assert_eq!(bytes.to_vec(), rest);
    }
}

#[test]
fn type_and_addresses_need_not_agree_to_be_written() {
    let info = known(SocketType::Ipv4, v6([0, 0, 0, 0, 0, 0, 0, 1], 7), v4([1, 2, 3, 4], 8));
    assert_eq!(b"PROXY TCP4 ::1 1.2.3.4 7 8\r\n".to_vec(), encode(info));
}

#[test]
fn encoding_appends() {
    let mut buf = BytesMut::from(&b"before "[..]);
    ProxyProtocolCodecV1::new().encode(unknown(), &mut buf).unwrap();
    assert_eq!(b"before PROXY UNKNOWN\r\n", &buf[..]);
}

#[test]
fn info_of_addresses() {
    let (a4, b4) = (v4([1, 2, 3, 4], 5), v4([6, 7, 8, 9], 10));
    let (a6, b6) = (v6([1; 8], 5), v6([2; 8], 10));
    assert_eq!(known(SocketType::Ipv4, a4, b4), ProxyInfo::try_from((Some(a4), Some(b4))).unwrap());
    assert_eq!(known(SocketType::Ipv6, a6, b6), ProxyInfo::try_from((Some(a6), Some(b6))).unwrap());
    assert_eq!(unknown(), ProxyInfo::try_from((None, None)).unwrap());
    for pair in vec![(Some(a4), Some(b6)), (Some(a6), Some(b4)), (Some(a4), None), (None, Some(b6))] {
        match ProxyInfo::try_from(pair) {
            Err(Error::Proxy(m)) => {
                assert_eq!("Inconsistent source and destination addresses", m)
            }
            other => panic!("{:?}", other),
        }
    }
}
