use bytes::BytesMut;
use tokio_proxy_protocol::addr::{
    AddrParseError, Ipv4Addr, Ipv6Addr, SocketAddr, SocketAddrV4, SocketAddrV6,
};
use tokio_proxy_protocol::codec;
use tokio_proxy_protocol::error::Error;
use tokio_proxy_protocol::proxy::{ProxyProtocolCodecV1, SocketType, MAX_HEADER_SIZE};
use tokio_proxy_protocol::{
    finish_read, Acceptor, Action, Connector, InnerRead, ProxyStream, ReadPlan, WithProxyInfo,
};

fn v4(octets: [u8; 4], port: u16) -> SocketAddr {
    SocketAddr::V4(SocketAddrV4 { ip: Ipv4Addr { octets }, port })
}

fn v6(segments: [u16; 8], port: u16) -> SocketAddr {
    SocketAddr::V6(SocketAddrV6 { ip: Ipv6Addr { segments }, port, flowinfo: 0, scope_id: 0 })
}

#[derive(Debug)]
enum Refused {
    Error(Error),
    UnsupportedV2,
}

/// Accepts a stream that gives at most `size` bytes at a time.
fn accept_by(
    acceptor: Acceptor,
    mut stream: &[u8],
    size: usize,
) -> Result<ProxyStream<&[u8]>, Refused> {
    let mut buf = BytesMut::with_capacity(MAX_HEADER_SIZE);
    let mut accepting = acceptor.accept();
    let mut ended = false;
    loop {
        assert!(accepting.resumes_in(&buf));
        match accepting.step(&mut buf, ended).map_err(Refused::Error)? {
            Action::Read => {
                let n = stream.len().min(size);
                buf.extend_from_slice(&stream[..n]);
                stream = &stream[n..];
                ended = n == 0;
            }
            Action::Accepted { original_source, original_destination } => {
                return Ok(ProxyStream::from_parts(
                    stream,
                    buf,
                    original_source,
                    original_destination,
                ))
            }
            Action::UnsupportedV2 => return Err(Refused::UnsupportedV2),
        }
    }
}

fn accept(acceptor: Acceptor, stream: &[u8]) -> Result<ProxyStream<&[u8]>, Refused> {
    accept_by(acceptor, stream, MAX_HEADER_SIZE)
}

fn read_to_end(ps: &mut ProxyStream<&[u8]>, size: usize) -> Vec<u8> {
    let mut inner: &[u8] = *ps.as_ref();
    let mut all = Vec::new();
    loop {
        let mut out = vec![0; size];
        let mut read_inner = |from: usize, out: &mut Vec<u8>| -> usize {
            let n = inner.len().min(out.len() - from);
            out[from..from + n].copy_from_slice(&inner[..n]);
            inner = &inner[n..];
            n
        };
        let n = match ps.begin_read(&mut out) {
            ReadPlan::Inner => read_inner(0, &mut out),
            ReadPlan::Done(n) => n,
            ReadPlan::Fill(n) => {
                let added = read_inner(n, &mut out);
                finish_read::<()>(n, InnerRead::Ready(added)).unwrap()
            }
        };
        if n == 0 {
            return all;
        }
        all.extend_from_slice(&out[..n]);
    }
}

fn message(refused: Refused) -> String {
    match refused {
        Refused::Error(Error::Proxy(m)) => m,
        other => panic!("not a protocol error: {:?}", other),
    }
}

#[test]
fn test_v1_tcp4() {
    let message = "PROXY TCP4 192.168.0.1 192.168.0.11 56324 443\r\nHELLO".as_bytes();
    let mut ps = accept(Acceptor::new(), message).unwrap();
    // 192.168.0.1:56324
    assert_eq!(v4([192, 168, 0, 1], 56324), ps.original_peer_addr().unwrap());
    // 192.168.0.11:443
    assert_eq!(v4([192, 168, 0, 11], 443), ps.original_destination_addr().unwrap());
    let buf = read_to_end(&mut ps, 32);
    assert_eq!(b"HELLO", &buf[..]);
}

#[test]
fn test_v1_header_pass() {
    let message = "PROXY TCP4 192.168.0.1 192.168.0.11 56324 443\r\nHELLO".as_bytes();
    let mut ps = accept(Acceptor::new().pass_proxy_header(true), message).unwrap();
    // 192.168.0.1:56324
    assert_eq!(v4([192, 168, 0, 1], 56324), ps.original_peer_addr().unwrap());
    // 192.168.0.11:443
    assert_eq!(v4([192, 168, 0, 11], 443), ps.original_destination_addr().unwrap());
    let buf = read_to_end(&mut ps, 32);
    assert_eq!(message, &buf[..]);
}

#[test]
fn test_v1_unknown_long_message() {
    let mut message = "PROXY UNKNOWN\r\n".to_string();
    const DATA_LENGTH: usize = 1_000_000;
    let data = (b'A'..=b'Z').cycle().take(DATA_LENGTH).map(|c| c as char);
    message.extend(data);

    let mut ps = accept(Acceptor::default(), message.as_bytes()).unwrap();
    assert!(ps.original_peer_addr().is_none());
    assert!(ps.original_destination_addr().is_none());
    let buf = read_to_end(&mut ps, 4096);
    assert_eq!(DATA_LENGTH, buf.len());
    assert_eq!(&message.as_bytes()[15..], &buf[..]);
}

#[test]
fn test_no_proxy_header_passed() {
    let message = b"MEMAM PROXY HEADER, CHUDACEK JA";
    let mut ps = accept(Acceptor::default(), &message[..]).unwrap();
    assert!(ps.original_peer_addr().is_none());
    assert!(ps.original_destination_addr().is_none());
    let buf = read_to_end(&mut ps, 7);
    assert_eq!(&message[..], &buf[..]);
}

#[test]
fn test_no_proxy_header_rejected() {
    let message = b"MEMAM PROXY HEADER, CHUDACEK JA";
    let ps = accept(Acceptor::new().require_proxy_header(true), &message[..]);
    assert!(ps.is_err());
}

#[test]
fn test_too_short_message_fail() {
    let message = b"NIC\r\n";
    let ps = accept(Acceptor::new().require_proxy_header(true), &message[..]);
    assert!(ps.is_err());
}

#[test]
fn test_too_short_message_pass() {
    let message = b"NIC\r\n";
    let mut ps = accept(Acceptor::new().require_proxy_header(false), &message[..]).unwrap();
    let buf = read_to_end(&mut ps, 32);
    assert_eq!(message, &buf[..]);
}

#[test]
fn test_connect() {
    // 127.0.0.1:1111
    let src = Some(v4([127, 0, 0, 1], 1111));
    // 127.0.0.1:2222
    let dest = Some(v4([127, 0, 0, 1], 2222));
    let buf = Connector::new().header_for(src, dest).unwrap();
    let expected = "PROXY TCP4 127.0.0.1 127.0.0.1 1111 2222\r\n";
    assert_eq!(expected.as_bytes(), &buf[..]);
}

#[test]
fn connector_refuses_mixed_addresses() {
    let a = Some(v4([127, 0, 0, 1], 1111));
    let b = Some(v6([1; 8], 2222));
    for connector in vec![Connector::default(), Connector::new().use_v2(true)] {
        match connector.header_for(a, b) {
            Err(Error::Proxy(m)) => {
                assert_eq!("Inconsistent source and destination addresses", m)
            }
            other => panic!("{:?}", other),
        }
        assert!(connector.supports(a, b));
    }
    assert!(Connector::new().supports(a, a));
    assert!(!Connector::new().use_v2(true).supports(a, a));
    assert!(!Connector::new().use_v2(true).supports(None, None));
    assert_eq!(b"PROXY UNKNOWN\r\n", &Connector::new().header_for(None, None).unwrap()[..]);
    assert_eq!(
        &b"PROXY TCP6 101:101:101:101:101:101:101:101 ::1 1 2\r\n"[..],
        &Connector::new()
            .header_for(
                Some(v6([0x101; 8], 1)),
                Some(v6([0, 0, 0, 0, 0, 0, 0, 1], 2))
            )
            .unwrap()[..]
    );
}

#[test]
fn acceptor_takes_what_connector_sends() {
    for (src, dest) in vec![
        (None, None),
        (Some(v4([10, 0, 0, 1], 40000)), Some(v4([10, 0, 0, 2], 25))),
        (Some(v6([0xfe80, 0, 0, 0, 0, 0, 0, 1], 40000)), Some(v6([0; 8], 25))),
    ] {
        let mut bytes = Connector::new().header_for(src, dest).unwrap().to_vec();
        bytes.extend_from_slice(b"DATA");
        for size in 1..bytes.len() + 1 {
            let acceptor = Acceptor::new().require_proxy_header(true);
            let mut ps = accept_by(acceptor, &bytes, size).unwrap();
            assert_eq!(src, ps.original_peer_addr());
            assert_eq!(dest, ps.original_destination_addr());
            assert_eq!(b"DATA".to_vec(), read_to_end(&mut ps, 3));
        }
    }
}

#[test]
fn refusals() {
    let required = || Acceptor::new().require_proxy_header(true);
    assert_eq!(
        "Message too short for proxy protocol",
        message(accept(required(), b"PROXY UNKNOWN\r").err().unwrap())
    );
    assert_eq!(
        "Proxy protocol is required",
        message(accept(required(), b"GET / HTTP/1.1\r\n\r\n").err().unwrap())
    );
    assert_eq!(
        "Proxy protocol is required",
        message(accept(required().support_v1(false), b"PROXY UNKNOWN\r\n").err().unwrap())
    );
    assert_eq!(
        "Incomplete V1 header",
        message(accept(Acceptor::new(), b"PROXY TCP4 1.2.3.4 5.6.7.8").err().unwrap())
    );
    assert_eq!(
        "Invalid proxy header v1: PROXY UNKNOW \n",
        message(accept(Acceptor::new(), b"PROXY UNKNOW \n\r\n").err().unwrap())
    );
    let mut long = b"PROXY ".to_vec();
    long.extend_from_slice(&[b'x'; 600]);
    assert_eq!(
        "Proxy header v1 does not contain EOL",
        message(accept(Acceptor::new(), &long).err().unwrap())
    );
}

#[test]
fn v1_tcp6() {
    let message = b"PROXY TCP6 ffff:ffff:ffff:ffff:ffff:ffff:ffff:ffff aaaa:aaaa:aaaa:aaaa:aaaa:aaaa:aaaa:aaaa 65535 65534\r\nHello";
    for size in 1..message.len() + 1 {
        let mut ps = accept_by(Acceptor::new(), message, size).unwrap();
        assert_eq!(Some(v6([0xffff; 8], 65535)), ps.original_peer_addr());
        assert_eq!(Some(v6([0xaaaa; 8], 65534)), ps.original_destination_addr());
        assert_eq!(b"Hello".to_vec(), read_to_end(&mut ps, 3));
    }
    let mut ps = accept(Acceptor::new().pass_proxy_header(true), message).unwrap();
    assert_eq!(message.to_vec(), read_to_end(&mut ps, 32));
    match accept(Acceptor::new(), b"PROXY TCP6 ::1 1.2.3.4 1 2\r\n") {
        Err(Refused::Error(Error::IPAddress(e))) => assert_eq!(AddrParseError::Ipv6, e),
        _ => panic!("accepted"),
    }
}

#[test]
fn unsupported_headers() {
    let v2 = b"\x0D\x0A\x0D\x0A\x00\x0D\x0A\x51\x55\x49\x54\x0A\x21\x11\x00\x00";
    assert!(matches!(accept(Acceptor::new(), v2), Err(Refused::UnsupportedV2)));
    // not looked for, headers are data
    let mut ps = accept(Acceptor::new().support_v2(false), v2).unwrap();
    assert_eq!(v2.to_vec(), read_to_end(&mut ps, 5));
    let v1 = b"PROXY TCP6 ::1 ::2 1 2\r\n";
    let mut ps = accept(Acceptor::new().support_v1(false), v1).unwrap();
    assert_eq!(v1.to_vec(), read_to_end(&mut ps, 5));
}

#[test]
fn any_pieces_come_out_alike() {
    let messages: Vec<&[u8]> = vec![
        b"", b"NIC", b"GET / HTTP/1.1\r\n\r\n", b"PROXY UNKNOWN\r\nrest", b"PROXY TCP4 1.2.3.4 5.6.7.8",
        b"PROXY TCP6 ::1 ::2 1 x\r\nrest", b"PROXY NONE AT ALL\r\nrest", b"PROXY \xff\xff\xff\xff\xff\xff\xff\r\n",
    ];
    let shown = |accepted: Result<ProxyStream<&[u8]>, Refused>| match accepted {
        Ok(mut ps) => {
            let addresses = (ps.original_peer_addr(), ps.original_destination_addr());
            format!("{:?} {:?}", addresses, read_to_end(&mut ps, 4))
        }
        Err(e) => format!("{:?}", e),
    };
    for message in messages {
        for required in vec![false, true] {
            let acceptor = || Acceptor::new().require_proxy_header(required);
            let whole = shown(accept_by(acceptor(), message, message.len().max(1)));
            for size in 1..message.len() + 1 {
                assert_eq!(whole, shown(accept_by(acceptor(), message, size)));
            }
        }
    }
}

#[test]
fn decoder_in_front_of_a_stream() {
    let bytes = b"ANY TCP4 1.2.3.4 5.6.7.8 9 10\r\nrest";
    let mut buf = BytesMut::from(&bytes[..]);
    let info = ProxyProtocolCodecV1::new().decode(&mut buf).unwrap().unwrap();
    assert_eq!(SocketType::Ipv4, info.socket_type);
    assert_eq!(Some(v4([1, 2, 3, 4], 9)), info.original_source);
    assert_eq!(Some(v4([5, 6, 7, 8], 10)), info.original_destination);
    assert_eq!(b"rest", &buf[..]);

    let mut buf = BytesMut::from(&bytes[..]);
    let mut codec = ProxyProtocolCodecV1::new_with_pass_header(true);
    assert!(codec.resumes_in(&buf));
    assert!(codec.decode(&mut buf).unwrap().is_some());
    assert_eq!(&bytes[..], &buf[..]);

    let mut buf = BytesMut::from(&b"PROXY\r\n"[..]);
    match ProxyProtocolCodecV1::default().decode(&mut buf) {
        Err(Error::Proxy(m)) => assert_eq!("At least two parts are needed", m),
        _ => panic!("accepted"),
    }
    assert_eq!(b"PROXY\r\n", &buf[..]);

    let mut buf = BytesMut::from(&b"PROXY TCP4 x\r\nrest"[..]);
    match ProxyProtocolCodecV1::new().decode(&mut buf) {
        Err(Error::Proxy(m)) => assert_eq!("Invalid proxy header v1: PROXY TCP4 x", m),
        _ => panic!("accepted"),
    }
    assert_eq!(b"rest", &buf[..]);

    let mut buf = BytesMut::from(&b"\xc3\x28 UNKNOWN\r\n"[..]);
    assert!(matches!(ProxyProtocolCodecV1::new().decode(&mut buf), Err(Error::Utf8(_))));

    let mut buf = BytesMut::from(&b"PROXY TCP6 ::1 2:: 3 4\r\nrest"[..]);
    let info = ProxyProtocolCodecV1::new().decode(&mut buf).unwrap().unwrap();
    assert_eq!(SocketType::Ipv6, info.socket_type);
    assert_eq!(Some(v6([0, 0, 0, 0, 0, 0, 0, 1], 3)), info.original_source);
    assert_eq!(Some(v6([2, 0, 0, 0, 0, 0, 0, 0], 4)), info.original_destination);
    assert_eq!(b"rest", &buf[..]);

    let mut buf = BytesMut::from(&b"PROXY TCP6 a b c\r\n"[..]);
    match ProxyProtocolCodecV1::new().decode(&mut buf) {
        Err(Error::Proxy(m)) => assert_eq!("Invalid proxy header v1: PROXY TCP6 a b c", m),
        _ => panic!("accepted"),
    }
}

#[test]
fn both_decoders_agree() {
    for line in vec![
        "PROXY UNKNOWN\r\nrest",
        "PROXY TCP4 1.2.3.4 5.6.7.8 9 10\r\nrest",
        "PROXY TCP4 1.2.3.4 5.6.7.8 9\r\nrest",
        "PROXY TCP6 ::1 ::2 9 10\r\nrest",
        "PROXY TCP6 ::1 ::2 9 x\r\nrest",
        "PROXY TCP4 1.2.3.4 5.6.7.8 9 x\r\nrest",
        "PROXY\r\nrest",
        "PROXY TCP4 1.2",
    ] {
        let (mut a, mut b) = (BytesMut::from(line), BytesMut::from(line));
        let first = codec::ProxyProtocolCodecV1::new().decode(&mut a);
        let second = ProxyProtocolCodecV1::new().decode(&mut b);
        assert_eq!(format!("{:?}", first), format!("{:?}", second));
        assert_eq!(a, b);
    }
}

#[test]
fn reads_in_order() {
    let held = BytesMut::from(&b"abcdef"[..]);
    let mut ps = ProxyStream::from_parts((), held, None, None);
    let mut out = [b'.'; 4];
    assert_eq!(ReadPlan::Done(4), ps.begin_read(&mut out));
    assert_eq!(b"abcd", &out);
    let mut out = [b'.'; 4];
    assert_eq!(ReadPlan::Fill(2), ps.begin_read(&mut out));
    assert_eq!(b"ef..", &out);
    let mut out = [b'.'; 4];
    assert_eq!(ReadPlan::Inner, ps.begin_read(&mut out));
    assert_eq!(b"....", &out);
    assert_eq!(Ok(5), finish_read::<()>(2, InnerRead::Ready(3)));
    assert_eq!(Ok(2), finish_read::<()>(2, InnerRead::Pending));
    assert_eq!(Err("broken"), finish_read(2, InnerRead::Failed("broken")));
}

#[test]
fn inner_stream_only_when_nothing_is_held() {
    let ps = ProxyStream::from_parts(7, BytesMut::new(), None, None);
    assert_eq!(7, *ps.as_ref());
    assert_eq!(7, ps.try_into_inner().unwrap());
    let ps = ProxyStream::from_parts(7, BytesMut::from(&b"x"[..]), None, None);
    match ps.try_into_inner() {
        Err(Error::InvalidState(m)) => {
            assert_eq!("Cannot return inner steam because buffer is not empty", m)
        }
        other => panic!("{:?}", other),
    }
}

struct Bare;

impl WithProxyInfo for Bare {}

#[test]
fn a_bare_stream_knows_nothing() {
    assert_eq!(None, Bare.original_peer_addr());
    assert_eq!(None, Bare.original_destination_addr());
}
