use bytes::{BufMut, BytesMut};
use tokio_proxy_protocol::addr::{Ipv4Addr, Ipv6Addr, SocketAddr, SocketAddrV4, SocketAddrV6};
use tokio_proxy_protocol::codec::v2::{ProxyProtocolCodecV2, SIGNATURE};
use tokio_proxy_protocol::codec::{ProxyInfo, SocketType};
use tokio_proxy_protocol::error::Error;

fn v4(octets: [u8; 4], port: u16) -> SocketAddr {
    SocketAddr::V4(SocketAddrV4 { ip: Ipv4Addr { octets }, port })
}

fn v6(segments: [u16; 8], port: u16) -> SocketAddr {
    SocketAddr::V6(SocketAddrV6 { ip: Ipv6Addr { segments }, port, flowinfo: 0, scope_id: 0 })
}

fn test_msg_ip4(msg: &str) -> BytesMut {
    let mut output = BytesMut::with_capacity(16 + 12 + msg.len());
    output.extend_from_slice(&SIGNATURE);
    output.put_u8(0x21);
    output.put_u8(0x11);
    output.extend(&[0, 12]);
    output.extend(&[127, 0, 0, 1]);
    output.extend(&[127, 0, 0, 2]);
    output.extend(&[0, 80]);
    output.extend(&[1, 187]);
    output.extend(msg.as_bytes());
    output
}

fn fixed_part(version_command: u8, protocol: u8, len: u16) -> BytesMut {
    let mut output = BytesMut::new();
    output.extend_from_slice(&SIGNATURE);
    output.put_u8(version_command);
    output.put_u8(protocol);
    output.put_u16(len);
    output
}

fn unknown() -> ProxyInfo {
    ProxyInfo { socket_type: SocketType::Unknown, original_source: None, original_destination: None }
}

fn proxy_message<T: std::fmt::Debug>(answer: Result<T, Error>) -> String {
    match answer {
        Err(Error::Proxy(m)) => m,
        other => panic!("not a protocol error: {:?}", other),
    }
}

#[test]
fn test_v2_proxy_decode() {
    let mut buf = test_msg_ip4("Hello");
    let mut codec = ProxyProtocolCodecV2::new();
    let info = codec
        .decode(&mut buf)
        .expect("decoding ok")
        .expect("has enough data");
    // 127.0.0.1:80
    let src_addr: SocketAddr = v4([127, 0, 0, 1], 80);
    // 127.0.0.2:443
    let dst_addr: SocketAddr = v4([127, 0, 0, 2], 443);
    assert_eq!(Some(src_addr), info.original_source);
    assert_eq!(Some(dst_addr), info.original_destination);
    assert_eq!(5, buf.len());
}

#[test]
fn test_v2_encode() {
    // 127.0.0.1:80
    let src_addr: SocketAddr = v4([127, 0, 0, 1], 80);
    // 127.0.0.2:443
    let dst_addr: SocketAddr = v4([127, 0, 0, 2], 443);
    let info = ProxyInfo {
        socket_type: SocketType::Ipv4,
        original_source: Some(src_addr),
        original_destination: Some(dst_addr),
    };
    let mut buf = BytesMut::new();
    let mut codec = ProxyProtocolCodecV2::new();
    codec.encode(info.clone(), &mut buf).expect("encoding ok");
    let info2 = codec
        .decode(&mut buf)
        .expect("decoding ok")
        .expect("has enough data");
    assert_eq!(info, info2);
    assert!(buf.is_empty());
}

#[test]
fn test_v2_ip6_encode_decode() {
    // [ffff:ffff:ffff:ffff:ffff:ffff:ffff:ffff]:80
    let src_addr: SocketAddr = v6([0xffff; 8], 80);
    // [aaaa:aaaa:aaaa:aaaa:aaaa:aaaa:aaaa:aaaa]:443
    let dst_addr: SocketAddr = v6([0xaaaa; 8], 443);
    let info = ProxyInfo {
        socket_type: SocketType::Ipv6,
        original_source: Some(src_addr),
        original_destination: Some(dst_addr),
    };
    let mut buf = BytesMut::new();
    let mut codec = ProxyProtocolCodecV2::new();
    codec.encode(info.clone(), &mut buf).expect("encoding ok");
    let info2 = codec
        .decode(&mut buf)
        .expect("decoding ok")
        .expect("has enough data");
    assert_eq!(info, info2);
    assert!(buf.is_empty());
}

#[test]
fn bytes_of_a_v4_header() {
    let info = ProxyInfo {
        socket_type: SocketType::Ipv4,
        original_source: Some(v4([127, 0, 0, 1], 80)),
        original_destination: Some(v4([127, 0, 0, 2], 443)),
    };
    let mut buf = BytesMut::from(&b"before"[..]);
    ProxyProtocolCodecV2::new().encode(info, &mut buf).unwrap();
    let mut expected = b"before".to_vec();
    expected.extend_from_slice(&test_msg_ip4(""));
    assert_eq!(expected, buf.to_vec());
}

#[test]
fn bytes_of_a_v6_header() {
    let info = ProxyInfo {
        socket_type: SocketType::Ipv6,
        original_source: Some(v6([0x0102, 0x0304, 0, 0, 0, 0, 0, 0x0f10], 0x1234)),
        original_destination: Some(v6([1, 2, 3, 4, 5, 6, 7, 8], 0x5678)),
    };
    let mut buf = BytesMut::new();
    ProxyProtocolCodecV2::new().encode(info, &mut buf).unwrap();
    let mut expected = fixed_part(0x21, 0x21, 36);
    expected.extend_from_slice(&[1, 2, 3, 4, 0, 0, 0, 0, 0, 0, 0, 0, 0, 0, 0x0f, 0x10]);
    expected.extend_from_slice(&[0, 1, 0, 2, 0, 3, 0, 4, 0, 5, 0, 6, 0, 7, 0, 8]);
    expected.extend_from_slice(&[0x12, 0x34, 0x56, 0x78]);
    assert_eq!(expected.to_vec(), buf.to_vec());
}

#[test]
fn unknown_v2_header() {
    let mut buf = BytesMut::new();
    let mut codec = ProxyProtocolCodecV2::default();
    codec.encode(unknown(), &mut buf).unwrap();
    assert_eq!(fixed_part(0x21, 0, 0).to_vec(), buf.to_vec());
    buf.extend_from_slice(b"rest");
    assert_eq!(Some(unknown()), codec.decode(&mut buf).unwrap());
    assert_eq!(b"rest", &buf[..]);
}

#[test]
fn unsupported_protocols_are_skipped() {
    // UDP over IPv4
    let mut buf = fixed_part(0x21, 0x12, 3);
    buf.extend_from_slice(b"abcrest");
    assert_eq!(Some(unknown()), ProxyProtocolCodecV2::new().decode(&mut buf).unwrap());
    assert_eq!(b"rest", &buf[..]);
}

#[test]
fn extensions_are_skipped() {
    let mut buf = fixed_part(0x21, 0x11, 15);
    buf.extend_from_slice(&[1, 2, 3, 4, 5, 6, 7, 8, 0, 9, 0, 10, 0xaa, 0xbb, 0xcc]);
    buf.extend_from_slice(b"rest");
    let info = ProxyProtocolCodecV2::new().decode(&mut buf).unwrap().unwrap();
    assert_eq!(Some(v4([1, 2, 3, 4], 9)), info.original_source);
    assert_eq!(Some(v4([5, 6, 7, 8], 10)), info.original_destination);
    assert_eq!(b"rest", &buf[..]);
}

#[test]
fn v2_pieces_of_every_size() {
    let bytes = test_msg_ip4("Hello").to_vec();
    for size in 1..bytes.len() {
        let mut codec = ProxyProtocolCodecV2::new();
        let mut buf = BytesMut::new();
        let mut found = None;
        for piece in bytes.chunks(size) {
            buf.extend_from_slice(piece);
            if found.is_none() {
                found = codec.decode(&mut buf).unwrap();
            }
        }
        let info = found.unwrap();
        assert_eq!(Some(v4([127, 0, 0, 1], 80)), info.original_source);
        assert_eq!(Some(v4([127, 0, 0, 2], 443)), info.original_destination);
        assert_eq!(b"Hello", &buf[..]);
    }
}

#[test]
fn the_fixed_part_leaves_at_once() {
    let mut codec = ProxyProtocolCodecV2::new();
    let mut buf = BytesMut::from(&test_msg_ip4("")[..15]);
    assert_eq!(None, codec.decode(&mut buf).unwrap());
    assert_eq!(15, buf.len());
    let mut buf = BytesMut::from(&test_msg_ip4("")[..20]);
    assert_eq!(None, codec.decode(&mut buf).unwrap());
    assert_eq!(4, buf.len());
}

#[test]
fn faults_of_the_fixed_part() {
    let mut wrong = test_msg_ip4("");
    wrong[3] = 0;
    let before = wrong.to_vec();
    assert_eq!(
        "Signature of proxy header v2 is wrong",
        proxy_message(ProxyProtocolCodecV2::new().decode(&mut wrong))
    );
    assert_eq!(before, wrong.to_vec());
    assert_eq!(
        "Version of proxy header v2 is not supported",
        proxy_message(ProxyProtocolCodecV2::new().decode(&mut fixed_part(0x11, 0x11, 0)))
    );
    assert_eq!(
        "Command of proxy header v2 is not supported",
        proxy_message(ProxyProtocolCodecV2::new().decode(&mut fixed_part(0x22, 0x11, 0)))
    );
}

#[test]
fn too_short_for_addresses() {
    let mut buf = fixed_part(0x21, 0x11, 11);
    buf.extend_from_slice(&[0; 13]);
    assert_eq!(
        "Proxy header v2 is too short for V4 addresses",
        proxy_message(ProxyProtocolCodecV2::new().decode(&mut buf))
    );
    assert_eq!(2, buf.len());
    let mut buf = fixed_part(0x21, 0x21, 0);
    assert_eq!(
        "Proxy header v2 is too short for V6 addresses",
        proxy_message(ProxyProtocolCodecV2::new().decode(&mut buf))
    );
}

#[test]
fn addresses_must_be_there() {
    for socket_type in vec![SocketType::Ipv4, SocketType::Ipv6] {
        let info = ProxyInfo {
            socket_type,
            original_source: Some(v4([1, 2, 3, 4], 5)),
            original_destination: Some(v6([1; 8], 5)),
        };
        let mut buf = BytesMut::new();
        assert_eq!(
            "Both V4 addresses must be present",
            proxy_message(ProxyProtocolCodecV2::new().encode(info, &mut buf))
        );
        assert_eq!(16, buf.len());
    }
}
