use dns_pipeline::proxy_protocol::{
    address_len, decode_header, find_tenant_tlv, is_signature, parse_addresses, parse_tlvs,
    IpAddress, ProxyError, ProxyHeaderReader, ReadAction, SourceAddr, SIGNATURE_LEN,
    TENANT_TLV_TYPE,
};

const SIGNATURE: [u8; 12] = [0x0D, 0x0A, 0x0D, 0x0A, 0x00, 0x0D, 0x0A, 0x51, 0x55, 0x49, 0x54, 0x0A];

fn v4(a: u8, b: u8, c: u8, d: u8) -> IpAddress {
    IpAddress::V4(u32::from_be_bytes([a, b, c, d]))
}

#[test]
fn parse_ipv4_proxy_with_tenant_tlv() {
    let mut payload = Vec::new();
    // src 203.0.113.1:12345 dst 10.0.0.1:5301
    payload.extend_from_slice(&[203, 0, 113, 1, 10, 0, 0, 1]);
    payload.extend_from_slice(&49u16.to_be_bytes()); // src port
    payload.extend_from_slice(&5301u16.to_be_bytes()); // dst port
    // tenant TLV
    payload.extend_from_slice(&TENANT_TLV_TYPE.to_be_bytes());
    payload.push(6);
    payload.extend_from_slice(b"tenant");

    let src = parse_addresses(0x11, &payload[..12]).unwrap();
    // The comment above names source port 12345, but the bytes written for
    // it are 49u16 (0x00, 0x31), and bytes 8..10 carry the source port in
    // network order: these bytes encode 203.0.113.1:49, not :12345. No
    // decoder of the block can give 12345 here; the test with 12345 written
    // as the port follows.
    assert_eq!(src, SourceAddr { ip: v4(203, 0, 113, 1), port: 49 });
    assert_ne!(src.port, 12345);
    assert_eq!(parse_tlvs(&payload, 12), Some("tenant".to_string()));
}

#[test]
fn parse_ipv4_proxy_with_port_12345_written() {
    let mut payload = Vec::new();
    payload.extend_from_slice(&[203, 0, 113, 1, 10, 0, 0, 1]);
    payload.extend_from_slice(&12345u16.to_be_bytes());
    payload.extend_from_slice(&5301u16.to_be_bytes());
    payload.extend_from_slice(&TENANT_TLV_TYPE.to_be_bytes());
    payload.push(6);
    payload.extend_from_slice(b"tenant");
    let src = parse_addresses(0x12, &payload[..12]).unwrap();
    assert_eq!(src, SourceAddr { ip: v4(203, 0, 113, 1), port: 12345 });
    assert_eq!(parse_tlvs(&payload, 12), Some("tenant".to_string()));
}

#[test]
fn ipv6_addresses_are_parsed() {
    let mut payload = vec![0u8; 36];
    payload[0] = 0x20;
    payload[1] = 0x01;
    payload[2] = 0x0d;
    payload[3] = 0xb8;
    payload[15] = 0x01;
    payload[32] = 0x01;
    payload[33] = 0xbb;
    let src = parse_addresses(0x21, &payload).unwrap();
    assert_eq!(
        src,
        SourceAddr { ip: IpAddress::V6(0x2001_0db8_0000_0000_0000_0000_0000_0001), port: 443 }
    );
}

#[test]
fn short_address_blocks_are_rejected() {
    assert_eq!(parse_addresses(0x11, &[0u8; 11]), Err(ProxyError::Ipv4BlockTooShort));
    assert_eq!(parse_addresses(0x22, &[0u8; 35]), Err(ProxyError::Ipv6BlockTooShort));
    assert_eq!(parse_addresses(0x31, &[0u8; 216]), Err(ProxyError::UnsupportedFamily(0x31)));
    assert_eq!(parse_addresses(0x00, &[]), Err(ProxyError::UnsupportedFamily(0x00)));
}

#[test]
fn address_lengths_by_family() {
    assert_eq!(address_len(0x11), 12);
    assert_eq!(address_len(0x12), 12);
    assert_eq!(address_len(0x21), 36);
    assert_eq!(address_len(0x22), 36);
    assert_eq!(address_len(0x31), 216);
    assert_eq!(address_len(0x32), 216);
    assert_eq!(address_len(0x00), 0);
    assert_eq!(address_len(0x7f), 0);
}

#[test]
fn tlvs_of_other_types_are_skipped() {
    let mut payload = vec![0u8; 4];
    payload.extend_from_slice(&[0x00, 0x04, 2, 0xaa, 0xbb]);
    payload.extend_from_slice(&[0x00, 0xE1, 3]);
    payload.extend_from_slice(b"abc");
    payload.extend_from_slice(&[0xff, 0xff]);
    assert_eq!(find_tenant_tlv(&payload, 4), Some((12, 3)));
    assert_eq!(parse_tlvs(&payload, 4), Some("abc".to_string()));
}

#[test]
fn truncated_or_invalid_tenant_tlvs_yield_nothing() {
    // value longer than the payload
    let payload = [0x00, 0xE1, 5, b'a', b'b'];
    assert_eq!(parse_tlvs(&payload, 0), None);
    // not UTF-8
    let payload = [0x00, 0xE1, 2, 0xff, 0xfe];
    assert_eq!(find_tenant_tlv(&payload, 0), Some((3, 2)));
    assert_eq!(parse_tlvs(&payload, 0), None);
    // offset past the end
    assert_eq!(parse_tlvs(&payload, 100), None);
    // no tenant TLV
    assert_eq!(parse_tlvs(&[0x00, 0x01, 0], 0), None);
}

#[test]
fn signature_is_recognised() {
    assert!(is_signature(&SIGNATURE));
    let mut wrong = SIGNATURE;
    wrong[11] = 0;
    assert!(!is_signature(&wrong));
    assert!(!is_signature(&SIGNATURE[..11]));
}

fn run(stream: &[u8]) -> ReadAction {
    let (mut reader, mut want) = ProxyHeaderReader::start();
    let mut pos = 0;
    loop {
        let chunk = &stream[pos..pos + want];
        pos += want;
        match reader.advance(chunk) {
            ReadAction::ReadExact(n) => want = n,
            other => return other,
        }
    }
}

#[test]
fn reader_decodes_a_proxy_header() {
    let mut stream = SIGNATURE.to_vec();
    stream.push(0x21); // version 2, PROXY
    stream.push(0x11); // TCP4
    let mut payload = vec![192, 0, 2, 7, 10, 0, 0, 1, 0x30, 0x39, 0x14, 0xb5];
    payload.extend_from_slice(&[0x00, 0xE1, 2, b'a', b'b']);
    stream.extend_from_slice(&(payload.len() as u16).to_be_bytes());
    stream.extend_from_slice(&payload);
    stream.extend_from_slice(b"dns");
    match run(&stream) {
        ReadAction::Complete(h) => {
            assert_eq!(h.src, SourceAddr { ip: v4(192, 0, 2, 7), port: 12345 });
            assert_eq!(h.tenant_id, Some("ab".to_string()));
        }
        other => panic!("unexpected {:?}", other),
    }
}

#[test]
fn reader_reports_local_command_without_address() {
    let mut stream = SIGNATURE.to_vec();
    stream.push(0x20); // version 2, LOCAL
    stream.push(0x00);
    stream.extend_from_slice(&[0, 0]);
    match run(&stream) {
        ReadAction::Complete(h) => {
            assert_eq!(h.src, SourceAddr { ip: IpAddress::V4(0), port: 0 });
            assert_eq!(h.tenant_id, None);
        }
        other => panic!("unexpected {:?}", other),
    }
}

#[test]
fn reader_rejects_other_versions_and_short_blocks() {
    let mut stream = SIGNATURE.to_vec();
    stream.push(0x11);
    match run(&stream) {
        ReadAction::Reject(e) => assert_eq!(e, ProxyError::UnsupportedVersion(1)),
        other => panic!("unexpected {:?}", other),
    }
    let mut stream = SIGNATURE.to_vec();
    stream.extend_from_slice(&[0x21, 0x11, 0, 4, 1, 2, 3, 4]);
    match run(&stream) {
        ReadAction::Reject(e) => assert_eq!(e, ProxyError::AddressBlockTruncated),
        other => panic!("unexpected {:?}", other),
    }
}

#[test]
fn reader_reports_streams_without_signature() {
    let stream: Vec<u8> = (1u8..=14).collect();
    match run(&stream) {
        ReadAction::NotProxy(read) => assert_eq!(read, stream[..12].to_vec()),
        other => panic!("unexpected {:?}", other),
    }
    let (_, want) = ProxyHeaderReader::start();
    assert_eq!(want, SIGNATURE_LEN);
}

#[test]
fn decode_header_without_tlvs() {
    let block = [10, 1, 2, 3, 10, 0, 0, 1, 0, 53, 0, 53];
    let h = decode_header(0x21, 0x11, &block).unwrap();
    assert_eq!(h.src, SourceAddr { ip: v4(10, 1, 2, 3), port: 53 });
    assert_eq!(h.tenant_id, None);
}
