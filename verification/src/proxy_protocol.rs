//! HAProxy PROXY protocol v2 header decoding, with the tenant TLV.
//!
//! The header is read from a stream in fixed steps (signature, version and
//! command, address family, payload length, payload); `ProxyHeaderReader`
//! decides after each step what to read next or what the outcome is.
use vstd::prelude::*;
use vstd::arithmetic::power2::*;
use vstd::utf8::*;

verus! {

/// Custom PPv2 TLV type used for tenant identification.
pub const TENANT_TLV_TYPE: u16 = 0xE1;

/// Number of bytes in the PROXY v2 signature.
pub const SIGNATURE_LEN: usize = 12;

/// An IP address: IPv4 as its 32-bit value, IPv6 as its 128-bit value
/// (both in network order, most significant byte first).
#[derive(PartialEq, Eq, Structural, Clone, Copy, Debug, Hash)]
pub enum IpAddress {
    V4(u32),
    V6(u128),
}

/// A socket address: an IP address and a port.
#[derive(PartialEq, Eq, Structural, Clone, Copy, Debug, Hash)]
pub struct SourceAddr {
    pub ip: IpAddress,
    pub port: u16,
}

/// The tenant identifier as a sequence of characters.
pub open spec fn tenant_view(t: Option<String>) -> Option<Seq<char>> {
    match t {
        Some(s) => Some(s@),
        None => None,
    }
}

/// Parsed PROXY protocol header from a TCP connection.
#[derive(Debug, PartialEq, Eq)]
pub struct ProxyHeader {
    /// Real client socket address.
    pub src: SourceAddr,
    /// Optional tenant identifier from TLV 0xE1.
    pub tenant_id: Option<String>,
}

/// Why a PROXY header was rejected.
#[derive(PartialEq, Eq, Structural, Clone, Copy, Debug)]
pub enum ProxyError {
    /// The version nibble is not 2.
    UnsupportedVersion(u8),
    /// The payload is shorter than the address block of its family.
    AddressBlockTruncated,
    /// An IPv4 address block shorter than 12 bytes.
    Ipv4BlockTooShort,
    /// An IPv6 address block shorter than 36 bytes.
    Ipv6BlockTooShort,
    /// An address family that carries no IP address.
    UnsupportedFamily(u8),
}

/// The 12 signature bytes `\r\n\r\n\0\r\nQUIT\n`.
pub open spec fn signature() -> Seq<u8> {
    seq![0x0Du8, 0x0Au8, 0x0Du8, 0x0Au8, 0x00u8, 0x0Du8, 0x0Au8, 0x51u8, 0x55u8, 0x49u8, 0x54u8, 0x0Au8]
}

/// The PROXY v2 wire constants: the signature is the 12 bytes
/// `\r\n\r\n\0\r\nQUIT\n`, and the tenant TLV has type 0xE1.
pub proof fn law_wire_constants()
    ensures
        SIGNATURE_LEN == 12,
        signature().len() == 12,
        signature()[0] == 13 && signature()[1] == 10 && signature()[2] == 13 && signature()[3] == 10,
        signature()[4] == 0 && signature()[5] == 13 && signature()[6] == 10,
        signature()[7] == 81 && signature()[8] == 85 && signature()[9] == 73 && signature()[10] == 84,
        signature()[11] == 10,
        TENANT_TLV_TYPE == 225,
{
}

/// The unsigned number whose big-endian encoding is `bytes`.
pub open spec fn be_value(bytes: Seq<u8>) -> nat
    decreases bytes.len(),
{
    if bytes.len() == 0 {
        0
    } else {
        be_value(bytes.drop_last()) * 256 + bytes.last() as nat
    }
}

/// Big-endian value of the two bytes `hi`, `lo`.
pub open spec fn be_pair(hi: u8, lo: u8) -> nat {
    hi as nat * 256 + lo as nat
}

proof fn lemma_be_value_pair(s: Seq<u8>)
    requires
        s.len() == 2,
    ensures
        be_value(s) == be_pair(s[0], s[1]),
{
    let first = s.drop_last();
    assert(first.drop_last() =~= Seq::<u8>::empty());
    assert(first.last() == s[0]);
    assert(be_value(first) == be_value(first.drop_last()) * 256 + first.last() as nat);
    assert(be_value(s) == be_value(first) * 256 + s.last() as nat);
}

pub(crate) proof fn lemma_pow2_128()
    ensures
        pow2(128) == 0x1_0000_0000_0000_0000_0000_0000_0000_0000,
{
    lemma2_to64();
    lemma_pow2_adds(64, 64);
}

/// Reads `count` bytes starting at `start` as a big-endian number.
fn read_be(data: &[u8], start: usize, count: usize) -> (r: u128)
    requires
        start + count <= data@.len(),
        count <= 16,
    ensures
        r == be_value(data@.subrange(start as int, start + count)),
        r < pow2(8 * count as nat),
{
    let n: usize = data.len();
    let mut acc: u128 = 0;
    let mut i: usize = 0;
    proof {
        assert(data@.subrange(start as int, start as int) =~= Seq::<u8>::empty());
        lemma2_to64();
    }
    while i < count
        invariant
            n == data@.len(),
            start + count <= n,
            count <= 16,
            i <= count,
            acc == be_value(data@.subrange(start as int, start + i)),
            acc < pow2(8 * i as nat),
        decreases count - i,
    {
        let b: u8 = data[start + i];
        proof {
            let s = data@.subrange(start as int, start + i + 1);
            assert(s.drop_last() =~= data@.subrange(start as int, start + i));
            assert(s.last() == b);
            lemma_pow2_adds(8 * i as nat, 8);
            lemma2_to64();
            assert(8 * (i + 1) as nat == 8 * i as nat + 8);
            assert(8 * (i + 1) as nat <= 128);
            if 8 * (i + 1) < 128 {
                lemma_pow2_strictly_increases(8 * (i + 1) as nat, 128);
            }
            lemma_pow2_128();
            assert(acc * 256 + b < pow2(8 * i as nat) * 256);
        }
        acc = acc * 256 + b as u128;
        i = i + 1;
    }
    acc
}

/// Whether the first 12 bytes read from a stream are the PROXY v2 signature.
pub fn is_signature(sig: &[u8]) -> (r: bool)
    ensures
        r == (sig@ == signature()),
{
    if sig.len() != SIGNATURE_LEN {
        return false;
    }
    let expected: [u8; 12] = [0x0D, 0x0A, 0x0D, 0x0A, 0x00, 0x0D, 0x0A, 0x51, 0x55, 0x49, 0x54, 0x0A];
    let mut i: usize = 0;
    while i < SIGNATURE_LEN
        invariant
            sig@.len() == 12,
            expected@ == signature(),
            i <= 12,
            forall|j: int| 0 <= j < i ==> sig@[j] == signature()[j],
        decreases 12 - i,
    {
        if sig[i] != expected[i] {
            return false;
        }
        i = i + 1;
    }
    assert(sig@ =~= signature());
    true
}

/// The protocol version: the high nibble of the version/command byte.
pub open spec fn version_of(ver_cmd: u8) -> u8 {
    ver_cmd / 16
}

/// The command: the low nibble of the version/command byte (0 is LOCAL).
pub open spec fn command_of(ver_cmd: u8) -> u8 {
    ver_cmd % 16
}

/// Length of the address block for an address family byte.
pub open spec fn address_len_spec(fam: u8) -> nat {
    if fam == 0x11 || fam == 0x12 {
        12
    } else if fam == 0x21 || fam == 0x22 {
        36
    } else if fam == 0x31 || fam == 0x32 {
        216
    } else {
        0
    }
}

/// Length of the address block for an address family byte: TCP4/UDP4 12,
/// TCP6/UDP6 36, UNIX stream/datagram 216, anything else 0.
pub fn address_len(fam: u8) -> (r: usize)
    ensures
        r == address_len_spec(fam),
{
    match fam {
        0x11 | 0x12 => 12,
        0x21 | 0x22 => 36,
        0x31 | 0x32 => 216,
        _ => 0,
    }
}

/// The source address that an address block carries.
pub open spec fn addresses_spec(fam: u8, data: Seq<u8>) -> Result<SourceAddr, ProxyError> {
    if fam == 0x11 || fam == 0x12 {
        if data.len() < 12 {
            Err(ProxyError::Ipv4BlockTooShort)
        } else {
            Ok(
                SourceAddr {
                    ip: IpAddress::V4(be_value(data.subrange(0, 4)) as u32),
                    port: be_value(data.subrange(8, 10)) as u16,
                },
            )
        }
    } else if fam == 0x21 || fam == 0x22 {
        if data.len() < 36 {
            Err(ProxyError::Ipv6BlockTooShort)
        } else {
            Ok(
                SourceAddr {
                    ip: IpAddress::V6(be_value(data.subrange(0, 16)) as u128),
                    port: be_value(data.subrange(32, 34)) as u16,
                },
            )
        }
    } else {
        Err(ProxyError::UnsupportedFamily(fam))
    }
}

/// Decodes the source address of an address block: for TCP4/UDP4 the IPv4
/// address in bytes 0..4 and the port in bytes 8..10, for TCP6/UDP6 the IPv6
/// address in bytes 0..16 and the port in bytes 32..34.
pub fn parse_addresses(fam: u8, data: &[u8]) -> (r: Result<SourceAddr, ProxyError>)
    ensures
        r == addresses_spec(fam, data@),
{
    if fam == 0x11 || fam == 0x12 {
        if data.len() < 12 {
            return Err(ProxyError::Ipv4BlockTooShort);
        }
        let ip: u128 = read_be(data, 0, 4);
        let port: u128 = read_be(data, 8, 2);
        proof {
            lemma2_to64();
        }
        Ok(SourceAddr { ip: IpAddress::V4(ip as u32), port: port as u16 })
    } else if fam == 0x21 || fam == 0x22 {
        if data.len() < 36 {
            return Err(ProxyError::Ipv6BlockTooShort);
        }
        let ip: u128 = read_be(data, 0, 16);
        let port: u128 = read_be(data, 32, 2);
        proof {
            lemma2_to64();
        }
        Ok(SourceAddr { ip: IpAddress::V6(ip), port: port as u16 })
    } else {
        Err(ProxyError::UnsupportedFamily(fam))
    }
}

/// Scans the TLVs of `p` from `pos` on (type: 2 bytes big-endian, length: 1
/// byte, value) and gives the start and length of the value of the first
/// tenant TLV, stopping at the first TLV that does not fit.
pub open spec fn tlv_search(p: Seq<u8>, pos: int) -> Option<(int, int)>
    decreases p.len() - pos,
{
    if pos < 0 || pos + 3 > p.len() {
        None
    } else {
        let tlv_type = be_pair(p[pos], p[pos + 1]);
        let tlv_len = p[pos + 2] as int;
        let start = pos + 3;
        if start + tlv_len > p.len() {
            None
        } else if tlv_type == TENANT_TLV_TYPE {
            Some((start, tlv_len))
        } else {
            tlv_search(p, start + tlv_len)
        }
    }
}

proof fn lemma_tlv_search_in_bounds(p: Seq<u8>, pos: int)
    ensures
        tlv_search(p, pos) matches Some((start, len)) ==> 0 <= start && 0 <= len && start + len
            <= p.len(),
    decreases p.len() - pos,
{
    if pos >= 0 && pos + 3 <= p.len() {
        let tlv_len = p[pos + 2] as int;
        let start = pos + 3;
        if start + tlv_len <= p.len() {
            lemma_tlv_search_in_bounds(p, start + tlv_len);
        }
    }
}

/// The bytes of the tenant TLV value, if the scan from `offset` finds one.
pub open spec fn tenant_bytes(p: Seq<u8>, offset: int) -> Option<Seq<u8>> {
    match tlv_search(p, offset) {
        Some((start, len)) => Some(p.subrange(start, start + len)),
        None => None,
    }
}

/// The tenant identifier that a payload carries from `offset` on: the tenant
/// TLV's value, where it is valid UTF-8.
pub open spec fn tenant_spec(p: Seq<u8>, offset: int) -> Option<Seq<char>> {
    match tenant_bytes(p, offset) {
        Some(bytes) => if valid_utf8(bytes) {
            Some(decode_utf8(bytes))
        } else {
            None
        },
        None => None,
    }
}

/// Locates the value of the first tenant TLV at or after `offset`: its start
/// and its length within `payload`.
pub fn find_tenant_tlv(payload: &[u8], offset: usize) -> (r: Option<(usize, usize)>)
    ensures
        match r {
            Some((start, len)) => tlv_search(payload@, offset as int) == Some(
                (start as int, len as int),
            ),
            None => tlv_search(payload@, offset as int) is None,
        },
{
    let len: usize = payload.len();
    let mut pos: usize = offset;
    while pos <= len && len - pos >= 3
        invariant
            len == payload@.len(),
            tlv_search(payload@, offset as int) == tlv_search(payload@, pos as int),
        decreases len - pos,
    {
        let hi: u8 = payload[pos];
        let lo: u8 = payload[pos + 1];
        let tlv_type: u16 = (hi as u16) * 256 + lo as u16;
        let tlv_len: usize = payload[pos + 2] as usize;
        pos = pos + 3;
        if tlv_len > len - pos {
            return None;
        }
        if tlv_type == TENANT_TLV_TYPE {
            return Some((pos, tlv_len));
        }
        pos = pos + tlv_len;
    }
    None
}

#[verifier::external_type_specification]
#[verifier::external_body]
pub struct ExFromUtf8Error(std::string::FromUtf8Error);

/// `String::from_utf8`: a string holding the bytes when they are valid UTF-8,
/// an error otherwise.
#[verifier::external_body]
fn string_from_utf8(bytes: Vec<u8>) -> (r: Result<String, std::string::FromUtf8Error>)
    ensures
        r is Ok <==> valid_utf8(bytes@),
        r matches Ok(s) ==> s@ == decode_utf8(bytes@),
{
    String::from_utf8(bytes)
}

/// The tenant identifier carried by the TLVs of `payload` from `offset` on:
/// the value of the first tenant TLV, if it is valid UTF-8.
pub fn parse_tlvs(payload: &[u8], offset: usize) -> (r: Option<String>)
    ensures
        tenant_view(r) == tenant_spec(payload@, offset as int),
{
    let total: usize = payload.len();
    match find_tenant_tlv(payload, offset) {
        Some((start, len)) => {
            proof {
                lemma_tlv_search_in_bounds(payload@, offset as int);
                assert(start + len <= total);
            }
            let value = vstd::slice::slice_to_vec(vstd::slice::slice_subrange(payload, start, start + len));
            match string_from_utf8(value) {
                Ok(s) => Some(s),
                Err(_) => None,
            }
        },
        None => None,
    }
}

/// The bytes of a TLV: its type (two bytes, big-endian), the length of its
/// value (one byte) and the value.
pub open spec fn tlv_bytes(tlv_type: u16, value: Seq<u8>) -> Seq<u8> {
    seq![(tlv_type / 256) as u8, (tlv_type % 256) as u8, value.len() as u8] + value
}

/// The bytes of a list of TLVs, one after the other.
pub open spec fn tlvs_bytes(tlvs: Seq<(u16, Seq<u8>)>) -> Seq<u8>
    decreases tlvs.len(),
{
    if tlvs.len() == 0 {
        Seq::empty()
    } else {
        tlv_bytes(tlvs[0].0, tlvs[0].1) + tlvs_bytes(tlvs.drop_first())
    }
}

proof fn lemma_search_skips_other_tlvs(
    pre: Seq<u8>,
    tlvs: Seq<(u16, Seq<u8>)>,
    tail: Seq<u8>,
)
    requires
        forall|i: int|
            0 <= i < tlvs.len() ==> (#[trigger] tlvs[i]).0 != TENANT_TLV_TYPE && tlvs[i].1.len()
                < 256,
    ensures
        tlv_search(pre + tlvs_bytes(tlvs) + tail, pre.len() as int) == tlv_search(
            pre + tlvs_bytes(tlvs) + tail,
            (pre.len() + tlvs_bytes(tlvs).len()) as int,
        ),
    decreases tlvs.len(),
{
    if tlvs.len() > 0 {
        let t = tlvs[0].0;
        let v = tlvs[0].1;
        let first = tlv_bytes(t, v);
        let p = pre + tlvs_bytes(tlvs) + tail;
        assert(p =~= (pre + first) + tlvs_bytes(tlvs.drop_first()) + tail);
        assert forall|i: int| 0 <= i < tlvs.drop_first().len() implies (#[trigger] tlvs.drop_first()[i]).0
            != TENANT_TLV_TYPE && tlvs.drop_first()[i].1.len() < 256 by {
            assert(tlvs.drop_first()[i] == tlvs[i + 1]);
        }
        lemma_search_skips_other_tlvs(pre + first, tlvs.drop_first(), tail);
        let pos = pre.len() as int;
        assert(p[pos] == (t / 256) as u8);
        assert(p[pos + 1] == (t % 256) as u8);
        assert(p[pos + 2] == v.len() as u8);
        assert(be_pair(p[pos], p[pos + 1]) == t);
    }
}

/// A payload that carries, after an address block, TLVs of other types and
/// then a tenant TLV yields the tenant TLV's value, whatever follows it.
pub proof fn law_tenant_tlv_found(
    block: Seq<u8>,
    others: Seq<(u16, Seq<u8>)>,
    value: Seq<u8>,
    tail: Seq<u8>,
)
    requires
        forall|i: int|
            0 <= i < others.len() ==> (#[trigger] others[i]).0 != TENANT_TLV_TYPE
                && others[i].1.len() < 256,
        value.len() < 256,
    ensures
        tenant_bytes(
            block + tlvs_bytes(others) + tlv_bytes(TENANT_TLV_TYPE, value) + tail,
            block.len() as int,
        ) == Some(value),
{
    let tenant = tlv_bytes(TENANT_TLV_TYPE, value);
    let p = block + tlvs_bytes(others) + tenant + tail;
    assert(p =~= block + tlvs_bytes(others) + (tenant + tail));
    lemma_search_skips_other_tlvs(block, others, tenant + tail);
    let pos = (block.len() + tlvs_bytes(others).len()) as int;
    assert(p[pos] == 0);
    assert(p[pos + 1] == 0xE1);
    assert(p[pos + 2] == value.len() as u8);
    assert(p.subrange(pos + 3, pos + 3 + value.len()) =~= value);
}

/// A header whose payload is a complete address block of its IP family (12
/// bytes for TCP4/UDP4, 36 for TCP6/UDP6), then TLVs of other types, then a
/// tenant TLV with a UTF-8 value, decodes to that value as its tenant,
/// whatever follows: the TLV scan starts exactly at the end of the address
/// block. A PROXY command gives the source address of the block (IPv4 from
/// bytes 0..4 with the port in bytes 8..10, IPv6 from bytes 0..16 with the
/// port in bytes 32..34, in network order); a LOCAL command gives 0.0.0.0
/// port 0.
pub proof fn law_header_tenant_after_address_block(
    ver_cmd: u8,
    fam: u8,
    block: Seq<u8>,
    others: Seq<(u16, Seq<u8>)>,
    value: Seq<u8>,
    tail: Seq<u8>,
)
    requires
        fam == 0x11 || fam == 0x12 || fam == 0x21 || fam == 0x22,
        (fam == 0x11 || fam == 0x12) ==> block.len() == 12,
        (fam == 0x21 || fam == 0x22) ==> block.len() == 36,
        forall|i: int|
            0 <= i < others.len() ==> (#[trigger] others[i]).0 != TENANT_TLV_TYPE
                && others[i].1.len() < 256,
        value.len() < 256,
        valid_utf8(value),
    ensures
        header_spec(
            ver_cmd,
            fam,
            block + tlvs_bytes(others) + tlv_bytes(TENANT_TLV_TYPE, value) + tail,
        ) == Ok::<(SourceAddr, Option<Seq<char>>), ProxyError>(
            (
                if ver_cmd % 16 == 0 {
                    SourceAddr { ip: IpAddress::V4(0), port: 0 }
                } else if fam == 0x11 || fam == 0x12 {
                    SourceAddr {
                        ip: IpAddress::V4(be_value(block.subrange(0, 4)) as u32),
                        port: be_pair(block[8], block[9]) as u16,
                    }
                } else {
                    SourceAddr {
                        ip: IpAddress::V6(be_value(block.subrange(0, 16)) as u128),
                        port: be_pair(block[32], block[33]) as u16,
                    }
                },
                Some(decode_utf8(value)),
            ),
        ),
{
    let payload = block + tlvs_bytes(others) + tlv_bytes(TENANT_TLV_TYPE, value) + tail;
    law_tenant_tlv_found(block, others, value, tail);
    assert(address_len_spec(fam) == block.len());
    assert(payload.subrange(0, block.len() as int) =~= block);
    if fam == 0x11 || fam == 0x12 {
        lemma_be_value_pair(block.subrange(8, 10));
    } else {
        lemma_be_value_pair(block.subrange(32, 34));
    }
}

/// The source address reported for a LOCAL command: 0.0.0.0 port 0.
pub open spec fn unspecified_source() -> SourceAddr {
    SourceAddr { ip: IpAddress::V4(0), port: 0 }
}

/// A header as its source address and tenant characters.
pub open spec fn header_view(h: ProxyHeader) -> (SourceAddr, Option<Seq<char>>) {
    (h.src, tenant_view(h.tenant_id))
}

/// What a header with the given version/command byte, family byte and payload
/// decodes to. A LOCAL command carries no address; any other command must
/// carry a complete address block of an IP family.
pub open spec fn header_spec(ver_cmd: u8, fam: u8, payload: Seq<u8>) -> Result<
    (SourceAddr, Option<Seq<char>>),
    ProxyError,
> {
    let addr_len = address_len_spec(fam);
    if command_of(ver_cmd) == 0 {
        Ok((unspecified_source(), tenant_spec(payload, addr_len as int)))
    } else if payload.len() < addr_len {
        Err(ProxyError::AddressBlockTruncated)
    } else {
        match addresses_spec(fam, payload.subrange(0, addr_len as int)) {
            Ok(src) => Ok((src, tenant_spec(payload, addr_len as int))),
            Err(e) => Err(e),
        }
    }
}

/// The decoded form of a header result.
pub open spec fn header_result_view(r: Result<ProxyHeader, ProxyError>) -> Result<
    (SourceAddr, Option<Seq<char>>),
    ProxyError,
> {
    match r {
        Ok(h) => Ok(header_view(h)),
        Err(e) => Err(e),
    }
}

/// Decodes the part of a header after the length field.
pub fn decode_header(ver_cmd: u8, fam: u8, payload: &[u8]) -> (r: Result<ProxyHeader, ProxyError>)
    ensures
        header_result_view(r) == header_spec(ver_cmd, fam, payload@),
{
    let cmd: u8 = ver_cmd & 0x0F;
    assert(cmd == command_of(ver_cmd)) by (bit_vector)
        requires
            cmd == ver_cmd & 0x0F,
    ;
    let addr_len: usize = address_len(fam);
    if cmd == 0x00 {
        return Ok(
            ProxyHeader {
                src: SourceAddr { ip: IpAddress::V4(0), port: 0 },
                tenant_id: parse_tlvs(payload, addr_len),
            },
        );
    }
    if payload.len() < addr_len {
        return Err(ProxyError::AddressBlockTruncated);
    }
    let block = vstd::slice::slice_subrange(payload, 0, addr_len);
    let src = match parse_addresses(fam, block) {
        Ok(src) => src,
        Err(e) => {
            return Err(e);
        },
    };
    let tenant_id = parse_tlvs(payload, addr_len);
    Ok(ProxyHeader { src, tenant_id })
}

/// Where a header read stands: what the reader waits for next.
#[derive(PartialEq, Eq, Structural, Clone, Copy, Debug)]
pub enum ProxyHeaderReader {
    /// Waits for the 12 signature bytes.
    AwaitSignature,
    /// Waits for the version/command byte.
    AwaitVersion,
    /// Waits for the address family byte.
    AwaitFamily { ver_cmd: u8 },
    /// Waits for the two payload length bytes.
    AwaitLength { ver_cmd: u8, family: u8 },
    /// Waits for the payload.
    AwaitPayload { ver_cmd: u8, family: u8, len: usize },
    /// The read has ended.
    Finished,
}

/// What the stream reader does after handing over the bytes it read.
#[derive(Debug)]
pub enum ReadAction {
    /// Read exactly this many more bytes and hand them to the reader.
    ReadExact(usize),
    /// The stream does not start with a PROXY header; these are the bytes
    /// read from it, to be handed back so that the stream is read as if
    /// nothing had been taken from it.
    NotProxy(Vec<u8>),
    /// The header is complete.
    Complete(ProxyHeader),
    /// The header is malformed.
    Reject(ProxyError),
}

/// A read action, with the header as its source address and tenant characters.
pub enum ReadActionView {
    ReadExact(nat),
    NotProxy(Seq<u8>),
    Complete(SourceAddr, Option<Seq<char>>),
    Reject(ProxyError),
}

impl View for ReadAction {
    type V = ReadActionView;

    open spec fn view(&self) -> ReadActionView {
        match self {
            ReadAction::ReadExact(n) => ReadActionView::ReadExact(*n as nat),
            ReadAction::NotProxy(bytes) => ReadActionView::NotProxy(bytes@),
            ReadAction::Complete(h) => ReadActionView::Complete(h.src, tenant_view(h.tenant_id)),
            ReadAction::Reject(e) => ReadActionView::Reject(*e),
        }
    }
}

/// The action that ends a read with a decoded header or its rejection.
pub open spec fn finish_view(
    r: Result<(SourceAddr, Option<Seq<char>>), ProxyError>,
) -> ReadActionView {
    match r {
        Ok((src, tenant)) => ReadActionView::Complete(src, tenant),
        Err(e) => ReadActionView::Reject(e),
    }
}

impl ProxyHeaderReader {
    /// Whether the reader waits for exactly `n` bytes.
    pub open spec fn expects(self, n: nat) -> bool {
        match self {
            ProxyHeaderReader::AwaitSignature => n == 12,
            ProxyHeaderReader::AwaitVersion => n == 1,
            ProxyHeaderReader::AwaitFamily { .. } => n == 1,
            ProxyHeaderReader::AwaitLength { .. } => n == 2,
            ProxyHeaderReader::AwaitPayload { len, .. } => n == len,
            ProxyHeaderReader::Finished => false,
        }
    }

    /// The next reader and action after the bytes the reader waited for.
    pub open spec fn step(self, bytes: Seq<u8>) -> (ProxyHeaderReader, ReadActionView) {
        match self {
            ProxyHeaderReader::AwaitSignature => if bytes == signature() {
                (ProxyHeaderReader::AwaitVersion, ReadActionView::ReadExact(1))
            } else {
                (ProxyHeaderReader::Finished, ReadActionView::NotProxy(bytes))
            },
            ProxyHeaderReader::AwaitVersion => if version_of(bytes[0]) != 2 {
                (
                    ProxyHeaderReader::Finished,
                    ReadActionView::Reject(ProxyError::UnsupportedVersion(version_of(bytes[0]))),
                )
            } else {
                (ProxyHeaderReader::AwaitFamily { ver_cmd: bytes[0] }, ReadActionView::ReadExact(1))
            },
            ProxyHeaderReader::AwaitFamily { ver_cmd } => (
                ProxyHeaderReader::AwaitLength { ver_cmd, family: bytes[0] },
                ReadActionView::ReadExact(2),
            ),
            ProxyHeaderReader::AwaitLength { ver_cmd, family } => {
                let len = be_pair(bytes[0], bytes[1]);
                if len > 0 {
                    (
                        ProxyHeaderReader::AwaitPayload { ver_cmd, family, len: len as usize },
                        ReadActionView::ReadExact(len),
                    )
                } else {
                    (
                        ProxyHeaderReader::Finished,
                        finish_view(header_spec(ver_cmd, family, Seq::<u8>::empty())),
                    )
                }
            },
            ProxyHeaderReader::AwaitPayload { ver_cmd, family, .. } => (
                ProxyHeaderReader::Finished,
                finish_view(header_spec(ver_cmd, family, bytes)),
            ),
            ProxyHeaderReader::Finished => (
                ProxyHeaderReader::Finished,
                ReadActionView::NotProxy(Seq::empty()),
            ),
        }
    }

    /// A reader at the start of a stream, and the number of bytes to read first.
    pub fn start() -> (r: (ProxyHeaderReader, usize))
        ensures
            r.0 == ProxyHeaderReader::AwaitSignature,
            r.0.expects(r.1 as nat),
    {
        (ProxyHeaderReader::AwaitSignature, SIGNATURE_LEN)
    }

    /// Takes the bytes the reader waited for and says what to do next.
    pub fn advance(&mut self, bytes: &[u8]) -> (a: ReadAction)
        requires
            old(self).expects(bytes@.len()),
        ensures
            (*final(self), a@) == old(self).step(bytes@),
            a matches ReadAction::ReadExact(n) ==> final(self).expects(n as nat),
    {
        match *self {
            ProxyHeaderReader::AwaitSignature => {
                if is_signature(bytes) {
                    *self = ProxyHeaderReader::AwaitVersion;
                    ReadAction::ReadExact(1)
                } else {
                    *self = ProxyHeaderReader::Finished;
                    ReadAction::NotProxy(vstd::slice::slice_to_vec(bytes))
                }
            },
            ProxyHeaderReader::AwaitVersion => {
                let ver_cmd: u8 = bytes[0];
                let version: u8 = ver_cmd >> 4;
                assert(version == version_of(ver_cmd)) by (bit_vector)
                    requires
                        version == ver_cmd >> 4,
                ;
                if version != 2 {
                    *self = ProxyHeaderReader::Finished;
                    ReadAction::Reject(ProxyError::UnsupportedVersion(version))
                } else {
                    *self = ProxyHeaderReader::AwaitFamily { ver_cmd };
                    ReadAction::ReadExact(1)
                }
            },
            ProxyHeaderReader::AwaitFamily { ver_cmd } => {
                *self = ProxyHeaderReader::AwaitLength { ver_cmd, family: bytes[0] };
                ReadAction::ReadExact(2)
            },
            ProxyHeaderReader::AwaitLength { ver_cmd, family } => {
                let len: usize = (bytes[0] as usize) * 256 + bytes[1] as usize;
                if len > 0 {
                    *self = ProxyHeaderReader::AwaitPayload { ver_cmd, family, len };
                    ReadAction::ReadExact(len)
                } else {
                    *self = ProxyHeaderReader::Finished;
                    let empty: [u8; 0] = [];
                    proof {
                        assert(empty@ =~= Seq::<u8>::empty());
                    }
                    match decode_header(ver_cmd, family, &empty) {
                        Ok(h) => ReadAction::Complete(h),
                        Err(e) => ReadAction::Reject(e),
                    }
                }
            },
            ProxyHeaderReader::AwaitPayload { ver_cmd, family, .. } => {
                *self = ProxyHeaderReader::Finished;
                match decode_header(ver_cmd, family, bytes) {
                    Ok(h) => ReadAction::Complete(h),
                    Err(e) => ReadAction::Reject(e),
                }
            },
            ProxyHeaderReader::Finished => ReadAction::NotProxy(Vec::new()),
        }
    }
}

} // verus!
