//! The DNS values that pipeline handlers read and produce: record types,
//! records, lookup results and the control flow of a handler chain.
use vstd::prelude::*;
use vstd::string::*;

use crate::proxy_protocol::SourceAddr;

verus! {

/// A DNS record type by its numeric code.
#[derive(PartialEq, Eq, Structural, Clone, Copy, Debug, Hash)]
pub struct RecordType(pub u16);

/// A resource record; handlers only change its TTL.
#[derive(Debug)]
pub struct Record {
    /// Owner name, in presentation form.
    pub name: String,
    /// Record type.
    pub record_type: RecordType,
    /// Time to live, in seconds.
    pub ttl: u32,
    /// Record data, in wire form.
    pub rdata: Vec<u8>,
}

/// A record as values: owner name, type, TTL and data.
pub struct RecordView {
    pub name: Seq<char>,
    pub record_type: RecordType,
    pub ttl: u32,
    pub rdata: Seq<u8>,
}

impl View for Record {
    type V = RecordView;

    open spec fn view(&self) -> RecordView {
        RecordView {
            name: self.name@,
            record_type: self.record_type,
            ttl: self.ttl,
            rdata: self.rdata@,
        }
    }
}

/// The values of a list of records.
pub open spec fn records_view(rs: Seq<Record>) -> Seq<RecordView> {
    rs.map_values(|r: Record| r@)
}

/// The answer of a zone handler.
#[derive(Debug)]
pub enum AuthLookup {
    /// No records.
    Empty,
    /// Answer records, with optional additional records.
    Records { answers: Vec<Record>, additionals: Option<Vec<Record>> },
    /// The SOA record of the zone, as a negative answer.
    Soa(Vec<Record>),
}

/// A lookup answer as values.
pub enum AuthLookupView {
    Empty,
    Records { answers: Seq<RecordView>, additionals: Option<Seq<RecordView>> },
    Soa(Seq<RecordView>),
}

impl View for AuthLookup {
    type V = AuthLookupView;

    open spec fn view(&self) -> AuthLookupView {
        match self {
            AuthLookup::Empty => AuthLookupView::Empty,
            AuthLookup::Records { answers, additionals } => AuthLookupView::Records {
                answers: records_view(answers@),
                additionals: match additionals {
                    Some(a) => Some(records_view(a@)),
                    None => None,
                },
            },
            AuthLookup::Soa(rs) => AuthLookupView::Soa(records_view(rs@)),
        }
    }
}

/// The records that iterating over an answer yields: the answer records, or
/// the SOA records of a negative answer.
pub open spec fn answer_records(l: AuthLookupView) -> Seq<RecordView> {
    match l {
        AuthLookupView::Empty => Seq::empty(),
        AuthLookupView::Records { answers, .. } => answers,
        AuthLookupView::Soa(rs) => rs,
    }
}

/// DNS response codes that handlers answer with.
#[derive(PartialEq, Eq, Structural, Clone, Copy, Debug)]
pub enum ResponseCode {
    NoError,
    FormErr,
    ServFail,
    NXDomain,
    NotImp,
    Refused,
}

/// Why a lookup failed.
#[derive(Debug)]
pub enum LookupError {
    /// The query is answered with this response code.
    ResponseCode(ResponseCode),
    /// An input/output failure, with its message.
    Io(String),
}

/// A lookup error as values.
pub enum LookupErrorView {
    ResponseCode(ResponseCode),
    Io(Seq<char>),
}

impl View for LookupError {
    type V = LookupErrorView;

    open spec fn view(&self) -> LookupErrorView {
        match self {
            LookupError::ResponseCode(c) => LookupErrorView::ResponseCode(*c),
            LookupError::Io(msg) => LookupErrorView::Io(msg@),
        }
    }
}

/// A lookup result as values.
pub open spec fn result_view(r: Result<AuthLookup, LookupError>) -> Result<
    AuthLookupView,
    LookupErrorView,
> {
    match r {
        Ok(l) => Ok(l@),
        Err(e) => Err(e@),
    }
}

/// A handler's control flow as values.
pub enum FlowView {
    Continue(Result<AuthLookupView, LookupErrorView>),
    Break(Result<AuthLookupView, LookupErrorView>),
    Skip,
}

impl View for LookupControlFlow {
    type V = FlowView;

    open spec fn view(&self) -> FlowView {
        match self {
            LookupControlFlow::Continue(r) => FlowView::Continue(result_view(*r)),
            LookupControlFlow::Break(r) => FlowView::Break(result_view(*r)),
            LookupControlFlow::Skip => FlowView::Skip,
        }
    }
}

/// What a handler tells the chain after a lookup.
#[derive(Debug)]
pub enum LookupControlFlow {
    /// A result; later handlers may still be consulted.
    Continue(Result<AuthLookup, LookupError>),
    /// A final result; the chain stops here.
    Break(Result<AuthLookup, LookupError>),
    /// No result; the next handler is asked.
    Skip,
}

/// What a handler knows about the request: the client address (from the
/// connection or its PROXY header) and the tenant identifier, if any.
#[derive(Debug)]
pub struct RequestInfo {
    pub src: SourceAddr,
    pub tenant_id: Option<String>,
}

/// Configuration of an upstream forwarder: the name servers it asks, as
/// addresses in text form.
#[derive(Clone, Debug, PartialEq, Eq)]
pub struct ForwardConfig {
    pub name_servers: Vec<String>,
}

/// The kind of zone a handler serves.
#[derive(PartialEq, Eq, Structural, Clone, Copy, Debug)]
pub enum ZoneType {
    Primary,
    Secondary,
    External,
}

/// Whether zone transfers are allowed.
#[derive(PartialEq, Eq, Structural, Clone, Copy, Debug)]
pub enum AxfrPolicy {
    Deny,
    AllowAll,
}

/// The flow that refuses a query.
pub open spec fn refused() -> LookupControlFlow {
    LookupControlFlow::Break(Err(LookupError::ResponseCode(ResponseCode::Refused)))
}

/// Whether a flow is the refusal of a query.
pub open spec fn is_refused(f: LookupControlFlow) -> bool {
    f matches LookupControlFlow::Break(Err(LookupError::ResponseCode(ResponseCode::Refused)))
}

/// The answer of pipeline handlers to an NSEC query: a continuing input/output
/// error, since they hold no NSEC records.
pub fn unimplemented_nsec() -> (r: LookupControlFlow)
    ensures
        r matches LookupControlFlow::Continue(Err(LookupError::Io(msg))) && msg@
            == "NSEC records are unimplemented for pipeline handlers"@,
{
    LookupControlFlow::Continue(
        Err(LookupError::Io(String::from_str("NSEC records are unimplemented for pipeline handlers"))),
    )
}

/// The answer of pipeline handlers to an NSEC3 query: a continuing
/// input/output error, since they hold no NSEC3 records.
pub fn unimplemented_nsec3() -> (r: LookupControlFlow)
    ensures
        r matches LookupControlFlow::Continue(Err(LookupError::Io(msg))) && msg@
            == "NSEC3 records are unimplemented for pipeline handlers"@,
{
    LookupControlFlow::Continue(
        Err(LookupError::Io(String::from_str("NSEC3 records are unimplemented for pipeline handlers"))),
    )
}

/// The record type that a mnemonic names (names are case-sensitive; `*`
/// stands for ANY).
pub open spec fn record_type_code(name: Seq<char>) -> Option<u16> {
    if name == "A"@ {
        Some(1)
    } else if name == "AAAA"@ {
        Some(28)
    } else if name == "ANAME"@ {
        Some(65305)
    } else if name == "ANY"@ || name == "*"@ {
        Some(255)
    } else if name == "AXFR"@ {
        Some(252)
    } else if name == "CAA"@ {
        Some(257)
    } else if name == "CDNSKEY"@ {
        Some(60)
    } else if name == "CDS"@ {
        Some(59)
    } else if name == "CERT"@ {
        Some(37)
    } else if name == "CNAME"@ {
        Some(5)
    } else if name == "CSYNC"@ {
        Some(62)
    } else if name == "DNSKEY"@ {
        Some(48)
    } else if name == "DS"@ {
        Some(43)
    } else if name == "HINFO"@ {
        Some(13)
    } else if name == "HTTPS"@ {
        Some(65)
    } else if name == "IXFR"@ {
        Some(251)
    } else if name == "KEY"@ {
        Some(25)
    } else if name == "MX"@ {
        Some(15)
    } else if name == "NAPTR"@ {
        Some(35)
    } else if name == "NS"@ {
        Some(2)
    } else if name == "NSEC"@ {
        Some(47)
    } else if name == "NSEC3"@ {
        Some(50)
    } else if name == "NSEC3PARAM"@ {
        Some(51)
    } else if name == "NULL"@ {
        Some(10)
    } else if name == "OPENPGPKEY"@ {
        Some(61)
    } else if name == "OPT"@ {
        Some(41)
    } else if name == "PTR"@ {
        Some(12)
    } else if name == "RRSIG"@ {
        Some(46)
    } else if name == "SIG"@ {
        Some(24)
    } else if name == "SOA"@ {
        Some(6)
    } else if name == "SRV"@ {
        Some(33)
    } else if name == "SSHFP"@ {
        Some(44)
    } else if name == "SVCB"@ {
        Some(64)
    } else if name == "TLSA"@ {
        Some(52)
    } else if name == "TSIG"@ {
        Some(250)
    } else if name == "TXT"@ {
        Some(16)
    } else {
        None
    }
}

/// Each supported mnemonic names its IANA-registered type code (ANAME has the
/// private-use code 65305; `*` is ANY), and a few names outside the table,
/// such as lower-case ones, name no type.
pub proof fn law_record_type_codes()
    ensures
        record_type_code("A"@) == Some(1u16),
        record_type_code("AAAA"@) == Some(28u16),
        record_type_code("ANAME"@) == Some(65305u16),
        record_type_code("ANY"@) == Some(255u16),
        record_type_code("*"@) == Some(255u16),
        record_type_code("AXFR"@) == Some(252u16),
        record_type_code("CAA"@) == Some(257u16),
        record_type_code("CDNSKEY"@) == Some(60u16),
        record_type_code("CDS"@) == Some(59u16),
        record_type_code("CERT"@) == Some(37u16),
        record_type_code("CNAME"@) == Some(5u16),
        record_type_code("CSYNC"@) == Some(62u16),
        record_type_code("DNSKEY"@) == Some(48u16),
        record_type_code("DS"@) == Some(43u16),
        record_type_code("HINFO"@) == Some(13u16),
        record_type_code("HTTPS"@) == Some(65u16),
        record_type_code("IXFR"@) == Some(251u16),
        record_type_code("KEY"@) == Some(25u16),
        record_type_code("MX"@) == Some(15u16),
        record_type_code("NAPTR"@) == Some(35u16),
        record_type_code("NS"@) == Some(2u16),
        record_type_code("NSEC"@) == Some(47u16),
        record_type_code("NSEC3"@) == Some(50u16),
        record_type_code("NSEC3PARAM"@) == Some(51u16),
        record_type_code("NULL"@) == Some(10u16),
        record_type_code("OPENPGPKEY"@) == Some(61u16),
        record_type_code("OPT"@) == Some(41u16),
        record_type_code("PTR"@) == Some(12u16),
        record_type_code("RRSIG"@) == Some(46u16),
        record_type_code("SIG"@) == Some(24u16),
        record_type_code("SOA"@) == Some(6u16),
        record_type_code("SRV"@) == Some(33u16),
        record_type_code("SSHFP"@) == Some(44u16),
        record_type_code("SVCB"@) == Some(64u16),
        record_type_code("TLSA"@) == Some(52u16),
        record_type_code("TSIG"@) == Some(250u16),
        record_type_code("TXT"@) == Some(16u16),
        record_type_code("a"@) is None,
        record_type_code("https"@) is None,
        record_type_code("HTTP"@) is None,
        record_type_code(Seq::<char>::empty()) is None,
{
    reveal_strlit("A");
    assert("A"@.len() == 1);
    reveal_strlit("AAAA");
    assert("AAAA"@.len() == 4);
    reveal_strlit("ANAME");
    assert("ANAME"@.len() == 5);
    reveal_strlit("ANY");
    assert("ANY"@.len() == 3);
    reveal_strlit("*");
    assert("*"@.len() == 1);
    reveal_strlit("AXFR");
    assert("AXFR"@.len() == 4);
    reveal_strlit("CAA");
    assert("CAA"@.len() == 3);
    reveal_strlit("CDNSKEY");
    assert("CDNSKEY"@.len() == 7);
    reveal_strlit("CDS");
    assert("CDS"@.len() == 3);
    reveal_strlit("CERT");
    assert("CERT"@.len() == 4);
    reveal_strlit("CNAME");
    assert("CNAME"@.len() == 5);
    reveal_strlit("CSYNC");
    assert("CSYNC"@.len() == 5);
    reveal_strlit("DNSKEY");
    assert("DNSKEY"@.len() == 6);
    reveal_strlit("DS");
    assert("DS"@.len() == 2);
    reveal_strlit("HINFO");
    assert("HINFO"@.len() == 5);
    reveal_strlit("HTTPS");
    assert("HTTPS"@.len() == 5);
    reveal_strlit("IXFR");
    assert("IXFR"@.len() == 4);
    reveal_strlit("KEY");
    assert("KEY"@.len() == 3);
    reveal_strlit("MX");
    assert("MX"@.len() == 2);
    reveal_strlit("NAPTR");
    assert("NAPTR"@.len() == 5);
    reveal_strlit("NS");
    assert("NS"@.len() == 2);
    reveal_strlit("NSEC");
    assert("NSEC"@.len() == 4);
    reveal_strlit("NSEC3");
    assert("NSEC3"@.len() == 5);
    reveal_strlit("NSEC3PARAM");
    assert("NSEC3PARAM"@.len() == 10);
    reveal_strlit("NULL");
    assert("NULL"@.len() == 4);
    reveal_strlit("OPENPGPKEY");
    assert("OPENPGPKEY"@.len() == 10);
    reveal_strlit("OPT");
    assert("OPT"@.len() == 3);
    reveal_strlit("PTR");
    assert("PTR"@.len() == 3);
    reveal_strlit("RRSIG");
    assert("RRSIG"@.len() == 5);
    reveal_strlit("SIG");
    assert("SIG"@.len() == 3);
    reveal_strlit("SOA");
    assert("SOA"@.len() == 3);
    reveal_strlit("SRV");
    assert("SRV"@.len() == 3);
    reveal_strlit("SSHFP");
    assert("SSHFP"@.len() == 5);
    reveal_strlit("SVCB");
    assert("SVCB"@.len() == 4);
    reveal_strlit("TLSA");
    assert("TLSA"@.len() == 4);
    reveal_strlit("TSIG");
    assert("TSIG"@.len() == 4);
    reveal_strlit("TXT");
    assert("TXT"@.len() == 3);
    reveal_strlit("a");
    assert("a"@.len() == 1);
    reveal_strlit("https");
    assert("https"@.len() == 5);
    reveal_strlit("HTTP");
    assert("HTTP"@.len() == 4);
    assert("*"@[0] != "A"@[0]);
    assert("AXFR"@[1] != "AAAA"@[1]);
    assert("CAA"@[0] != "ANY"@[0]);
    assert("CDS"@[0] != "ANY"@[0]);
    assert("CDS"@[1] != "CAA"@[1]);
    assert("CERT"@[0] != "AAAA"@[0]);
    assert("CERT"@[0] != "AXFR"@[0]);
    assert("CNAME"@[0] != "ANAME"@[0]);
    assert("CSYNC"@[0] != "ANAME"@[0]);
    assert("CSYNC"@[1] != "CNAME"@[1]);
    assert("HINFO"@[0] != "ANAME"@[0]);
    assert("HINFO"@[0] != "CNAME"@[0]);
    assert("HINFO"@[0] != "CSYNC"@[0]);
    assert("HTTPS"@[0] != "ANAME"@[0]);
    assert("HTTPS"@[0] != "CNAME"@[0]);
    assert("HTTPS"@[0] != "CSYNC"@[0]);
    assert("HTTPS"@[1] != "HINFO"@[1]);
    assert("IXFR"@[0] != "AAAA"@[0]);
    assert("IXFR"@[0] != "AXFR"@[0]);
    assert("IXFR"@[0] != "CERT"@[0]);
    assert("KEY"@[0] != "ANY"@[0]);
    assert("KEY"@[0] != "CAA"@[0]);
    assert("KEY"@[0] != "CDS"@[0]);
    assert("MX"@[0] != "DS"@[0]);
    assert("NAPTR"@[0] != "ANAME"@[0]);
    assert("NAPTR"@[0] != "CNAME"@[0]);
    assert("NAPTR"@[0] != "CSYNC"@[0]);
    assert("NAPTR"@[0] != "HINFO"@[0]);
    assert("NAPTR"@[0] != "HTTPS"@[0]);
    assert("NS"@[0] != "DS"@[0]);
    assert("NS"@[0] != "MX"@[0]);
    assert("NSEC"@[0] != "AAAA"@[0]);
    assert("NSEC"@[0] != "AXFR"@[0]);
    assert("NSEC"@[0] != "CERT"@[0]);
    assert("NSEC"@[0] != "IXFR"@[0]);
    assert("NSEC3"@[0] != "ANAME"@[0]);
    assert("NSEC3"@[0] != "CNAME"@[0]);
    assert("NSEC3"@[0] != "CSYNC"@[0]);
    assert("NSEC3"@[0] != "HINFO"@[0]);
    assert("NSEC3"@[0] != "HTTPS"@[0]);
    assert("NSEC3"@[1] != "NAPTR"@[1]);
    assert("NULL"@[0] != "AAAA"@[0]);
    assert("NULL"@[0] != "AXFR"@[0]);
    assert("NULL"@[0] != "CERT"@[0]);
    assert("NULL"@[0] != "IXFR"@[0]);
    assert("NULL"@[1] != "NSEC"@[1]);
    assert("OPENPGPKEY"@[0] != "NSEC3PARAM"@[0]);
    assert("OPT"@[0] != "ANY"@[0]);
    assert("OPT"@[0] != "CAA"@[0]);
    assert("OPT"@[0] != "CDS"@[0]);
    assert("OPT"@[0] != "KEY"@[0]);
    assert("PTR"@[0] != "ANY"@[0]);
    assert("PTR"@[0] != "CAA"@[0]);
    assert("PTR"@[0] != "CDS"@[0]);
    assert("PTR"@[0] != "KEY"@[0]);
    assert("PTR"@[0] != "OPT"@[0]);
    assert("RRSIG"@[0] != "ANAME"@[0]);
    assert("RRSIG"@[0] != "CNAME"@[0]);
    assert("RRSIG"@[0] != "CSYNC"@[0]);
    assert("RRSIG"@[0] != "HINFO"@[0]);
    assert("RRSIG"@[0] != "HTTPS"@[0]);
    assert("RRSIG"@[0] != "NAPTR"@[0]);
    assert("RRSIG"@[0] != "NSEC3"@[0]);
    assert("SIG"@[0] != "ANY"@[0]);
    assert("SIG"@[0] != "CAA"@[0]);
    assert("SIG"@[0] != "CDS"@[0]);
    assert("SIG"@[0] != "KEY"@[0]);
    assert("SIG"@[0] != "OPT"@[0]);
    assert("SIG"@[0] != "PTR"@[0]);
    assert("SOA"@[0] != "ANY"@[0]);
    assert("SOA"@[0] != "CAA"@[0]);
    assert("SOA"@[0] != "CDS"@[0]);
    assert("SOA"@[0] != "KEY"@[0]);
    assert("SOA"@[0] != "OPT"@[0]);
    assert("SOA"@[0] != "PTR"@[0]);
    assert("SOA"@[1] != "SIG"@[1]);
    assert("SRV"@[0] != "ANY"@[0]);
    assert("SRV"@[0] != "CAA"@[0]);
    assert("SRV"@[0] != "CDS"@[0]);
    assert("SRV"@[0] != "KEY"@[0]);
    assert("SRV"@[0] != "OPT"@[0]);
    assert("SRV"@[0] != "PTR"@[0]);
    assert("SRV"@[1] != "SIG"@[1]);
    assert("SRV"@[1] != "SOA"@[1]);
    assert("SSHFP"@[0] != "ANAME"@[0]);
    assert("SSHFP"@[0] != "CNAME"@[0]);
    assert("SSHFP"@[0] != "CSYNC"@[0]);
    assert("SSHFP"@[0] != "HINFO"@[0]);
    assert("SSHFP"@[0] != "HTTPS"@[0]);
    assert("SSHFP"@[0] != "NAPTR"@[0]);
    assert("SSHFP"@[0] != "NSEC3"@[0]);
    assert("SSHFP"@[0] != "RRSIG"@[0]);
    assert("SVCB"@[0] != "AAAA"@[0]);
    assert("SVCB"@[0] != "AXFR"@[0]);
    assert("SVCB"@[0] != "CERT"@[0]);
    assert("SVCB"@[0] != "IXFR"@[0]);
    assert("SVCB"@[0] != "NSEC"@[0]);
    assert("SVCB"@[0] != "NULL"@[0]);
    assert("TLSA"@[0] != "AAAA"@[0]);
    assert("TLSA"@[0] != "AXFR"@[0]);
    assert("TLSA"@[0] != "CERT"@[0]);
    assert("TLSA"@[0] != "IXFR"@[0]);
    assert("TLSA"@[0] != "NSEC"@[0]);
    assert("TLSA"@[0] != "NULL"@[0]);
    assert("TLSA"@[0] != "SVCB"@[0]);
    assert("TSIG"@[0] != "AAAA"@[0]);
    assert("TSIG"@[0] != "AXFR"@[0]);
    assert("TSIG"@[0] != "CERT"@[0]);
    assert("TSIG"@[0] != "IXFR"@[0]);
    assert("TSIG"@[0] != "NSEC"@[0]);
    assert("TSIG"@[0] != "NULL"@[0]);
    assert("TSIG"@[0] != "SVCB"@[0]);
    assert("TSIG"@[1] != "TLSA"@[1]);
    assert("TXT"@[0] != "ANY"@[0]);
    assert("TXT"@[0] != "CAA"@[0]);
    assert("TXT"@[0] != "CDS"@[0]);
    assert("TXT"@[0] != "KEY"@[0]);
    assert("TXT"@[0] != "OPT"@[0]);
    assert("TXT"@[0] != "PTR"@[0]);
    assert("TXT"@[0] != "SIG"@[0]);
    assert("TXT"@[0] != "SOA"@[0]);
    assert("TXT"@[0] != "SRV"@[0]);
    assert("a"@[0] != "A"@[0]);
    assert("a"@[0] != "*"@[0]);
    assert("https"@[0] != "ANAME"@[0]);
    assert("https"@[0] != "CNAME"@[0]);
    assert("https"@[0] != "CSYNC"@[0]);
    assert("https"@[0] != "HINFO"@[0]);
    assert("https"@[0] != "HTTPS"@[0]);
    assert("https"@[0] != "NAPTR"@[0]);
    assert("https"@[0] != "NSEC3"@[0]);
    assert("https"@[0] != "RRSIG"@[0]);
    assert("https"@[0] != "SSHFP"@[0]);
    assert("HTTP"@[0] != "AAAA"@[0]);
    assert("HTTP"@[0] != "AXFR"@[0]);
    assert("HTTP"@[0] != "CERT"@[0]);
    assert("HTTP"@[0] != "IXFR"@[0]);
    assert("HTTP"@[0] != "NSEC"@[0]);
    assert("HTTP"@[0] != "NULL"@[0]);
    assert("HTTP"@[0] != "SVCB"@[0]);
    assert("HTTP"@[0] != "TLSA"@[0]);
    assert("HTTP"@[0] != "TSIG"@[0]);
}

fn named(name: &String, mnemonic: &str) -> (r: bool)
    ensures
        r == (name@ == mnemonic@),
{
    *name == String::from_str(mnemonic)
}

/// Parses a record type mnemonic.
pub fn parse_record_type(name: &String) -> (r: Option<RecordType>)
    ensures
        match record_type_code(name@) {
            Some(code) => r == Some(RecordType(code)),
            None => r is None,
        },
{
    let code: u16 = if named(name, "A") {
        1
    } else if named(name, "AAAA") {
        28
    } else if named(name, "ANAME") {
        65305
    } else if named(name, "ANY") || named(name, "*") {
        255
    } else if named(name, "AXFR") {
        252
    } else if named(name, "CAA") {
        257
    } else if named(name, "CDNSKEY") {
        60
    } else if named(name, "CDS") {
        59
    } else if named(name, "CERT") {
        37
    } else if named(name, "CNAME") {
        5
    } else if named(name, "CSYNC") {
        62
    } else if named(name, "DNSKEY") {
        48
    } else if named(name, "DS") {
        43
    } else if named(name, "HINFO") {
        13
    } else if named(name, "HTTPS") {
        65
    } else if named(name, "IXFR") {
        251
    } else if named(name, "KEY") {
        25
    } else if named(name, "MX") {
        15
    } else if named(name, "NAPTR") {
        35
    } else if named(name, "NS") {
        2
    } else if named(name, "NSEC") {
        47
    } else if named(name, "NSEC3") {
        50
    } else if named(name, "NSEC3PARAM") {
        51
    } else if named(name, "NULL") {
        10
    } else if named(name, "OPENPGPKEY") {
        61
    } else if named(name, "OPT") {
        41
    } else if named(name, "PTR") {
        12
    } else if named(name, "RRSIG") {
        46
    } else if named(name, "SIG") {
        24
    } else if named(name, "SOA") {
        6
    } else if named(name, "SRV") {
        33
    } else if named(name, "SSHFP") {
        44
    } else if named(name, "SVCB") {
        64
    } else if named(name, "TLSA") {
        52
    } else if named(name, "TSIG") {
        250
    } else if named(name, "TXT") {
        16
    } else {
        return None;
    };
    Some(RecordType(code))
}

} // verus!
