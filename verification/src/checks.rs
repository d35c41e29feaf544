//! Verdicts of the health probes. The probes themselves (connecting,
//! sending requests, running commands) happen outside the library; these
//! functions decide what is sent and what the answers mean.

use vstd::prelude::*;
use crate::config::DnsQuery;
use crate::text::same_text;

verus! {

// ---------------------------------------------------------------- HTTP

/// An HTTP check is healthy when a response arrived (`status` is its code)
/// and its status code is the expected one; a request that failed
/// (`None`) is unhealthy.
pub fn http_verdict(status: Option<u16>, expect_status: u16) -> (healthy: bool)
    ensures
        healthy == (status == Some(expect_status)),
{
    match status {
        Some(code) => code == expect_status,
        None => false,
    }
}

// ---------------------------------------------------------------- Exec

/// An exec check is healthy when the command ran to completion with exit
/// code 0; a command that could not run, timed out or was killed by a
/// signal (`None`) is unhealthy.
pub fn exec_verdict(exit_code: Option<i32>) -> (healthy: bool)
    ensures
        healthy == (exit_code == Some(0i32)),
{
    match exit_code {
        Some(code) => code == 0,
        None => false,
    }
}

// ---------------------------------------------------------------- NTP

/// Size of an NTP packet without extensions.
pub const NTP_PACKET_SIZE: usize = 48;

/// The first byte of a client request: leap indicator 0, version 4,
/// mode 3 (client).
pub const NTP_CLIENT_HEADER: u8 = 0x23;

/// A minimal NTPv4 client request: the header byte, then zeros.
pub fn ntp_request() -> (request: Vec<u8>)
    ensures
        request@.len() == NTP_PACKET_SIZE,
        request@[0] == NTP_CLIENT_HEADER,
        forall|i: int| 1 <= i < NTP_PACKET_SIZE ==> #[trigger] request@[i] == 0,
{
    let mut request: Vec<u8> = Vec::new();
    request.push(NTP_CLIENT_HEADER);
    for i in 1..NTP_PACKET_SIZE
        invariant
            request@.len() == i,
            request@[0] == NTP_CLIENT_HEADER,
            forall|j: int| 1 <= j < i ==> #[trigger] request@[j] == 0,
    {
        request.push(0);
    }
    request
}

/// Whether an NTP reply shows an acceptable server: a full-size packet
/// whose stratum (second byte) is at least 1 and at most `max_stratum`.
/// Stratum 0 (kiss-o'-death) never passes.
pub open spec fn ntp_reply_acceptable(response: Seq<u8>, max_stratum: u8) -> bool {
    &&& response.len() >= NTP_PACKET_SIZE
    &&& response[1] != 0
    &&& response[1] <= max_stratum
}

/// Stratum law: a reply of at least 48 bytes is acceptable exactly when
/// its stratum byte lies between 1 and `max_stratum`, inclusive; a shorter
/// reply never is.
pub proof fn ntp_stratum_law(response: Seq<u8>, max_stratum: u8)
    ensures
        response.len() >= 48 ==> (ntp_reply_acceptable(response, max_stratum) <==> (1 <= response[1]
            && response[1] <= max_stratum)),
        response.len() < 48 ==> !ntp_reply_acceptable(response, max_stratum),
{
}

/// Judges the bytes received in answer to `ntp_request`.
pub fn ntp_verdict(response: &[u8], max_stratum: u8) -> (healthy: bool)
    ensures
        healthy == ntp_reply_acceptable(response@, max_stratum),
        response@.len() >= 48 ==> (healthy <==> (1 <= response@[1] && response@[1] <= max_stratum)),
        response@.len() < 48 ==> !healthy,
{
    if response.len() < NTP_PACKET_SIZE {
        return false;
    }
    let stratum = response[1];
    stratum != 0 && stratum <= max_stratum
}

// ---------------------------------------------------------------- DNS

/// The DNS record types a query may ask for.
#[derive(Clone, Copy, Debug, PartialEq, Eq, Structural)]
pub enum RecordType {
    A,
    AAAA,
    MX,
    TXT,
    CNAME,
    NS,
    SOA,
    SRV,
    PTR,
}

/// The record type a configured type name stands for, if any.
pub open spec fn record_kind_named(t: Seq<char>) -> Option<RecordType> {
    if t == "A"@ {
        Some(RecordType::A)
    } else if t == "AAAA"@ {
        Some(RecordType::AAAA)
    } else if t == "MX"@ {
        Some(RecordType::MX)
    } else if t == "TXT"@ {
        Some(RecordType::TXT)
    } else if t == "CNAME"@ {
        Some(RecordType::CNAME)
    } else if t == "NS"@ {
        Some(RecordType::NS)
    } else if t == "SOA"@ {
        Some(RecordType::SOA)
    } else if t == "SRV"@ {
        Some(RecordType::SRV)
    } else if t == "PTR"@ {
        Some(RecordType::PTR)
    } else {
        None
    }
}

impl RecordType {
    /// Reads a configured record type name (case-sensitive).
    pub fn from_name(t: &str) -> (r: Option<RecordType>)
        ensures
            r == record_kind_named(t@),
    {
        if same_text(t, "A") {
            Some(RecordType::A)
        } else if same_text(t, "AAAA") {
            Some(RecordType::AAAA)
        } else if same_text(t, "MX") {
            Some(RecordType::MX)
        } else if same_text(t, "TXT") {
            Some(RecordType::TXT)
        } else if same_text(t, "CNAME") {
            Some(RecordType::CNAME)
        } else if same_text(t, "NS") {
            Some(RecordType::NS)
        } else if same_text(t, "SOA") {
            Some(RecordType::SOA)
        } else if same_text(t, "SRV") {
            Some(RecordType::SRV)
        } else if same_text(t, "PTR") {
            Some(RecordType::PTR)
        } else {
            None
        }
    }

    /// Address records (`A`, `AAAA`) are resolved with an address lookup;
    /// every other type with a generic record lookup.
    pub fn uses_address_lookup(&self) -> (r: bool)
        ensures
            r == (*self == RecordType::A || *self == RecordType::AAAA),
    {
        match self {
            RecordType::A | RecordType::AAAA => true,
            _ => false,
        }
    }
}

/// The query sent when a DNS check lists none.
pub open spec fn fallback_query() -> (Seq<char>, Seq<char>) {
    ("google.com."@, "A"@)
}

/// The queries a DNS check sends, as (name, record type name) pairs: the
/// configured ones in order, or the single fallback query when none is
/// configured.
pub fn dns_plan(queries: &Vec<DnsQuery>) -> (plan: Vec<(String, String)>)
    ensures
        queries@.len() == 0 ==> plan@.len() == 1 && (plan@[0].0@, plan@[0].1@) == fallback_query(),
        queries@.len() > 0 ==> plan@.len() == queries@.len() && forall|i: int|
            #![trigger plan@[i]]
            0 <= i < plan@.len() ==> plan@[i].0@ == queries@[i].name@ && plan@[i].1@
                == queries@[i].record_type@,
{
    let mut plan: Vec<(String, String)> = Vec::new();
    if queries.len() == 0 {
        plan.push((String::from_str("google.com."), String::from_str("A")));
        return plan;
    }
    let n = queries.len();
    for i in 0..n
        invariant
            n == queries@.len(),
            plan@.len() == i,
            forall|j: int|
                #![trigger plan@[j]]
                0 <= j < i ==> plan@[j].0@ == queries@[j].name@ && plan@[j].1@
                    == queries@[j].record_type@,
    {
        let name = queries[i].name.clone();
        let kind_name = queries[i].record_type.clone();
        plan.push((name, kind_name));
        assert(plan@[i as int].0@ == queries@[i as int].name@);
    }
    plan
}

/// What a DNS check does next.
#[derive(Debug)]
pub enum DnsStep {
    /// Resolve `name` for records of `record_type`.
    Lookup { name: String, record_type: RecordType },
    /// The check is over with this verdict.
    Finished(bool),
    /// The next query names a record type that is not supported; the check
    /// ends in an error naming it.
    Unsupported(String),
}

/// Given the plan and the outcomes of the lookups made so far (in order),
/// decides the next step: the first failed lookup ends the check
/// unhealthy; once every query has succeeded the check is healthy;
/// otherwise the next query is sent, provided its record type is
/// supported. A record type is only read when its query is reached.
pub fn dns_next(plan: &Vec<(String, String)>, outcomes: &Vec<bool>) -> (next: DnsStep)
    ensures
        outcomes@.contains(false) ==> next == DnsStep::Finished(false),
        !outcomes@.contains(false) && outcomes@.len() >= plan@.len() ==> next == DnsStep::Finished(
            true,
        ),
        !outcomes@.contains(false) && outcomes@.len() < plan@.len() ==> match record_kind_named(
            plan@[outcomes@.len() as int].1@,
        ) {
            Some(rt) => next matches DnsStep::Lookup { name, record_type } && name@ == plan@[outcomes@.len() as int].0@
                && record_type == rt,
            None => next matches DnsStep::Unsupported(t) && t@ == plan@[outcomes@.len() as int].1@,
        },
{
    let k = outcomes.len();
    for i in 0..k
        invariant
            k == outcomes@.len(),
            forall|j: int| 0 <= j < i ==> #[trigger] outcomes@[j],
    {
        if !outcomes[i] {
            assert(outcomes@.contains(false)) by {
                assert(outcomes@[i as int] == false);
            }
            return DnsStep::Finished(false);
        }
    }
    assert(!outcomes@.contains(false)) by {
        if outcomes@.contains(false) {
            let j = choose|j: int| 0 <= j < outcomes@.len() && outcomes@[j] == false;
            assert(outcomes@[j]);
        }
    }
    if k >= plan.len() {
        return DnsStep::Finished(true);
    }
    let (name, kind_name) = &plan[k];
    match RecordType::from_name(kind_name.as_str()) {
        Some(rt) => DnsStep::Lookup { name: name.clone(), record_type: rt },
        None => DnsStep::Unsupported(kind_name.clone()),
    }
}

} // verus!
