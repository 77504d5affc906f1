//! The unified error taxonomy of the resolution pipeline, and its mapping to
//! the outcome a name-service-switch client reports.

use vstd::prelude::*;
use vstd::string::StringExecFns;

verus! {

/// The four failure kinds of the resolution pipeline.
#[derive(Clone, Copy, Debug, PartialEq, Eq, Structural)]
pub enum Error {
    /// Upstream answered with a status other than 0, or the CNAME chase
    /// exceeded its depth cap.
    DNSErrorReply,
    /// The name is blacklisted, the reply carries no usable answers, or the
    /// projection to a host record yields no addresses.
    EmptyDNSReply,
    /// Transport, TLS, timeout, parse, URL or I/O failure while contacting
    /// the upstream resolver.
    UpstreamError,
    /// Persistent-store failure, including clock trouble during TTL math.
    DatabaseError,
}

/// The response code a name-service-switch module reports for a failed
/// lookup.
#[derive(Clone, Copy, Debug, PartialEq, Eq, Structural)]
pub enum NssOutcome {
    NotFound,
    TryAgain,
    Unavail,
}

impl Error {
    /// The kind's name, conveyed across the bus as the fault payload.
    pub open spec fn spec_name(self) -> Seq<char> {
        match self {
            Error::DNSErrorReply => "DNSErrorReply"@,
            Error::EmptyDNSReply => "EmptyDNSReply"@,
            Error::UpstreamError => "UpstreamError"@,
            Error::DatabaseError => "DatabaseError"@,
        }
    }

    pub fn name(&self) -> (r: String)
        ensures
            r@ == self.spec_name(),
    {
        match self {
            Error::DNSErrorReply => String::from_str("DNSErrorReply"),
            Error::EmptyDNSReply => String::from_str("EmptyDNSReply"),
            Error::UpstreamError => String::from_str("UpstreamError"),
            Error::DatabaseError => String::from_str("DatabaseError"),
        }
    }

    /// How the name-service-switch client translates a fault of this kind:
    /// an empty reply is a missing name, an upstream fault is transient, and
    /// everything else leaves the service unavailable.
    pub open spec fn spec_nss_outcome(self) -> NssOutcome {
        match self {
            Error::EmptyDNSReply => NssOutcome::NotFound,
            Error::UpstreamError => NssOutcome::TryAgain,
            _ => NssOutcome::Unavail,
        }
    }

    pub fn nss_outcome(&self) -> (r: NssOutcome)
        ensures
            r == self.spec_nss_outcome(),
    {
        match self {
            Error::EmptyDNSReply => NssOutcome::NotFound,
            Error::UpstreamError => NssOutcome::TryAgain,
            _ => NssOutcome::Unavail,
        }
    }
}

} // verus!
