//! The two upstream adapters: the exact request each provider gets.
//!
//! An adapter is purely declarative: it lays out the pinned IP, the URL,
//! the headers and the query parameters of one DNS-over-HTTPS GET. The
//! surrounding process performs the request — connecting to the pinned IP
//! while keeping the URL's host for TLS and the Host header — and hands
//! the body back as bytes.

use vstd::prelude::*;
use vstd::string::StringExecFns;

use crate::dns::DnsRecordType;
use crate::ip::Ipv4Address;
use crate::settings::Provider;

verus! {

/// One upstream request, fully determined: connect to `ip`:`port`, send a
/// GET for `url` with the query parameters `name` and `type`, and the
/// Accept header when one is set.
#[derive(Debug)]
pub struct DohRequest {
    /// The pinned upstream address; the URL's host is only for TLS and
    /// the Host header, never resolved.
    pub ip: Ipv4Address,
    pub port: u16,
    pub url: String,
    pub accept: Option<String>,
    /// Value of the `name` query parameter: the wire name.
    pub name: String,
    /// Value of the `type` query parameter: the record type's text.
    pub record_type_text: String,
}

/// The Google adapter: `https://dns.google/resolve`, pinned to 8.8.4.4,
/// no Accept header.
pub struct Google;

/// The Cloudflare adapter: `https://cloudflare-dns.com/dns-query`, pinned
/// to 104.16.248.249, Accept `application/dns-json`.
pub struct CloudFlare;

impl Google {
    pub fn request(domain: &str, record_type: DnsRecordType) -> (r: DohRequest)
        ensures
            r.ip == (Ipv4Address { o0: 8, o1: 8, o2: 4, o3: 4 }),
            r.port == 443,
            r.url@ == "https://dns.google/resolve"@,
            r.accept is None,
            r.name@ == domain@,
            r.record_type_text@ == record_type.spec_text(),
    {
        DohRequest {
            ip: Ipv4Address { o0: 8, o1: 8, o2: 4, o3: 4 },
            port: 443,
            url: String::from_str("https://dns.google/resolve"),
            accept: None,
            name: domain.to_owned(),
            record_type_text: record_type.text(),
        }
    }
}

impl CloudFlare {
    pub fn request(domain: &str, record_type: DnsRecordType) -> (r: DohRequest)
        ensures
            r.ip == (Ipv4Address { o0: 104, o1: 16, o2: 248, o3: 249 }),
            r.port == 443,
            r.url@ == "https://cloudflare-dns.com/dns-query"@,
            match r.accept {
                Some(a) => a@ == "application/dns-json"@,
                None => false,
            },
            r.name@ == domain@,
            r.record_type_text@ == record_type.spec_text(),
    {
        DohRequest {
            ip: Ipv4Address { o0: 104, o1: 16, o2: 248, o3: 249 },
            port: 443,
            url: String::from_str("https://cloudflare-dns.com/dns-query"),
            accept: Some(String::from_str("application/dns-json")),
            name: domain.to_owned(),
            record_type_text: record_type.text(),
        }
    }
}

/// The request the configured provider gets.
pub fn request_for(provider: &Provider, domain: &str, record_type: DnsRecordType) -> (r:
    DohRequest)
    ensures
        *provider == Provider::Google ==> r.ip == (Ipv4Address { o0: 8, o1: 8, o2: 4, o3: 4 })
            && r.url@ == "https://dns.google/resolve"@ && r.accept is None,
        *provider == Provider::Cloudflare ==> r.ip == (Ipv4Address {
            o0: 104,
            o1: 16,
            o2: 248,
            o3: 249,
        }) && r.url@ == "https://cloudflare-dns.com/dns-query"@ && (match r.accept {
            Some(a) => a@ == "application/dns-json"@,
            None => false,
        }),
        r.port == 443,
        r.name@ == domain@,
        r.record_type_text@ == record_type.spec_text(),
{
    match provider {
        Provider::Google => Google::request(domain, record_type),
        Provider::Cloudflare => CloudFlare::request(domain, record_type),
    }
}

/// Whether an HTTP status is a success: the 2xx range. A successful
/// response's body is parsed as a reply; anything else is an upstream
/// error.
pub fn is_success_status(status: u16) -> (r: bool)
    ensures
        r == (200 <= status && status < 300),
{
    200 <= status && status < 300
}

} // verus!
