use frost_doh::dns::{
    AddressFamily, DnsEntry, DnsQuestion, DnsRecordType, DnsReply, HostAddresses,
};
use frost_doh::engine::{wire_name, Resolver, UpstreamEntry, UpstreamStub};
use frost_doh::error::Error;
use frost_doh::hostname::normalize;
use frost_doh::settings::{ApplicationSettings, Provider, SQLiteSettings, TTlConfig};
use frost_doh::store::Store;

fn settings() -> ApplicationSettings {
    ApplicationSettings {
        provider: Provider::Cloudflare,
        ttl: TTlConfig::Default,
        sqlite: SQLiteSettings { connection_str: String::from("doh.db") },
    }
}

fn reply(name: &str, rt: DnsRecordType, ttl: u32, data: &str) -> DnsReply {
    DnsReply {
        status: 0,
        tc: false,
        rd: true,
        ra: true,
        ad: false,
        cd: false,
        questions: vec![DnsQuestion { name: String::from(name), record_type: rt }],
        answers: vec![DnsEntry {
            name: String::from(name),
            record_type: rt,
            ttl,
            data: String::from(data),
        }],
        authority: vec![],
    }
}

fn ready_resolver() -> Resolver {
    let mut st = Store::new(settings());
    st.create_tables().unwrap();
    Resolver::new(st, settings())
}

#[test]
fn fresh_lookup_hits_upstream() {
    let mut r = ready_resolver();
    let mut up = UpstreamStub::new(vec![UpstreamEntry {
        name: String::from("example.com"),
        record_type: DnsRecordType::A,
        reply: Ok(reply("example.com", DnsRecordType::A, 60, "93.184.216.34")),
    }]);
    let host = r
        .resolve(Some(String::from("curl")), "example.com", AddressFamily::IPv4, &mut up, 100)
        .unwrap();
    assert_eq!(host.name, "example.com");
    assert!(host.aliases.is_empty());
    match &host.addresses {
        HostAddresses::V4(v) => {
            assert_eq!(v.len(), 1);
            assert_eq!((v[0].o0, v[0].o1, v[0].o2, v[0].o3), (93, 184, 216, 34));
        },
        HostAddresses::V6(_) => panic!("wrong family"),
    }
    // One upstream call, under the configured provider.
    assert_eq!(up.calls.len(), 1);
    assert_eq!(up.calls[0].provider, Provider::Cloudflare);
    assert_eq!(up.calls[0].name, "example.com");
    assert_eq!(up.calls[0].record_type, DnsRecordType::A);
    // A cache row and an audit row exist afterwards.
    assert!(r.database.get_dns_answer("example.com", 1, 100).unwrap().is_some());
    let page = r.get_queries(0).unwrap();
    assert_eq!(page.results.len(), 1);
    assert_eq!(page.results[0].process_name, "curl");
    assert_eq!(page.results[0].host, "example.com");
}

#[test]
fn cache_hit_bypasses_upstream() {
    let mut r = ready_resolver();
    let cached = reply("github.com", DnsRecordType::A, 600, "140.82.121.4");
    r.database.create_dns_answer("github.com", 1, &cached, 100).unwrap();
    // The upstream would fail if it were asked.
    let mut up = UpstreamStub::new(vec![]);
    let host = r
        .resolve(None, "github.com", AddressFamily::IPv4, &mut up, 150)
        .unwrap();
    match &host.addresses {
        HostAddresses::V4(v) => {
            assert_eq!((v[0].o0, v[0].o1, v[0].o2, v[0].o3), (140, 82, 121, 4));
        },
        HostAddresses::V6(_) => panic!("wrong family"),
    }
    assert_eq!(up.calls.len(), 0);
}

#[test]
fn blacklist_short_circuits_case_insensitively() {
    let mut r = ready_resolver();
    r.add_to_blacklist("ads.example", 1).unwrap();
    let cache_before = r.database.cache.len();
    let mut up = UpstreamStub::new(vec![UpstreamEntry {
        name: String::from("ads.example"),
        record_type: DnsRecordType::A,
        reply: Ok(reply("ads.example", DnsRecordType::A, 60, "198.51.100.9")),
    }]);
    let out = r.resolve(None, "ADS.example", AddressFamily::IPv4, &mut up, 100);
    assert_eq!(out.unwrap_err(), Error::EmptyDNSReply);
    assert_eq!(up.calls.len(), 0);
    assert_eq!(r.database.cache.len(), cache_before);
}

#[test]
fn resolve_matches_resolve_of_normalized_name() {
    for input in ["ADS.example", "ads.example", "  Ads.Example  "] {
        let mut r = ready_resolver();
        r.add_to_blacklist("ads.example", 1).unwrap();
        let mut up = UpstreamStub::new(vec![]);
        let out = r.resolve(None, input, AddressFamily::IPv4, &mut up, 100);
        assert_eq!(out.unwrap_err(), Error::EmptyDNSReply);
    }
}

#[test]
fn cname_reply_is_followed() {
    let mut r = ready_resolver();
    let cname = DnsReply {
        status: 0,
        tc: false,
        rd: true,
        ra: true,
        ad: false,
        cd: false,
        questions: vec![DnsQuestion {
            name: String::from("www.example.org"),
            record_type: DnsRecordType::A,
        }],
        answers: vec![DnsEntry {
            name: String::from("www.example.org"),
            record_type: DnsRecordType::CNAME,
            ttl: 60,
            data: String::from("example.org"),
        }],
        authority: vec![],
    };
    let mut up = UpstreamStub::new(vec![
        UpstreamEntry {
            name: String::from("www.example.org"),
            record_type: DnsRecordType::A,
            reply: Ok(cname),
        },
        UpstreamEntry {
            name: String::from("example.org"),
            record_type: DnsRecordType::A,
            reply: Ok(reply("example.org", DnsRecordType::A, 60, "203.0.113.5")),
        },
    ]);
    let host = r
        .resolve(None, "www.example.org", AddressFamily::IPv4, &mut up, 100)
        .unwrap();
    match &host.addresses {
        HostAddresses::V4(v) => {
            assert_eq!((v[0].o0, v[0].o1, v[0].o2, v[0].o3), (203, 0, 113, 5));
        },
        HostAddresses::V6(_) => panic!("wrong family"),
    }
    // The follow-up call used the target name and the same record type.
    assert_eq!(up.calls.len(), 2);
    assert_eq!(up.calls[0].name, "www.example.org");
    assert_eq!(up.calls[1].name, "example.org");
    assert_eq!(up.calls[1].record_type, DnsRecordType::A);
    // The write-back is keyed by the original name.
    assert!(r.database.get_dns_answer("www.example.org", 1, 100).unwrap().is_some());
}

#[test]
fn cname_loops_fail_with_dns_error() {
    let mut r = ready_resolver();
    let mut loop_reply = reply("loop.example", DnsRecordType::A, 60, "loop.example");
    loop_reply.answers[0].record_type = DnsRecordType::CNAME;
    let mut up = UpstreamStub::new(vec![UpstreamEntry {
        name: String::from("loop.example"),
        record_type: DnsRecordType::A,
        reply: Ok(loop_reply),
    }]);
    let out = r.resolve(None, "loop.example", AddressFamily::IPv4, &mut up, 100);
    assert_eq!(out.unwrap_err(), Error::DNSErrorReply);
    // The chase stopped at the depth cap.
    assert_eq!(up.calls.len(), 17);
}

#[test]
fn upstream_failure_is_reported_as_such() {
    let mut r = ready_resolver();
    let mut up = UpstreamStub::new(vec![UpstreamEntry {
        name: String::from("foo.test"),
        record_type: DnsRecordType::A,
        reply: Err(Error::UpstreamError),
    }]);
    let out = r.resolve(None, "foo.test", AddressFamily::IPv4, &mut up, 100);
    let e = out.unwrap_err();
    assert_eq!(e, Error::UpstreamError);
    // What the bus fault carries, and what the shim makes of it.
    assert_eq!(e.name(), "UpstreamError");
    assert_eq!(e.nss_outcome(), frost_doh::error::NssOutcome::TryAgain);
}

#[test]
fn dns_error_status_is_reported_as_such() {
    let mut r = ready_resolver();
    let mut bad = reply("foo.test", DnsRecordType::A, 60, "198.51.100.1");
    bad.status = 2;
    let mut up = UpstreamStub::new(vec![UpstreamEntry {
        name: String::from("foo.test"),
        record_type: DnsRecordType::A,
        reply: Ok(bad),
    }]);
    let out = r.resolve(None, "foo.test", AddressFamily::IPv4, &mut up, 100);
    assert_eq!(out.unwrap_err(), Error::DNSErrorReply);
}

#[test]
fn empty_answer_section_is_an_empty_reply() {
    let mut r = ready_resolver();
    let mut empty = reply("foo.test", DnsRecordType::A, 60, "198.51.100.1");
    empty.answers.clear();
    let mut up = UpstreamStub::new(vec![UpstreamEntry {
        name: String::from("foo.test"),
        record_type: DnsRecordType::A,
        reply: Ok(empty),
    }]);
    let out = r.resolve(None, "foo.test", AddressFamily::IPv4, &mut up, 100);
    assert_eq!(out.unwrap_err(), Error::EmptyDNSReply);
}

#[test]
fn unknown_process_is_audited_as_unknown() {
    let mut r = ready_resolver();
    let mut up = UpstreamStub::new(vec![]);
    let _ = r.resolve(None, "foo.test", AddressFamily::IPv4, &mut up, 100);
    let page = r.get_queries(0).unwrap();
    assert_eq!(page.results[0].process_name, "unknown");
}

#[test]
fn non_ascii_name_is_punycoded_upstream_but_stored_verbatim() {
    let mut r = ready_resolver();
    let wire = wire_name("bücher.example");
    assert!(wire.is_ascii());
    assert_ne!(wire, "bücher.example");
    // The wrapper agrees with the encoder it relies on.
    assert_eq!(wire, punycode::encode("bücher.example").unwrap());
    let mut up = UpstreamStub::new(vec![UpstreamEntry {
        name: wire.clone(),
        record_type: DnsRecordType::A,
        reply: Ok(reply("bücher.example", DnsRecordType::A, 60, "198.51.100.7")),
    }]);
    let host = r
        .resolve(None, "bücher.example", AddressFamily::IPv4, &mut up, 100)
        .unwrap();
    assert_eq!(host.name, "bücher.example");
    assert_eq!(up.calls[0].name, wire);
    // Cached under the original normalized name, not the wire name.
    assert!(r.database.get_dns_answer("bücher.example", 1, 100).unwrap().is_some());
    assert!(r.database.get_dns_answer(&wire, 1, 100).unwrap().is_none());
}

#[test]
fn ipv6_lookup_parses_compressed_addresses() {
    let mut r = ready_resolver();
    let mut up = UpstreamStub::new(vec![UpstreamEntry {
        name: String::from("example.com"),
        record_type: DnsRecordType::AAAA,
        reply: Ok(reply(
            "example.com",
            DnsRecordType::AAAA,
            60,
            "2606:2800:220:1::248:1893",
        )),
    }]);
    let host = r
        .resolve(None, "example.com", AddressFamily::IPv6, &mut up, 100)
        .unwrap();
    match &host.addresses {
        HostAddresses::V6(v) => {
            assert_eq!(v.len(), 1);
            let a = v[0];
            assert_eq!(
                (a.s0, a.s1, a.s2, a.s3, a.s4, a.s5, a.s6, a.s7),
                (0x2606, 0x2800, 0x220, 0x1, 0, 0, 0x248, 0x1893)
            );
        },
        HostAddresses::V4(_) => panic!("wrong family"),
    }
    assert_eq!(up.calls[0].record_type, DnsRecordType::AAAA);
}

#[test]
fn normalize_folds_and_trims() {
    assert_eq!(normalize("  GOOGLE.com \t"), "google.com");
    assert_eq!(normalize("already.lower"), "already.lower");
    assert_eq!(normalize("  \t "), "");
    assert_eq!(normalize("MiXeD.Example"), "mixed.example");
    // Idempotent.
    assert_eq!(normalize(&normalize(" A.B ")), normalize(" A.B "));
}
