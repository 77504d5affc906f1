use frost_doh::dns::{DnsEntry, DnsQuestion, DnsRecordType, DnsReply};
use frost_doh::error::{Error, NssOutcome};
use frost_doh::settings::{ApplicationSettings, Provider, SQLiteSettings, TTlConfig};
use frost_doh::store::Store;

fn settings(ttl: TTlConfig) -> ApplicationSettings {
    ApplicationSettings {
        provider: Provider::Cloudflare,
        ttl,
        sqlite: SQLiteSettings { connection_str: String::from("doh.db") },
    }
}

fn a_reply(name: &str, ttl: u32, data: &str) -> DnsReply {
    DnsReply {
        status: 0,
        tc: false,
        rd: true,
        ra: true,
        ad: false,
        cd: false,
        questions: vec![DnsQuestion {
            name: String::from(name),
            record_type: DnsRecordType::A,
        }],
        answers: vec![DnsEntry {
            name: String::from(name),
            record_type: DnsRecordType::A,
            ttl,
            data: String::from(data),
        }],
        authority: vec![],
    }
}

#[test]
fn tables_must_exist_first() {
    let st = Store::new(settings(TTlConfig::Default));
    assert_eq!(st.is_host_blocked("a.example"), Err(Error::DatabaseError));
    assert_eq!(
        st.get_dns_answer("a.example", 1, 0).map(|o| o.is_some()),
        Err(Error::DatabaseError)
    );
    assert!(st.get_dns_audit(0).is_err());
}

#[test]
fn create_tables_is_idempotent() {
    let mut st = Store::new(settings(TTlConfig::Default));
    assert_eq!(st.create_tables(), Ok(true));
    st.create_host_blocked("a.example", 7).unwrap();
    assert_eq!(st.create_tables(), Ok(true));
    // The second creation left everything as it was.
    assert_eq!(st.is_host_blocked("a.example"), Ok(true));
    assert_eq!(st.blacklist.len(), 1);
}

#[test]
fn cached_answer_lives_until_its_expiry() {
    let mut st = Store::new(settings(TTlConfig::Default));
    st.create_tables().unwrap();
    let reply = a_reply("example.com", 90, "93.184.216.34");
    let t0 = 1000u64;
    assert_eq!(st.create_dns_answer("example.com", 1, &reply, t0), Ok(true));
    // Live at t0, inside the window, and at the expiry instant itself.
    assert!(st.get_dns_answer("example.com", 1, t0).unwrap().is_some());
    assert!(st.get_dns_answer("example.com", 1, t0 + 89).unwrap().is_some());
    assert!(st.get_dns_answer("example.com", 1, t0 + 90).unwrap().is_some());
    // Gone after it.
    assert!(st.get_dns_answer("example.com", 1, t0 + 91).unwrap().is_none());
    // The stored reply is returned intact.
    let got = st.get_dns_answer("example.com", 1, t0).unwrap().unwrap();
    assert_eq!(got.answers[0].data, "93.184.216.34");
    assert_eq!(got.answers[0].ttl, 90);
}

#[test]
fn reply_without_ttl_defaults_to_sixty_seconds() {
    let mut st = Store::new(settings(TTlConfig::Default));
    st.create_tables().unwrap();
    let mut reply = a_reply("example.com", 0, "93.184.216.34");
    reply.answers.clear();
    let t0 = 500u64;
    st.create_dns_answer("example.com", 1, &reply, t0).unwrap();
    assert!(st.get_dns_answer("example.com", 1, t0 + 60).unwrap().is_some());
    assert!(st.get_dns_answer("example.com", 1, t0 + 61).unwrap().is_none());
}

#[test]
fn custom_ttl_ignores_the_reply() {
    let mut st = Store::new(settings(TTlConfig::Custom(10)));
    st.create_tables().unwrap();
    // Two very different replies, the same configured lifetime.
    let r1 = a_reply("a.example", 90000, "198.51.100.1");
    let r2 = a_reply("b.example", 1, "198.51.100.2");
    st.create_dns_answer("a.example", 1, &r1, 100).unwrap();
    st.create_dns_answer("b.example", 1, &r2, 100).unwrap();
    for host in ["a.example", "b.example"] {
        assert!(st.get_dns_answer(host, 1, 110).unwrap().is_some());
        assert!(st.get_dns_answer(host, 1, 111).unwrap().is_none());
    }
}

#[test]
fn newest_row_wins_for_equal_keys() {
    let mut st = Store::new(settings(TTlConfig::Default));
    st.create_tables().unwrap();
    let old_reply = a_reply("example.com", 300, "198.51.100.1");
    let new_reply = a_reply("example.com", 300, "198.51.100.2");
    st.create_dns_answer("example.com", 1, &old_reply, 100).unwrap();
    st.create_dns_answer("example.com", 1, &new_reply, 200).unwrap();
    let got = st.get_dns_answer("example.com", 1, 250).unwrap().unwrap();
    assert_eq!(got.answers[0].data, "198.51.100.2");
}

#[test]
fn expiry_instant_overflow_is_a_database_error() {
    let mut st = Store::new(settings(TTlConfig::Custom(10)));
    st.create_tables().unwrap();
    let reply = a_reply("example.com", 1, "198.51.100.1");
    assert_eq!(
        st.create_dns_answer("example.com", 1, &reply, u64::MAX - 5),
        Err(Error::DatabaseError)
    );
    assert!(st.cache.is_empty());
}

#[test]
fn blacklist_roundtrip_restores_state() {
    let mut st = Store::new(settings(TTlConfig::Default));
    st.create_tables().unwrap();
    st.create_host_blocked("keep.example", 1).unwrap();
    assert_eq!(st.is_host_blocked("fresh.example"), Ok(false));
    assert_eq!(st.create_host_blocked("fresh.example", 2), Ok(true));
    assert_eq!(st.is_host_blocked("fresh.example"), Ok(true));
    assert_eq!(st.delete_host_blocked("fresh.example"), Ok(true));
    assert_eq!(st.is_host_blocked("fresh.example"), Ok(false));
    // The unrelated row survived, and deleting again removes nothing.
    assert_eq!(st.is_host_blocked("keep.example"), Ok(true));
    assert_eq!(st.delete_host_blocked("fresh.example"), Ok(false));
    assert_eq!(st.blacklist.len(), 1);
}

#[test]
fn blacklist_is_keyed_by_normalized_name() {
    let mut st = Store::new(settings(TTlConfig::Default));
    st.create_tables().unwrap();
    st.create_host_blocked("  ADS.Example ", 1).unwrap();
    assert_eq!(st.is_host_blocked("ads.example"), Ok(true));
    assert_eq!(st.is_host_blocked("ADS.EXAMPLE"), Ok(true));
    assert_eq!(st.is_host_blocked("other.example"), Ok(false));
}

#[test]
fn audit_pages_are_ten_newest_first() {
    let mut st = Store::new(settings(TTlConfig::Default));
    st.create_tables().unwrap();
    for i in 0..25u64 {
        let host = format!("h{}.example", i);
        st.create_dns_audit("proc", &host, 1, i).unwrap();
    }
    let p0 = st.get_dns_audit(0).unwrap();
    assert_eq!(p0.current_page, 0);
    assert_eq!(p0.results.len(), 10);
    assert_eq!(p0.results[0].host, "h24.example");
    assert_eq!(p0.results[9].host, "h15.example");
    let p2 = st.get_dns_audit(2).unwrap();
    assert_eq!(p2.current_page, 2);
    assert_eq!(p2.results.len(), 5);
    assert_eq!(p2.results[0].host, "h4.example");
    assert_eq!(p2.results[4].host, "h0.example");
    let p3 = st.get_dns_audit(3).unwrap();
    assert_eq!(p3.results.len(), 0);
}

#[test]
fn audit_rows_are_normalized() {
    let mut st = Store::new(settings(TTlConfig::Default));
    st.create_tables().unwrap();
    st.create_dns_audit("FireFox ", " WWW.Example.ORG", 28, 42).unwrap();
    let p = st.get_dns_audit(0).unwrap();
    assert_eq!(p.results[0].process_name, "firefox");
    assert_eq!(p.results[0].host, "www.example.org");
    assert_eq!(p.results[0].create, 42);
}

#[test]
fn error_names_and_nss_outcomes() {
    assert_eq!(Error::DNSErrorReply.name(), "DNSErrorReply");
    assert_eq!(Error::EmptyDNSReply.name(), "EmptyDNSReply");
    assert_eq!(Error::UpstreamError.name(), "UpstreamError");
    assert_eq!(Error::DatabaseError.name(), "DatabaseError");
    assert_eq!(Error::EmptyDNSReply.nss_outcome(), NssOutcome::NotFound);
    assert_eq!(Error::UpstreamError.nss_outcome(), NssOutcome::TryAgain);
    assert_eq!(Error::DNSErrorReply.nss_outcome(), NssOutcome::Unavail);
    assert_eq!(Error::DatabaseError.nss_outcome(), NssOutcome::Unavail);
}
