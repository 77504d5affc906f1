use frost_doh::codec::{reply_from_json, reply_to_json};
use frost_doh::dns::{DnsEntry, DnsQuestion, DnsRecordType, DnsReply};
use frost_doh::ip::{parse_ipv4, parse_ipv6, split_str};
use frost_doh::providers::{is_success_status, request_for, CloudFlare, Google};
use frost_doh::settings::{parse_u64, ApplicationSettings, Provider, TTlConfig};
use frost_doh::sysinfo::get_process_name;

fn sample_reply() -> DnsReply {
    DnsReply {
        status: 0,
        tc: false,
        rd: true,
        ra: true,
        ad: false,
        cd: false,
        questions: vec![DnsQuestion {
            name: String::from("example.com"),
            record_type: DnsRecordType::A,
        }],
        answers: vec![
            DnsEntry {
                name: String::from("example.com"),
                record_type: DnsRecordType::A,
                ttl: 60,
                data: String::from("93.184.216.34"),
            },
            DnsEntry {
                name: String::from("example.com"),
                record_type: DnsRecordType::A,
                ttl: 90,
                data: String::from("93.184.216.35"),
            },
        ],
        authority: vec![],
    }
}

#[test]
fn reply_serializes_to_the_exact_canonical_text() {
    let r = DnsReply {
        status: 0,
        tc: false,
        rd: true,
        ra: true,
        ad: false,
        cd: false,
        questions: vec![DnsQuestion {
            name: String::from("a.b"),
            record_type: DnsRecordType::A,
        }],
        answers: vec![DnsEntry {
            name: String::from("a.b"),
            record_type: DnsRecordType::A,
            ttl: 60,
            data: String::from("1.2.3.4"),
        }],
        authority: vec![],
    };
    assert_eq!(
        reply_to_json(&r),
        "{\"Status\":0,\"TC\":false,\"RD\":true,\"RA\":true,\"AD\":false,\"CD\":false,\
         \"Question\":[{\"name\":\"a.b\",\"type\":1}],\
         \"Answer\":[{\"name\":\"a.b\",\"type\":1,\"TTL\":60,\"data\":\"1.2.3.4\"}],\
         \"Authority\":[]}"
    );
}

#[test]
fn serialized_reply_is_real_json() {
    let text = reply_to_json(&sample_reply());
    let v: serde_json::Value = serde_json::from_str(&text).unwrap();
    assert_eq!(v["Status"], 0);
    assert_eq!(v["Answer"][1]["TTL"], 90);
    assert_eq!(v["Answer"][0]["data"], "93.184.216.34");
}

#[test]
fn reply_roundtrips_through_json() {
    let r = sample_reply();
    let text = reply_to_json(&r);
    let back = reply_from_json(&text).unwrap();
    assert_eq!(reply_to_json(&back), text);
    assert_eq!(back.answers.len(), 2);
    assert_eq!(back.answers[1].ttl, 90);
    assert_eq!(back.questions[0].name, "example.com");
}

#[test]
fn quotes_and_backslashes_survive_the_roundtrip() {
    let mut r = sample_reply();
    r.answers[0].data = String::from("odd\"data\\here");
    let text = reply_to_json(&r);
    let back = reply_from_json(&text).unwrap();
    assert_eq!(back.answers[0].data, "odd\"data\\here");
    // And the escaping agrees with ordinary JSON.
    let v: serde_json::Value = serde_json::from_str(&text).unwrap();
    assert_eq!(v["Answer"][0]["data"], "odd\"data\\here");
}

#[test]
fn missing_answer_section_reads_as_empty() {
    let text = "{\"Status\":0,\"TC\":false,\"RD\":true,\"RA\":true,\"AD\":false,\
                \"CD\":false,\"Question\":[{\"name\":\"a.b\",\"type\":1}]}";
    let r = reply_from_json(text).unwrap();
    assert!(r.answers.is_empty());
    assert!(r.authority.is_empty());
    assert_eq!(r.questions.len(), 1);
}

#[test]
fn empty_answer_section_reads_without_error() {
    let text = "{\"Status\":3,\"TC\":false,\"RD\":true,\"RA\":true,\"AD\":false,\
                \"CD\":false,\"Question\":[{\"name\":\"a.b\",\"type\":1}],\
                \"Answer\":[],\"Authority\":[]}";
    let r = reply_from_json(text).unwrap();
    assert_eq!(r.status, 3);
    assert!(r.answers.is_empty());
    assert!(r.no_answers());
}

#[test]
fn malformed_documents_are_rejected() {
    assert!(reply_from_json("").is_none());
    assert!(reply_from_json("{}").is_none());
    // Unknown record type number.
    let bad_type = "{\"Status\":0,\"TC\":false,\"RD\":true,\"RA\":true,\"AD\":false,\
                    \"CD\":false,\"Question\":[{\"name\":\"a.b\",\"type\":2}]}";
    assert!(reply_from_json(bad_type).is_none());
    // Status out of the u8 range.
    let bad_status = "{\"Status\":256,\"TC\":false,\"RD\":true,\"RA\":true,\"AD\":false,\
                      \"CD\":false,\"Question\":[]}";
    assert!(reply_from_json(bad_status).is_none());
    // Trailing garbage.
    let trailing = "{\"Status\":0,\"TC\":false,\"RD\":true,\"RA\":true,\"AD\":false,\
                    \"CD\":false,\"Question\":[]}x";
    assert!(reply_from_json(trailing).is_none());
}

#[test]
fn reply_predicates_work() {
    let r = sample_reply();
    assert!(r.ok());
    assert!(!r.no_answers());
    assert!(!r.no_question());
    assert!(!r.is_cname_answer());
    assert_eq!(r.get_expiration(), Some(90));
    assert_eq!(r.get_cname(), None);
    let mut c = sample_reply();
    c.answers.truncate(1);
    c.answers[0].record_type = DnsRecordType::CNAME;
    c.answers[0].data = String::from("target.example");
    assert!(c.is_cname_answer());
    assert_eq!(c.get_cname(), Some(String::from("target.example")));
    let mut e = sample_reply();
    e.answers.clear();
    assert!(e.no_answers());
    assert!(!e.is_cname_answer());
    assert_eq!(e.get_expiration(), None);
}

#[test]
fn record_types_encode_and_decode() {
    assert_eq!(DnsRecordType::A.as_uint(), 1);
    assert_eq!(DnsRecordType::CNAME.as_uint(), 5);
    assert_eq!(DnsRecordType::SOA.as_uint(), 6);
    assert_eq!(DnsRecordType::AAAA.as_uint(), 28);
    assert_eq!(DnsRecordType::from_uint(28), Some(DnsRecordType::AAAA));
    assert_eq!(DnsRecordType::from_uint(2), None);
    assert_eq!(DnsRecordType::A.text(), "A");
    assert_eq!(DnsRecordType::AAAA.text(), "AAAA");
}

#[test]
fn ipv4_texts_parse_exactly() {
    let a = parse_ipv4("93.184.216.34").unwrap();
    assert_eq!((a.o0, a.o1, a.o2, a.o3), (93, 184, 216, 34));
    let b = parse_ipv4("0.0.0.0").unwrap();
    assert_eq!((b.o0, b.o1, b.o2, b.o3), (0, 0, 0, 0));
    assert!(parse_ipv4("256.1.1.1").is_none());
    assert!(parse_ipv4("01.2.3.4").is_none());
    assert!(parse_ipv4("1.2.3").is_none());
    assert!(parse_ipv4("1.2.3.4.5").is_none());
    assert!(parse_ipv4("1.2.3.x").is_none());
    assert!(parse_ipv4("").is_none());
}

#[test]
fn ipv6_texts_parse_exactly() {
    let a = parse_ipv6("2001:db8:0:1:1:1:1:1").unwrap();
    assert_eq!(
        (a.s0, a.s1, a.s2, a.s3, a.s4, a.s5, a.s6, a.s7),
        (0x2001, 0xdb8, 0, 1, 1, 1, 1, 1)
    );
    let b = parse_ipv6("::1").unwrap();
    assert_eq!((b.s0, b.s6, b.s7), (0, 0, 1));
    let c = parse_ipv6("2606:4700::6810:84e5").unwrap();
    assert_eq!((c.s0, c.s1, c.s2, c.s5, c.s6, c.s7), (0x2606, 0x4700, 0, 0, 0x6810, 0x84e5));
    let d = parse_ipv6("::").unwrap();
    assert_eq!((d.s0, d.s7), (0, 0));
    let e = parse_ipv6("1::").unwrap();
    assert_eq!((e.s0, e.s7), (1, 0));
    let f = parse_ipv6("::ffff:192.0.2.128").unwrap();
    assert_eq!((f.s5, f.s6, f.s7), (0xffff, 0xc000, 0x0280));
    assert!(parse_ipv6("1:2:3:4:5:6:7").is_none());
    assert!(parse_ipv6("1:2:3:4:5:6:7:8:9").is_none());
    assert!(parse_ipv6(":::").is_none());
    assert!(parse_ipv6(":1:2:3:4:5:6:7").is_none());
    assert!(parse_ipv6("1:2:3:4:5:6:7:").is_none());
    assert!(parse_ipv6("12345::").is_none());
    assert!(parse_ipv6("1::2::3").is_none());
    assert!(parse_ipv6("1:2:3:4:5:6:7:8::").is_none());
    assert!(parse_ipv6("g::1").is_none());
}

#[test]
fn split_keeps_empty_pieces() {
    let parts = split_str("a::b", ':');
    assert_eq!(parts, vec!["a", "", "b"]);
    assert_eq!(split_str("", ':'), vec![""]);
    assert_eq!(split_str("abc", ':'), vec!["abc"]);
    assert_eq!(split_str(":", ':'), vec!["", ""]);
}

#[test]
fn decimal_strings_parse_exactly() {
    assert_eq!(parse_u64("0"), Some(0));
    assert_eq!(parse_u64("1234"), Some(1234));
    assert_eq!(parse_u64("18446744073709551615"), Some(u64::MAX));
    assert_eq!(parse_u64("18446744073709551616"), None);
    assert_eq!(parse_u64(""), None);
    assert_eq!(parse_u64("12x"), None);
    assert_eq!(parse_u64("-3"), None);
}

#[test]
fn settings_options_are_interpreted() {
    let s = ApplicationSettings::from_options(
        Some(String::from("cloudflare")),
        Some(String::from("120")),
        Some(String::from("/var/db/doh.db")),
    );
    assert_eq!(*s.provider(), Provider::Cloudflare);
    assert_eq!(*s.ttl(), TTlConfig::Custom(120));
    assert_eq!(s.sqlite().connection_str(), "/var/db/doh.db");

    let d = ApplicationSettings::from_options(None, None, None);
    assert_eq!(*d.provider(), Provider::Google);
    assert_eq!(*d.ttl(), TTlConfig::Default);
    assert_eq!(d.sqlite().connection_str(), "doh.db");

    let g = ApplicationSettings::from_options(
        Some(String::from("anything")),
        Some(String::from("default")),
        None,
    );
    assert_eq!(*g.provider(), Provider::Google);
    assert_eq!(*g.ttl(), TTlConfig::Default);

    let bad = ApplicationSettings::from_options(None, Some(String::from("soon")), None);
    assert_eq!(*bad.ttl(), TTlConfig::Custom(60));
}

#[test]
fn provider_requests_are_pinned() {
    let c = CloudFlare::request("example.com", DnsRecordType::A);
    assert_eq!((c.ip.o0, c.ip.o1, c.ip.o2, c.ip.o3), (104, 16, 248, 249));
    assert_eq!(c.port, 443);
    assert_eq!(c.url, "https://cloudflare-dns.com/dns-query");
    assert_eq!(c.accept.as_deref(), Some("application/dns-json"));
    assert_eq!(c.name, "example.com");
    assert_eq!(c.record_type_text, "A");

    let g = Google::request("example.com", DnsRecordType::AAAA);
    assert_eq!((g.ip.o0, g.ip.o1, g.ip.o2, g.ip.o3), (8, 8, 4, 4));
    assert_eq!(g.url, "https://dns.google/resolve");
    assert!(g.accept.is_none());
    assert_eq!(g.record_type_text, "AAAA");

    let via = request_for(&Provider::Google, "a.b", DnsRecordType::A);
    assert_eq!(via.url, "https://dns.google/resolve");

    assert!(is_success_status(200));
    assert!(is_success_status(299));
    assert!(!is_success_status(199));
    assert!(!is_success_status(300));
    assert!(!is_success_status(500));
}

#[test]
fn process_names_come_from_comm_then_cmdline() {
    assert_eq!(get_process_name(0, Some(b"init\n".to_vec()), None), None);
    assert_eq!(
        get_process_name(7, Some(b"firefox\n".to_vec()), None),
        Some(b"firefox".to_vec())
    );
    assert_eq!(
        get_process_name(7, Some(b"  \n".to_vec()), Some(b"curl\0-v\0".to_vec())),
        Some(b"curl".to_vec())
    );
    assert_eq!(
        get_process_name(7, None, Some(b"wget\0https://x\0".to_vec())),
        Some(b"wget".to_vec())
    );
    assert_eq!(get_process_name(7, None, Some(b"\0\0".to_vec())), None);
    assert_eq!(get_process_name(7, None, None), None);
}
