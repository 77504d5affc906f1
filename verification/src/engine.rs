//! The resolver engine: blacklist consultation, positive-cache
//! consultation, provider selection, CNAME chasing with a depth cap, and
//! the audit and write-back side effects.
//!
//! The engine runs against the store model of this library and against an
//! upstream table that stands for the provider: a list of prepared
//! replies, looked up by wire name and record type, with every issued call
//! recorded. The whole pipeline is specified by [`spec_do_resolve`]; the
//! surrounding process drives the same sequence of decisions against the
//! real database and the real HTTPS client.

use vstd::prelude::*;
use vstd::string::StringExecFns;

use crate::dns::{AddressFamily, DnsRecordType, DnsReply, HostRecord, ReplyView};
use crate::dns::spec_resolved_host;
use crate::error::Error;
use crate::hostname::{lemma_normalize_idempotent, normalize, spec_normalize};
use crate::settings::{ApplicationSettings, Provider};
use crate::store::{
    spec_contains_name, spec_lookup_cache, spec_ttl_seconds, AuditDnsQueryPage, AuditRowView,
    BlacklistRowView, CacheRowView, Store, StoreView,
};

verus! {

/// What `punycode::encode` returns for a given character sequence, when it
/// returns at all.
pub uninterp spec fn puny_of(s: Seq<char>) -> Option<Seq<char>>;

/// Relies on `punycode::encode` (RFC 3492): the result depends on the
/// input characters alone, and the crate reports failure as a value. The
/// length bound keeps out inputs on which the crate's unchecked counters
/// could wrap.
#[verifier::external_body]
fn puny_encode(s: &str) -> (r: Option<String>)
    requires
        s@.len() <= 1000,
    ensures
        match r {
            Some(t) => puny_of(s@) == Some(t@),
            None => puny_of(s@) is None,
        },
{
    match punycode::encode(s) {
        Ok(t) => Some(t),
        Err(()) => None,
    }
}

/// The name sent upstream: an ASCII name verbatim; anything else punycode
/// encoded, with the name kept as it is when encoding fails. Names too
/// long for the encoder are treated as encoding failures.
pub open spec fn spec_wire_name(s: Seq<char>) -> Seq<char> {
    if vstd::utf8::is_ascii_chars(s) {
        s
    } else if s.len() <= 1000 {
        match puny_of(s) {
            Some(p) => p,
            None => s,
        }
    } else {
        s
    }
}

/// Computes the wire form of a hostname, per [`spec_wire_name`].
pub fn wire_name(s: &str) -> (r: String)
    ensures
        r@ == spec_wire_name(s@),
{
    if s.is_ascii() {
        return s.to_owned();
    }
    let n = s.unicode_len();
    if n <= 1000 {
        match puny_encode(s) {
            Some(t) => t,
            None => s.to_owned(),
        }
    } else {
        s.to_owned()
    }
}

/// One prepared upstream reply: what the provider answers for this wire
/// name and record type.
#[derive(Debug)]
pub struct UpstreamEntry {
    pub name: String,
    pub record_type: DnsRecordType,
    pub reply: Result<DnsReply, Error>,
}

/// Mathematical image of an [`UpstreamEntry`].
pub struct StubEntryView {
    pub name: Seq<char>,
    pub record_type: DnsRecordType,
    pub reply: Result<ReplyView, Error>,
}

impl View for UpstreamEntry {
    type V = StubEntryView;

    open spec fn view(&self) -> StubEntryView {
        StubEntryView {
            name: self.name@,
            record_type: self.record_type,
            reply: match self.reply {
                Ok(ref d) => Ok(d@),
                Err(e) => Err(e),
            },
        }
    }
}

/// One upstream call the engine issued.
#[derive(Debug)]
pub struct UpstreamCall {
    pub provider: Provider,
    pub name: String,
    pub record_type: DnsRecordType,
}

/// Mathematical image of an [`UpstreamCall`].
pub struct CallView {
    pub provider: Provider,
    pub name: Seq<char>,
    pub record_type: DnsRecordType,
}

impl View for UpstreamCall {
    type V = CallView;

    open spec fn view(&self) -> CallView {
        CallView { provider: self.provider, name: self.name@, record_type: self.record_type }
    }
}

/// The upstream seen by the engine: prepared replies, and the log of every
/// call made.
#[derive(Debug)]
pub struct UpstreamStub {
    pub entries: Vec<UpstreamEntry>,
    pub calls: Vec<UpstreamCall>,
}

/// Mathematical image of an [`UpstreamStub`].
pub struct StubView {
    pub entries: Seq<StubEntryView>,
    pub calls: Seq<CallView>,
}

impl View for UpstreamStub {
    type V = StubView;

    open spec fn view(&self) -> StubView {
        StubView {
            entries: self.entries@.map_values(|e: UpstreamEntry| e@),
            calls: self.calls@.map_values(|c: UpstreamCall| c@),
        }
    }
}

/// The reply the prepared upstream gives: the first entry matching the
/// wire name and record type, or an upstream error when none matches.
pub open spec fn spec_stub_lookup(
    entries: Seq<StubEntryView>,
    name: Seq<char>,
    rt: DnsRecordType,
) -> Result<ReplyView, Error>
    decreases entries.len(),
{
    if entries.len() == 0 {
        Err(Error::UpstreamError)
    } else if entries.first().name == name && entries.first().record_type == rt {
        entries.first().reply
    } else {
        spec_stub_lookup(entries.drop_first(), name, rt)
    }
}

impl UpstreamStub {
    /// A prepared upstream with the given replies and no calls yet.
    pub fn new(entries: Vec<UpstreamEntry>) -> (r: UpstreamStub)
        ensures
            r@.entries == entries@.map_values(|e: UpstreamEntry| e@),
            r@.calls == Seq::<CallView>::empty(),
    {
        let r = UpstreamStub { entries, calls: Vec::new() };
        proof {
            assert(r@.calls =~= Seq::<CallView>::empty());
        }
        r
    }

    /// Answers one query and records the call.
    pub fn query(&mut self, provider: Provider, name: String, record_type: DnsRecordType) -> (r:
        Result<DnsReply, Error>)
        ensures
            final(self)@.entries == old(self)@.entries,
            final(self)@.calls == old(self)@.calls.push(
                CallView { provider, name: name@, record_type },
            ),
            match r {
                Ok(d) => spec_stub_lookup(old(self)@.entries, name@, record_type) == Ok::<
                    ReplyView,
                    Error,
                >(d@),
                Err(e) => spec_stub_lookup(old(self)@.entries, name@, record_type) == Err::<
                    ReplyView,
                    Error,
                >(e),
            },
    {
        let ghost es = self@.entries;
        let key = name.clone();
        self.calls.push(UpstreamCall { provider, name, record_type });
        proof {
            assert(final(self)@.calls =~= old(self)@.calls.push(
                CallView { provider, name: key@, record_type },
            ));
            assert(final(self)@.entries =~= old(self)@.entries);
            assert(es.skip(0) =~= es);
        }
        let mut i: usize = 0;
        while i < self.entries.len()
            invariant
                0 <= i <= self.entries.len(),
                es == self@.entries,
                es.len() == self.entries.len(),
                key@ == name@,
                self@.entries == old(self)@.entries,
                self@.calls == old(self)@.calls.push(
                    CallView { provider, name: name@, record_type },
                ),
                spec_stub_lookup(es, key@, record_type) == spec_stub_lookup(
                    es.skip(i as int),
                    key@,
                    record_type,
                ),
            decreases self.entries.len() - i,
        {
            proof {
                assert(es.skip(i as int).first() == es[i as int]);
                assert(es.skip(i as int).drop_first() =~= es.skip(i + 1));
            }
            let e = &self.entries[i];
            if e.name == key && e.record_type == record_type {
                return match &e.reply {
                    Ok(d) => Ok(d.clone()),
                    Err(err) => Err(*err),
                };
            }
            i = i + 1;
        }
        proof {
            assert(es.skip(i as int).len() == 0);
        }
        Err(Error::UpstreamError)
    }
}

/// One run of the recursive resolution: its result and the upstream calls
/// it issued, in order.
pub struct ResolveStep {
    pub result: Result<ReplyView, Error>,
    pub calls: Seq<CallView>,
}

/// The recursive resolution on one name. The blacklist and the cache are
/// consulted under the normalized name (a store error counts as "not
/// blocked" and as a miss, which `tables_ok` captures); the upstream is
/// asked under the wire name; a reply that is all CNAMEs is chased with
/// the budget `depth_left`, and a fresh reply that is not OK or holds no
/// answers fails. A cached reply skips that classification and goes
/// straight to the CNAME check.
pub open spec fn spec_do_resolve(
    tables_ok: bool,
    cache: Seq<CacheRowView>,
    blacklist: Seq<BlacklistRowView>,
    entries: Seq<StubEntryView>,
    provider: Provider,
    name: Seq<char>,
    family: AddressFamily,
    now: u64,
    depth_left: nat,
) -> ResolveStep
    decreases depth_left,
{
    if tables_ok && spec_contains_name(blacklist, spec_normalize(name)) {
        ResolveStep { result: Err(Error::EmptyDNSReply), calls: Seq::empty() }
    } else {
        let cached = if tables_ok {
            spec_lookup_cache(cache, spec_normalize(name), family.spec_as_uint(), now)
        } else {
            None
        };
        match cached {
            Some(reply) => {
                if reply.cname_only() && reply.first_cname() is Some {
                    if depth_left == 0 {
                        ResolveStep { result: Err(Error::DNSErrorReply), calls: Seq::empty() }
                    } else {
                        spec_do_resolve(
                            tables_ok,
                            cache,
                            blacklist,
                            entries,
                            provider,
                            reply.first_cname().unwrap(),
                            family,
                            now,
                            (depth_left - 1) as nat,
                        )
                    }
                } else {
                    ResolveStep { result: Ok(reply), calls: Seq::empty() }
                }
            },
            None => {
                let call = CallView {
                    provider,
                    name: spec_wire_name(name),
                    record_type: family.spec_record_type(),
                };
                match spec_stub_lookup(entries, spec_wire_name(name), family.spec_record_type()) {
                    Err(e) => ResolveStep { result: Err(e), calls: seq![call] },
                    Ok(reply) => {
                        if !reply.ok() {
                            ResolveStep { result: Err(Error::DNSErrorReply), calls: seq![call] }
                        } else if reply.no_answers() {
                            ResolveStep { result: Err(Error::EmptyDNSReply), calls: seq![call] }
                        } else if reply.cname_only() && reply.first_cname() is Some {
                            if depth_left == 0 {
                                ResolveStep {
                                    result: Err(Error::DNSErrorReply),
                                    calls: seq![call],
                                }
                            } else {
                                let sub = spec_do_resolve(
                                    tables_ok,
                                    cache,
                                    blacklist,
                                    entries,
                                    provider,
                                    reply.first_cname().unwrap(),
                                    family,
                                    now,
                                    (depth_left - 1) as nat,
                                );
                                ResolveStep {
                                    result: sub.result,
                                    calls: seq![call] + sub.calls,
                                }
                            }
                        } else {
                            ResolveStep { result: Ok(reply), calls: seq![call] }
                        }
                    },
                }
            },
        }
    }
}

/// How deep a CNAME chain is followed before the lookup fails.
pub const MAX_CNAME_DEPTH: u8 = 16;

/// The recursive resolution, executable: mirrors [`spec_do_resolve`]
/// against the store and the prepared upstream.
fn do_resolve(
    db: &Store,
    upstream: &mut UpstreamStub,
    provider: Provider,
    name: &String,
    family: AddressFamily,
    now: u64,
    depth_left: u8,
) -> (r: Result<DnsReply, Error>)
    ensures
        ({
            let step = spec_do_resolve(
                db@.tables_created,
                db@.cache,
                db@.blacklist,
                old(upstream)@.entries,
                provider,
                name@,
                family,
                now,
                depth_left as nat,
            );
            &&& final(upstream)@.entries == old(upstream)@.entries
            &&& final(upstream)@.calls == old(upstream)@.calls + step.calls
            &&& match r {
                Ok(d) => step.result == Ok::<ReplyView, Error>(d@),
                Err(e) => step.result == Err::<ReplyView, Error>(e),
            }
        }),
    decreases depth_left,
{
    let ghost step = spec_do_resolve(
        db@.tables_created,
        db@.cache,
        db@.blacklist,
        upstream@.entries,
        provider,
        name@,
        family,
        now,
        depth_left as nat,
    );

    match db.is_host_blocked(name.as_str()) {
        Ok(true) => {
            proof {
                assert(final(upstream)@.calls =~= old(upstream)@.calls + step.calls);
            }
            return Err(Error::EmptyDNSReply);
        },
        _ => {},
    }

    match db.get_dns_answer(name.as_str(), family.as_uint(), now) {
        Ok(Some(answer)) => {
            // Live cache hit: no upstream call; only the CNAME check is
            // left.
            if answer.is_cname_answer() {
                match answer.get_cname() {
                    Some(t) => {
                        if depth_left == 0 {
                            proof {
                                assert(final(upstream)@.calls =~= old(upstream)@.calls
                                    + step.calls);
                            }
                            return Err(Error::DNSErrorReply);
                        }
                        return do_resolve(db, upstream, provider, &t, family, now, depth_left - 1);
                    },
                    None => {},
                }
            }
            proof {
                assert(final(upstream)@.calls =~= old(upstream)@.calls + step.calls);
            }
            return Ok(answer);
        },
        _ => {},
    }

    let wire = wire_name(name.as_str());
    let rt = family.record_type();
    let response = match upstream.query(provider, wire, rt) {
        Ok(d) => d,
        Err(e) => {
            proof {
                assert(final(upstream)@.calls =~= old(upstream)@.calls + step.calls);
            }
            return Err(e);
        },
    };

    if !response.ok() {
        proof {
            assert(final(upstream)@.calls =~= old(upstream)@.calls + step.calls);
        }
        return Err(Error::DNSErrorReply);
    }
    if response.no_answers() {
        proof {
            assert(final(upstream)@.calls =~= old(upstream)@.calls + step.calls);
        }
        return Err(Error::EmptyDNSReply);
    }
    if response.is_cname_answer() {
        match response.get_cname() {
            Some(t) => {
                if depth_left == 0 {
                    proof {
                        assert(final(upstream)@.calls =~= old(upstream)@.calls + step.calls);
                    }
                    return Err(Error::DNSErrorReply);
                }
                let sub = do_resolve(db, upstream, provider, &t, family, now, depth_left - 1);
                proof {
                    assert(final(upstream)@.calls =~= old(upstream)@.calls + step.calls);
                }
                return sub;
            },
            None => {},
        }
    }
    proof {
        assert(final(upstream)@.calls =~= old(upstream)@.calls + step.calls);
    }
    Ok(response)
}

/// What one `resolve` call does, as a function of the normalized name:
/// the recursive resolution with the full CNAME budget.
pub open spec fn spec_resolve_step(
    st: StoreView,
    entries: Seq<StubEntryView>,
    provider: Provider,
    domain: Seq<char>,
    family: AddressFamily,
    now: u64,
) -> ResolveStep {
    spec_do_resolve(
        st.tables_created,
        st.cache,
        st.blacklist,
        entries,
        provider,
        spec_normalize(domain),
        family,
        now,
        MAX_CNAME_DEPTH as nat,
    )
}

/// The process name an audit row records: the name the process table gave,
/// or "unknown", normalized.
pub open spec fn spec_audit_process_name(process_name: Option<String>) -> Seq<char> {
    match process_name {
        Some(p) => spec_normalize(p@),
        None => spec_normalize("unknown"@),
    }
}

/// The resolver: the store handle and the settings.
#[derive(Debug)]
pub struct Resolver {
    pub database: Store,
    pub settings: ApplicationSettings,
}

impl Resolver {
    pub fn new(database: Store, settings: ApplicationSettings) -> (r: Resolver)
        ensures
            r.database@ == database@,
            r.settings@ == settings@,
    {
        Resolver { database, settings }
    }

    /// One lookup: audit, recursive resolution, projection to a host
    /// record, and cache write-back on success. The audit row is written
    /// first; audit and write-back failures are swallowed and never
    /// change the result.
    pub fn resolve(
        &mut self,
        process_name: Option<String>,
        domain: &str,
        family: AddressFamily,
        upstream: &mut UpstreamStub,
        now: u64,
    ) -> (r: Result<HostRecord, Error>)
        ensures
            ({
                let st = old(self).database@;
                let step = spec_resolve_step(
                    st,
                    old(upstream)@.entries,
                    old(self).settings.provider,
                    domain@,
                    family,
                    now,
                );
                let audited = if st.tables_created {
                    st.audit.push(
                        AuditRowView {
                            process_name: spec_audit_process_name(process_name),
                            dns_name: spec_normalize(domain@),
                            dns_family: family.spec_as_uint(),
                            created: now,
                        },
                    )
                } else {
                    st.audit
                };
                &&& final(self).settings@ == old(self).settings@
                &&& final(self).database@.settings == st.settings
                &&& final(self).database@.tables_created == st.tables_created
                &&& final(self).database@.blacklist == st.blacklist
                &&& final(self).database@.audit == audited
                &&& final(upstream)@.entries == old(upstream)@.entries
                &&& final(upstream)@.calls == old(upstream)@.calls + step.calls
                &&& match step.result {
                    Err(e) => r == Err::<HostRecord, Error>(e) && final(self).database@.cache
                        == st.cache,
                    Ok(reply) => match spec_resolved_host(reply) {
                        None => r == Err::<HostRecord, Error>(Error::EmptyDNSReply) && final(self).database@.cache == st.cache,
                        Some(h) => (match r {
                            Ok(host) => host@ == h,
                            Err(_) => false,
                        }) && final(self).database@.cache == (if st.tables_created && now
                            + spec_ttl_seconds(st.settings.ttl, reply) <= u64::MAX {
                            st.cache.push(
                                CacheRowView {
                                    dns_name: spec_normalize(domain@),
                                    dns_family: family.spec_as_uint(),
                                    answer: reply,
                                    expired: (now + spec_ttl_seconds(st.settings.ttl, reply)) as u64,
                                    created: now,
                                },
                            )
                        } else {
                            st.cache
                        }),
                    },
                }
            }),
    {
        // Audit first; a failure here must not affect the lookup.
        let pn = match process_name {
            Some(p) => p,
            None => String::from_str("unknown"),
        };
        let _ = self.database.create_dns_audit(pn.as_str(), domain, family.as_uint(), now);

        let name = normalize(domain);
        let response = match do_resolve(
            &self.database,
            upstream,
            self.settings.provider,
            &name,
            family,
            now,
            MAX_CNAME_DEPTH,
        ) {
            Ok(d) => d,
            Err(e) => {
                return Err(e);
            },
        };

        match response.resolved_host() {
            Some(host) => {
                // Write-back; a failure here is swallowed too.
                let _ = self.database.create_dns_answer(domain, family.as_uint(), &response, now);
                Ok(host)
            },
            None => Err(Error::EmptyDNSReply),
        }
    }

    /// Adds the host to the blacklist.
    pub fn add_to_blacklist(&mut self, host: &str, now: u64) -> (r: Result<bool, Error>)
        ensures
            !old(self).database@.tables_created ==> r == Err::<bool, Error>(Error::DatabaseError)
                && final(self).database@ == old(self).database@,
            old(self).database@.tables_created ==> r == Ok::<bool, Error>(true) && final(self).database@ == (StoreView {
                blacklist: old(self).database@.blacklist.push(
                    BlacklistRowView { dns_name: spec_normalize(host@), created: now },
                ),
                ..old(self).database@
            }),
            final(self).settings@ == old(self).settings@,
    {
        self.database.create_host_blocked(host, now)
    }

    /// Removes the host from the blacklist; reports whether it was there.
    pub fn remove_from_blacklist(&mut self, host: &str) -> (r: Result<bool, Error>)
        ensures
            !old(self).database@.tables_created ==> r == Err::<bool, Error>(Error::DatabaseError)
                && final(self).database@ == old(self).database@,
            old(self).database@.tables_created ==> r == Ok::<bool, Error>(
                spec_contains_name(old(self).database@.blacklist, spec_normalize(host@)),
            ) && final(self).database@ == (StoreView {
                blacklist: crate::store::spec_without_name(
                    old(self).database@.blacklist,
                    spec_normalize(host@),
                ),
                ..old(self).database@
            }),
            final(self).settings@ == old(self).settings@,
    {
        self.database.delete_host_blocked(host)
    }

    /// Retrieves one audit page.
    pub fn get_queries(&self, page: u64) -> (r: Result<AuditDnsQueryPage, Error>)
        ensures
            !self.database@.tables_created ==> r == Err::<AuditDnsQueryPage, Error>(
                Error::DatabaseError,
            ),
            self.database@.tables_created ==> match r {
                Ok(p) => p.current_page == page && p.results@.map_values(
                    |q: crate::store::AuditDnsQuery| q@,
                ) == crate::store::spec_audit_page(self.database@.audit, page),
                Err(_) => false,
            },
    {
        self.database.get_dns_audit(page)
    }
}

/// Resolution is insensitive to the case and surrounding whitespace of the
/// looked-up name: the pipeline acts on the normalized name, and
/// normalizing twice is normalizing once, so a name and its normalized
/// form run the very same resolution. The stored audit and cache keys are
/// likewise the normalized name for both.
pub proof fn lemma_resolve_case_insensitive(
    st: StoreView,
    entries: Seq<StubEntryView>,
    provider: Provider,
    domain: Seq<char>,
    family: AddressFamily,
    now: u64,
)
    ensures
        spec_resolve_step(st, entries, provider, spec_normalize(domain), family, now)
            == spec_resolve_step(st, entries, provider, domain, family, now),
        spec_normalize(spec_normalize(domain)) == spec_normalize(domain),
{
    lemma_normalize_idempotent(domain);
}

/// A blacklisted name resolves to an empty reply, whatever the cache and
/// the upstream hold, and no upstream call is made for it.
pub proof fn lemma_blocked_resolves_empty(
    st: StoreView,
    entries: Seq<StubEntryView>,
    provider: Provider,
    domain: Seq<char>,
    family: AddressFamily,
    now: u64,
)
    requires
        st.tables_created,
        spec_contains_name(st.blacklist, spec_normalize(domain)),
    ensures
        spec_resolve_step(st, entries, provider, domain, family, now).result == Err::<
            ReplyView,
            Error,
        >(Error::EmptyDNSReply),
        spec_resolve_step(st, entries, provider, domain, family, now).calls == Seq::<
            CallView,
        >::empty(),
{
    lemma_normalize_idempotent(domain);
}

/// A live cached reply that is not all CNAMEs answers the lookup with no
/// upstream call at all, whatever the prepared upstream holds.
pub proof fn lemma_cache_hit_skips_upstream(
    st: StoreView,
    entries: Seq<StubEntryView>,
    provider: Provider,
    domain: Seq<char>,
    family: AddressFamily,
    now: u64,
    reply: ReplyView,
)
    requires
        st.tables_created,
        !spec_contains_name(st.blacklist, spec_normalize(domain)),
        spec_lookup_cache(st.cache, spec_normalize(domain), family.spec_as_uint(), now) == Some(
            reply,
        ),
        !reply.cname_only(),
    ensures
        spec_resolve_step(st, entries, provider, domain, family, now).result == Ok::<
            ReplyView,
            Error,
        >(reply),
        spec_resolve_step(st, entries, provider, domain, family, now).calls == Seq::<
            CallView,
        >::empty(),
{
    lemma_normalize_idempotent(domain);
}

/// A fresh lookup queries upstream under the wire name — the punycode
/// form for a non-ASCII name — while the blacklist, the cache and the
/// audit log are keyed by the normalized name itself.
pub proof fn lemma_upstream_uses_wire_name(
    st: StoreView,
    entries: Seq<StubEntryView>,
    provider: Provider,
    domain: Seq<char>,
    family: AddressFamily,
    now: u64,
)
    requires
        !(st.tables_created && spec_contains_name(st.blacklist, spec_normalize(domain))),
        st.tables_created ==> spec_lookup_cache(
            st.cache,
            spec_normalize(domain),
            family.spec_as_uint(),
            now,
        ) is None,
    ensures
        spec_resolve_step(st, entries, provider, domain, family, now).calls.len() >= 1,
        spec_resolve_step(st, entries, provider, domain, family, now).calls[0] == (CallView {
            provider,
            name: spec_wire_name(spec_normalize(domain)),
            record_type: family.spec_record_type(),
        }),
{
    let n = spec_normalize(domain);
    lemma_normalize_idempotent(domain);
    let step = spec_do_resolve(
        st.tables_created,
        st.cache,
        st.blacklist,
        entries,
        provider,
        n,
        family,
        now,
        MAX_CNAME_DEPTH as nat,
    );
    let call = CallView {
        provider,
        name: spec_wire_name(n),
        record_type: family.spec_record_type(),
    };
    match spec_stub_lookup(entries, spec_wire_name(n), family.spec_record_type()) {
        Err(_) => {
            assert(step.calls == seq![call]);
        },
        Ok(reply) => {
            assert(step.calls.len() >= 1 && step.calls[0] == call);
        },
    }
}

/// When the upstream answers a fresh lookup with a reply that is all
/// CNAMEs, the engine issues a follow-up call for the target name with
/// the same record type — provided the target itself is neither
/// blacklisted nor cached.
pub proof fn lemma_cname_followed(
    st: StoreView,
    entries: Seq<StubEntryView>,
    provider: Provider,
    domain: Seq<char>,
    family: AddressFamily,
    now: u64,
    reply: ReplyView,
    target: Seq<char>,
)
    requires
        st.tables_created,
        !spec_contains_name(st.blacklist, spec_normalize(domain)),
        spec_lookup_cache(st.cache, spec_normalize(domain), family.spec_as_uint(), now) is None,
        spec_stub_lookup(entries, spec_wire_name(spec_normalize(domain)), family.spec_record_type())
            == Ok::<ReplyView, Error>(reply),
        reply.ok(),
        !reply.no_answers(),
        reply.cname_only(),
        reply.first_cname() == Some(target),
        !spec_contains_name(st.blacklist, spec_normalize(target)),
        spec_lookup_cache(st.cache, spec_normalize(target), family.spec_as_uint(), now) is None,
    ensures
        spec_resolve_step(st, entries, provider, domain, family, now).calls.len() >= 2,
        spec_resolve_step(st, entries, provider, domain, family, now).calls[1] == (CallView {
            provider,
            name: spec_wire_name(target),
            record_type: family.spec_record_type(),
        }),
{
    let n = spec_normalize(domain);
    lemma_normalize_idempotent(domain);
    lemma_normalize_idempotent(target);
    let step = spec_do_resolve(
        st.tables_created,
        st.cache,
        st.blacklist,
        entries,
        provider,
        n,
        family,
        now,
        MAX_CNAME_DEPTH as nat,
    );
    let sub = spec_do_resolve(
        st.tables_created,
        st.cache,
        st.blacklist,
        entries,
        provider,
        target,
        family,
        now,
        (MAX_CNAME_DEPTH - 1) as nat,
    );
    let call0 = CallView {
        provider,
        name: spec_wire_name(n),
        record_type: family.spec_record_type(),
    };
    assert(step.calls == seq![call0] + sub.calls);
    let call1 = CallView {
        provider,
        name: spec_wire_name(target),
        record_type: family.spec_record_type(),
    };
    match spec_stub_lookup(entries, spec_wire_name(target), family.spec_record_type()) {
        Err(_) => {
            assert(sub.calls == seq![call1]);
        },
        Ok(_) => {
            assert(sub.calls.len() >= 1 && sub.calls[0] == call1);
        },
    }
    assert(step.calls[1] == sub.calls[0]);
}

} // verus!
