//! Semantics of the persistent store: the audit log, the positive answer
//! cache with TTL-driven expiry, and the blacklist.
//!
//! The store is modelled as the three tables it keeps, in insertion order;
//! the implicit row id of a table is the row's position, so "ordered by id
//! descending" is the reverse of insertion order. The surrounding process
//! persists the same tables in an SQL database file; the contracts here are
//! the meaning its queries must have. Every operation normalizes the
//! hostnames (and process names) it stores or compares, and every operation
//! fails with a database error until the schema has been created.

use vstd::prelude::*;

use crate::dns::{DnsReply, ReplyView};
use crate::error::Error;
use crate::hostname::{normalize, spec_normalize};
use crate::settings::{ApplicationSettings, SettingsView, TTlConfig};

verus! {

/// One row of the append-only audit table.
#[derive(Debug)]
pub struct AuditRow {
    pub process_name: String,
    pub dns_name: String,
    pub dns_family: u32,
    pub created: u64,
}

/// Mathematical image of an [`AuditRow`].
pub struct AuditRowView {
    pub process_name: Seq<char>,
    pub dns_name: Seq<char>,
    pub dns_family: u32,
    pub created: u64,
}

impl View for AuditRow {
    type V = AuditRowView;

    open spec fn view(&self) -> AuditRowView {
        AuditRowView {
            process_name: self.process_name@,
            dns_name: self.dns_name@,
            dns_family: self.dns_family,
            created: self.created,
        }
    }
}

/// One row of the answer cache.
#[derive(Debug)]
pub struct CacheRow {
    pub dns_name: String,
    pub dns_family: u32,
    pub answer: DnsReply,
    /// Absolute Unix second up to which (inclusively) the row is live.
    pub expired: u64,
    pub created: u64,
}

/// Mathematical image of a [`CacheRow`].
pub struct CacheRowView {
    pub dns_name: Seq<char>,
    pub dns_family: u32,
    pub answer: ReplyView,
    pub expired: u64,
    pub created: u64,
}

impl View for CacheRow {
    type V = CacheRowView;

    open spec fn view(&self) -> CacheRowView {
        CacheRowView {
            dns_name: self.dns_name@,
            dns_family: self.dns_family,
            answer: self.answer@,
            expired: self.expired,
            created: self.created,
        }
    }
}

/// One row of the blacklist table.
#[derive(Debug)]
pub struct BlacklistRow {
    pub dns_name: String,
    pub created: u64,
}

/// Mathematical image of a [`BlacklistRow`].
pub struct BlacklistRowView {
    pub dns_name: Seq<char>,
    pub created: u64,
}

impl View for BlacklistRow {
    type V = BlacklistRowView;

    open spec fn view(&self) -> BlacklistRowView {
        BlacklistRowView { dns_name: self.dns_name@, created: self.created }
    }
}

/// One entry of a retrieved audit page.
#[derive(Debug)]
pub struct AuditDnsQuery {
    pub process_name: String,
    pub host: String,
    pub create: u64,
}

/// Mathematical image of an [`AuditDnsQuery`].
pub struct AuditQueryView {
    pub process_name: Seq<char>,
    pub host: Seq<char>,
    pub create: u64,
}

impl View for AuditDnsQuery {
    type V = AuditQueryView;

    open spec fn view(&self) -> AuditQueryView {
        AuditQueryView { process_name: self.process_name@, host: self.host@, create: self.create }
    }
}

impl AuditDnsQuery {
    pub fn new(process_name: String, host: String, create: u64) -> (r: Self)
        ensures
            r@ == (AuditQueryView { process_name: process_name@, host: host@, create }),
    {
        Self { process_name, host, create }
    }
}

/// One page of audit entries, newest first.
#[derive(Debug)]
pub struct AuditDnsQueryPage {
    pub current_page: u64,
    pub results: Vec<AuditDnsQuery>,
}

impl AuditDnsQueryPage {
    pub fn new(current_page: u64, results: Vec<AuditDnsQuery>) -> (r: Self)
        ensures
            r.current_page == current_page,
            r.results@.map_values(|q: AuditDnsQuery| q@) == results@.map_values(
                |q: AuditDnsQuery| q@,
            ),
    {
        Self { current_page, results }
    }
}

/// The store: schema flag, settings, and the three tables in insertion
/// order.
#[derive(Debug)]
pub struct Store {
    pub tables_created: bool,
    pub settings: ApplicationSettings,
    pub audit: Vec<AuditRow>,
    pub cache: Vec<CacheRow>,
    pub blacklist: Vec<BlacklistRow>,
}

/// Mathematical image of the whole [`Store`].
pub struct StoreView {
    pub tables_created: bool,
    pub settings: SettingsView,
    pub audit: Seq<AuditRowView>,
    pub cache: Seq<CacheRowView>,
    pub blacklist: Seq<BlacklistRowView>,
}

impl View for Store {
    type V = StoreView;

    open spec fn view(&self) -> StoreView {
        StoreView {
            tables_created: self.tables_created,
            settings: self.settings@,
            audit: self.audit@.map_values(|r: AuditRow| r@),
            cache: self.cache@.map_values(|r: CacheRow| r@),
            blacklist: self.blacklist@.map_values(|r: BlacklistRow| r@),
        }
    }
}

/// Whether some blacklist row carries exactly this (normalized) name.
pub open spec fn spec_contains_name(rows: Seq<BlacklistRowView>, name: Seq<char>) -> bool {
    exists|i: int| 0 <= i < rows.len() && (#[trigger] rows[i]).dns_name == name
}

/// The blacklist with every row of the given name removed, order kept.
pub open spec fn spec_without_name(rows: Seq<BlacklistRowView>, name: Seq<char>) -> Seq<
    BlacklistRowView,
>
    decreases rows.len(),
{
    if rows.len() == 0 {
        Seq::empty()
    } else {
        let rest = spec_without_name(rows.drop_last(), name);
        if rows.last().dns_name == name {
            rest
        } else {
            rest.push(rows.last())
        }
    }
}

/// The answer of the most recently inserted row that matches the key and is
/// still live at `now` (a row is live while `expired >= now`).
pub open spec fn spec_lookup_cache(
    rows: Seq<CacheRowView>,
    name: Seq<char>,
    family: u32,
    now: u64,
) -> Option<ReplyView>
    decreases rows.len(),
{
    if rows.len() == 0 {
        None
    } else if rows.last().dns_name == name && rows.last().dns_family == family
        && rows.last().expired >= now {
        Some(rows.last().answer)
    } else {
        spec_lookup_cache(rows.drop_last(), name, family, now)
    }
}

/// How many seconds a freshly written cache row lives: the configured
/// custom TTL, or the reply's own largest TTL, or 60 when the reply has
/// none.
pub open spec fn spec_ttl_seconds(ttl: TTlConfig, reply: ReplyView) -> int {
    match ttl {
        TTlConfig::Custom(t) => t as int,
        TTlConfig::Default => match reply.expiration() {
            Some(e) => e as int,
            None => 60,
        },
    }
}

/// The audit entries of one page: the rows in reverse insertion order
/// (newest first), positions `page * 10` up to but excluding
/// `page * 10 + 10`.
pub open spec fn spec_audit_page(rows: Seq<AuditRowView>, page: u64) -> Seq<AuditQueryView> {
    let rev = rows.reverse();
    let lo = (page as int) * 10;
    if lo >= rev.len() {
        Seq::empty()
    } else {
        let hi = if lo + 10 <= rev.len() {
            lo + 10
        } else {
            rev.len() as int
        };
        rev.subrange(lo, hi).map_values(
            |r: AuditRowView|
                AuditQueryView { process_name: r.process_name, host: r.dns_name, create: r.created },
        )
    }
}

impl Store {
    /// A store over a fresh database: no schema yet, all tables empty.
    pub fn new(settings: ApplicationSettings) -> (r: Store)
        ensures
            r@.tables_created == false,
            r@.settings == settings@,
            r@.audit == Seq::<AuditRowView>::empty(),
            r@.cache == Seq::<CacheRowView>::empty(),
            r@.blacklist == Seq::<BlacklistRowView>::empty(),
    {
        let r = Store {
            tables_created: false,
            settings,
            audit: Vec::new(),
            cache: Vec::new(),
            blacklist: Vec::new(),
        };
        proof {
            assert(r@.audit =~= Seq::<AuditRowView>::empty());
            assert(r@.cache =~= Seq::<CacheRowView>::empty());
            assert(r@.blacklist =~= Seq::<BlacklistRowView>::empty());
        }
        r
    }

    /// Creates the schema. Creating it again changes nothing: the operation
    /// only ever moves the store to the same with-schema state.
    pub fn create_tables(&mut self) -> (r: Result<bool, Error>)
        ensures
            r == Ok::<bool, Error>(true),
            final(self)@ == (StoreView { tables_created: true, ..old(self)@ }),
    {
        self.tables_created = true;
        Ok(true)
    }

    /// Looks up a live cached reply for the normalized host and family.
    /// A miss is `Ok(None)`; an error is reported only for a missing
    /// schema, so the caller can tell the two apart.
    pub fn get_dns_answer(&self, host: &str, family: u32, now: u64) -> (r: Result<
        Option<DnsReply>,
        Error,
    >)
        ensures
            !self@.tables_created ==> r == Err::<Option<DnsReply>, Error>(Error::DatabaseError),
            self@.tables_created ==> match r {
                Ok(Some(a)) => spec_lookup_cache(
                    self@.cache,
                    spec_normalize(host@),
                    family,
                    now,
                ) == Some(a@),
                Ok(None) => spec_lookup_cache(self@.cache, spec_normalize(host@), family, now)
                    is None,
                Err(_) => false,
            },
    {
        if !self.tables_created {
            return Err(Error::DatabaseError);
        }
        let key = normalize(host);
        let ghost rows = self@.cache;
        let mut i: usize = self.cache.len();
        proof {
            assert(rows.take(i as int) =~= rows);
        }
        while i > 0
            invariant
                self@.tables_created,
                0 <= i <= self.cache.len(),
                rows == self@.cache,
                rows.len() == self.cache.len(),
                key@ == spec_normalize(host@),
                spec_lookup_cache(rows, key@, family, now) == spec_lookup_cache(
                    rows.take(i as int),
                    key@,
                    family,
                    now,
                ),
            decreases i,
        {
            i = i - 1;
            let row = &self.cache[i];
            proof {
                assert(rows.take(i + 1).last() == rows[i as int]);
                assert(rows.take(i + 1).drop_last() =~= rows.take(i as int));
            }
            if row.dns_name == key && row.dns_family == family && row.expired >= now {
                return Ok(Some(row.answer.clone()));
            }
        }
        proof {
            assert(rows.take(0) =~= Seq::<CacheRowView>::empty());
        }
        Ok(None)
    }

    /// Writes a reply back to the cache under the normalized host. The row
    /// expires `spec_ttl_seconds` after `now`; when that instant does not
    /// fit the clock arithmetic, the write fails as a database error.
    pub fn create_dns_answer(&mut self, host: &str, family: u32, reply: &DnsReply, now: u64) -> (r:
        Result<bool, Error>)
        ensures
            !old(self)@.tables_created ==> r == Err::<bool, Error>(Error::DatabaseError) && final(self)@ == old(self)@,
            old(self)@.tables_created ==> {
                let ttl = spec_ttl_seconds(old(self)@.settings.ttl, reply@);
                if now + ttl <= u64::MAX {
                    r == Ok::<bool, Error>(true) && final(self)@ == (StoreView {
                        cache: old(self)@.cache.push(
                            CacheRowView {
                                dns_name: spec_normalize(host@),
                                dns_family: family,
                                answer: reply@,
                                expired: (now + ttl) as u64,
                                created: now,
                            },
                        ),
                        ..old(self)@
                    })
                } else {
                    r == Err::<bool, Error>(Error::DatabaseError) && final(self)@ == old(self)@
                }
            },
    {
        if !self.tables_created {
            return Err(Error::DatabaseError);
        }
        let ttl_secs: u64 = match self.settings.ttl {
            TTlConfig::Custom(t) => t,
            TTlConfig::Default => match reply.get_expiration() {
                Some(e) => e as u64,
                None => 60,
            },
        };
        let expired = match now.checked_add(ttl_secs) {
            Some(e) => e,
            None => {
                return Err(Error::DatabaseError);
            },
        };
        let key = normalize(host);
        self.cache.push(
            CacheRow { dns_name: key, dns_family: family, answer: reply.clone(), expired, created: now },
        );
        proof {
            assert(final(self)@.cache =~= old(self)@.cache.push(
                CacheRowView {
                    dns_name: spec_normalize(host@),
                    dns_family: family,
                    answer: reply@,
                    expired,
                    created: now,
                },
            ));
        }
        Ok(true)
    }

    /// Whether the normalized host stands in the blacklist.
    pub fn is_host_blocked(&self, host: &str) -> (r: Result<bool, Error>)
        ensures
            !self@.tables_created ==> r == Err::<bool, Error>(Error::DatabaseError),
            self@.tables_created ==> r == Ok::<bool, Error>(
                spec_contains_name(self@.blacklist, spec_normalize(host@)),
            ),
    {
        if !self.tables_created {
            return Err(Error::DatabaseError);
        }
        let key = normalize(host);
        let mut i: usize = 0;
        while i < self.blacklist.len()
            invariant
                self@.tables_created,
                0 <= i <= self.blacklist.len(),
                key@ == spec_normalize(host@),
                self@.blacklist.len() == self.blacklist.len(),
                forall|k: int| 0 <= k < i ==> (#[trigger] self@.blacklist[k]).dns_name != key@,
            decreases self.blacklist.len() - i,
        {
            if self.blacklist[i].dns_name == key {
                assert(self@.blacklist[i as int].dns_name == key@);
                return Ok(true);
            }
            i = i + 1;
        }
        Ok(false)
    }

    /// Appends a blacklist row for the normalized host.
    pub fn create_host_blocked(&mut self, host: &str, now: u64) -> (r: Result<bool, Error>)
        ensures
            !old(self)@.tables_created ==> r == Err::<bool, Error>(Error::DatabaseError) && final(self)@ == old(self)@,
            old(self)@.tables_created ==> r == Ok::<bool, Error>(true) && final(self)@
                == (StoreView {
                blacklist: old(self)@.blacklist.push(
                    BlacklistRowView { dns_name: spec_normalize(host@), created: now },
                ),
                ..old(self)@
            }),
    {
        if !self.tables_created {
            return Err(Error::DatabaseError);
        }
        let key = normalize(host);
        self.blacklist.push(BlacklistRow { dns_name: key, created: now });
        proof {
            assert(final(self)@.blacklist =~= old(self)@.blacklist.push(
                BlacklistRowView { dns_name: spec_normalize(host@), created: now },
            ));
        }
        Ok(true)
    }

    /// Deletes every blacklist row of the normalized host; reports whether
    /// any row was deleted.
    pub fn delete_host_blocked(&mut self, host: &str) -> (r: Result<bool, Error>)
        ensures
            !old(self)@.tables_created ==> r == Err::<bool, Error>(Error::DatabaseError) && final(self)@ == old(self)@,
            old(self)@.tables_created ==> r == Ok::<bool, Error>(
                spec_contains_name(old(self)@.blacklist, spec_normalize(host@)),
            ) && final(self)@ == (StoreView {
                blacklist: spec_without_name(old(self)@.blacklist, spec_normalize(host@)),
                ..old(self)@
            }),
    {
        if !self.tables_created {
            return Err(Error::DatabaseError);
        }
        let key = normalize(host);
        let ghost rows = self@.blacklist;
        let mut kept: Vec<BlacklistRow> = Vec::new();
        let mut removed = false;
        let mut i: usize = 0;
        while i < self.blacklist.len()
            invariant
                0 <= i <= self.blacklist.len(),
                rows == self@.blacklist,
                rows.len() == self.blacklist.len(),
                key@ == spec_normalize(host@),
                kept@.map_values(|r: BlacklistRow| r@) =~= spec_without_name(
                    rows.take(i as int),
                    key@,
                ),
                removed == spec_contains_name(rows.take(i as int), key@),
            decreases self.blacklist.len() - i,
        {
            proof {
                assert(rows.take(i + 1).last() == rows[i as int]);
                assert(rows.take(i + 1).drop_last() =~= rows.take(i as int));
            }
            let row = &self.blacklist[i];
            if row.dns_name == key {
                removed = true;
                proof {
                    assert(spec_contains_name(rows.take(i + 1), key@));
                }
            } else {
                kept.push(BlacklistRow { dns_name: row.dns_name.clone(), created: row.created });
                proof {
                    if spec_contains_name(rows.take(i as int), key@) {
                        let w = choose|k: int|
                            0 <= k < i && (#[trigger] rows.take(i as int)[k]).dns_name == key@;
                        assert(rows.take(i + 1)[w].dns_name == key@);
                    }
                    if spec_contains_name(rows.take(i + 1), key@) {
                        let w = choose|k: int|
                            0 <= k < i + 1 && (#[trigger] rows.take(i + 1)[k]).dns_name == key@;
                        assert(rows.take(i as int)[w].dns_name == key@);
                    }
                }
            }
            i = i + 1;
        }
        proof {
            assert(rows.take(rows.len() as int) =~= rows);
        }
        self.blacklist = kept;
        Ok(removed)
    }

    /// Appends an audit row; both the process name and the host are stored
    /// in normalized form.
    pub fn create_dns_audit(&mut self, process_name: &str, host: &str, family: u32, now: u64) -> (r:
        Result<bool, Error>)
        ensures
            !old(self)@.tables_created ==> r == Err::<bool, Error>(Error::DatabaseError) && final(self)@ == old(self)@,
            old(self)@.tables_created ==> r == Ok::<bool, Error>(true) && final(self)@
                == (StoreView {
                audit: old(self)@.audit.push(
                    AuditRowView {
                        process_name: spec_normalize(process_name@),
                        dns_name: spec_normalize(host@),
                        dns_family: family,
                        created: now,
                    },
                ),
                ..old(self)@
            }),
    {
        if !self.tables_created {
            return Err(Error::DatabaseError);
        }
        let pn = normalize(process_name);
        let key = normalize(host);
        self.audit.push(
            AuditRow { process_name: pn, dns_name: key, dns_family: family, created: now },
        );
        proof {
            assert(final(self)@.audit =~= old(self)@.audit.push(
                AuditRowView {
                    process_name: spec_normalize(process_name@),
                    dns_name: spec_normalize(host@),
                    dns_family: family,
                    created: now,
                },
            ));
        }
        Ok(true)
    }

    /// Retrieves one audit page: at most 10 entries, newest first, starting
    /// `page * 10` entries from the end of the log. The returned page
    /// carries the requested page number.
    pub fn get_dns_audit(&self, page: u64) -> (r: Result<AuditDnsQueryPage, Error>)
        ensures
            !self@.tables_created ==> r == Err::<AuditDnsQueryPage, Error>(Error::DatabaseError),
            self@.tables_created ==> match r {
                Ok(p) => p.current_page == page && p.results@.map_values(|q: AuditDnsQuery| q@)
                    == spec_audit_page(self@.audit, page),
                Err(_) => false,
            },
    {
        if !self.tables_created {
            return Err(Error::DatabaseError);
        }
        let ghost rows = self@.audit;
        let len = self.audit.len();
        let mut results: Vec<AuditDnsQuery> = Vec::new();
        let lo_fits: Option<u64> = page.checked_mul(10);
        match lo_fits {
            None => {
                proof {
                    assert(spec_audit_page(rows, page) =~= results@.map_values(
                        |q: AuditDnsQuery| q@,
                    ));
                }
                Ok(AuditDnsQueryPage { current_page: page, results })
            },
            Some(lo64) => {
                if lo64 >= len as u64 {
                    proof {
                        assert(spec_audit_page(rows, page) =~= results@.map_values(
                            |q: AuditDnsQuery| q@,
                        ));
                    }
                    return Ok(AuditDnsQueryPage { current_page: page, results });
                }
                let lo = lo64 as usize;
                let avail = len - lo;
                let count = if avail < 10 {
                    avail
                } else {
                    10
                };
                let mut j: usize = 0;
                while j < count
                    invariant
                        rows == self@.audit,
                        rows.len() == self.audit.len(),
                        len == self.audit.len(),
                        lo < len,
                        lo == (page as int) * 10,
                        count <= len - lo,
                        count == if len - lo < 10 {
                            len - lo
                        } else {
                            10
                        },
                        0 <= j <= count,
                        results@.len() == j,
                        forall|k: int|
                            0 <= k < j ==> (#[trigger] results@[k])@ == (AuditQueryView {
                                process_name: rows[len - 1 - lo - k].process_name,
                                host: rows[len - 1 - lo - k].dns_name,
                                create: rows[len - 1 - lo - k].created,
                            }),
                    decreases count - j,
                {
                    let row = &self.audit[len - 1 - lo - j];
                    results.push(
                        AuditDnsQuery {
                            process_name: row.process_name.clone(),
                            host: row.dns_name.clone(),
                            create: row.created,
                        },
                    );
                    j = j + 1;
                }
                proof {
                    assert(spec_audit_page(rows, page) =~= results@.map_values(
                        |q: AuditDnsQuery| q@,
                    ));
                }
                Ok(AuditDnsQueryPage { current_page: page, results })
            },
        }
    }
}

/// No row of a given name: deleting that name leaves the blacklist as it
/// was.
proof fn lemma_without_absent_name(rows: Seq<BlacklistRowView>, name: Seq<char>)
    requires
        !spec_contains_name(rows, name),
    ensures
        spec_without_name(rows, name) == rows,
    decreases rows.len(),
{
    if rows.len() > 0 {
        assert(forall|i: int|
            0 <= i < rows.len() - 1 ==> rows.drop_last()[i] == #[trigger] rows[i]);
        lemma_without_absent_name(rows.drop_last(), name);
        assert(rows[rows.len() - 1].dns_name != name);
        assert(spec_without_name(rows, name) =~= rows);
    } else {
        assert(spec_without_name(rows, name) =~= rows);
    }
}

/// Blacklisting a name that was not blacklisted and then deleting it
/// restores the blacklist exactly. (When the name already stands in the
/// blacklist, deletion also removes those earlier rows, so the premise is
/// needed.)
pub proof fn lemma_blacklist_roundtrip(
    rows: Seq<BlacklistRowView>,
    name: Seq<char>,
    created: u64,
)
    requires
        !spec_contains_name(rows, name),
    ensures
        spec_without_name(rows.push(BlacklistRowView { dns_name: name, created }), name) == rows,
{
    let pushed = rows.push(BlacklistRowView { dns_name: name, created });
    assert(pushed.drop_last() =~= rows);
    lemma_without_absent_name(rows, name);
}

/// Creating the schema any number of times gives the very state that
/// creating it once gives: the operation only sets the schema flag and
/// touches nothing else.
pub proof fn lemma_create_tables_idempotent(s: StoreView)
    ensures
        (StoreView { tables_created: true, ..(StoreView { tables_created: true, ..s }) })
            == (StoreView { tables_created: true, ..s }),
{
}

/// A custom TTL is what it is, whatever the reply says: the lifetime of the
/// written row does not depend on the reply.
pub proof fn lemma_custom_ttl_independent(c: u64, r1: ReplyView, r2: ReplyView)
    ensures
        spec_ttl_seconds(TTlConfig::Custom(c), r1) == spec_ttl_seconds(TTlConfig::Custom(c), r2),
        spec_ttl_seconds(TTlConfig::Custom(c), r1) == c as int,
{
}

/// A written cache row answers lookups for its key at every instant up to
/// its expiry, and is invisible afterwards: for `t <= t0 + ttl` the lookup
/// returns exactly the written reply, and for `t > t0 + ttl` the lookup
/// behaves as if the row had never been written.
pub proof fn lemma_cache_roundtrip(
    rows: Seq<CacheRowView>,
    name: Seq<char>,
    family: u32,
    reply: ReplyView,
    t0: u64,
    ttl: int,
    t: u64,
)
    requires
        0 <= ttl,
        t0 + ttl <= u64::MAX,
    ensures
        t <= t0 + ttl ==> spec_lookup_cache(
            rows.push(
                CacheRowView {
                    dns_name: name,
                    dns_family: family,
                    answer: reply,
                    expired: (t0 + ttl) as u64,
                    created: t0,
                },
            ),
            name,
            family,
            t,
        ) == Some(reply),
        t > t0 + ttl ==> spec_lookup_cache(
            rows.push(
                CacheRowView {
                    dns_name: name,
                    dns_family: family,
                    answer: reply,
                    expired: (t0 + ttl) as u64,
                    created: t0,
                },
            ),
            name,
            family,
            t,
        ) == spec_lookup_cache(rows, name, family, t),
{
    let row = CacheRowView {
        dns_name: name,
        dns_family: family,
        answer: reply,
        expired: (t0 + ttl) as u64,
        created: t0,
    };
    let pushed = rows.push(row);
    assert(pushed.last() == row);
    assert(pushed.drop_last() =~= rows);
}

/// An audit page holds at most 10 entries, and entry `j` is the row at
/// position `len - 1 - (page * 10 + j)` of the log: later rows (higher
/// implicit ids) come strictly first.
pub proof fn lemma_audit_page_shape(rows: Seq<AuditRowView>, page: u64)
    ensures
        spec_audit_page(rows, page).len() <= 10,
        forall|j: int|
            0 <= j < spec_audit_page(rows, page).len() ==> #[trigger] spec_audit_page(rows, page)[j]
                == (AuditQueryView {
                process_name: rows[rows.len() - 1 - (page as int) * 10 - j].process_name,
                host: rows[rows.len() - 1 - (page as int) * 10 - j].dns_name,
                create: rows[rows.len() - 1 - (page as int) * 10 - j].created,
            }),
{
    let rev = rows.reverse();
    let lo = (page as int) * 10;
    if lo < rev.len() {
        assert forall|j: int| 0 <= j < spec_audit_page(rows, page).len() implies #[trigger]
            spec_audit_page(rows, page)[j] == (AuditQueryView {
            process_name: rows[rows.len() - 1 - lo - j].process_name,
            host: rows[rows.len() - 1 - lo - j].dns_name,
            create: rows[rows.len() - 1 - lo - j].created,
        }) by {
            assert(rev[lo + j] == rows[rows.len() - 1 - lo - j]);
        }
    }
}

} // verus!
