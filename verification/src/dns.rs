//! Typed model of an upstream DNS-over-HTTPS reply and of the record types
//! the service understands.

use vstd::prelude::*;
use vstd::string::StringExecFns;

use crate::ip::{spec_parse_ipv4, spec_parse_ipv6, Ipv4Address, Ipv6Address};

verus! {

/// The two address families a lookup can ask for.
#[derive(Clone, Copy, Debug, PartialEq, Eq, Structural)]
pub enum AddressFamily {
    IPv4,
    IPv6,
}

/// The four DNS record types that appear in parsed replies. A lookup asks
/// for A or AAAA; CNAME and SOA only occur inside replies.
#[derive(Clone, Copy, Debug, PartialEq, Eq, Structural)]
pub enum DnsRecordType {
    A,
    AAAA,
    CNAME,
    SOA,
}

impl DnsRecordType {
    /// The numeric encoding of the record type on the wire.
    pub open spec fn spec_as_uint(self) -> u32 {
        match self {
            DnsRecordType::A => 1,
            DnsRecordType::CNAME => 5,
            DnsRecordType::SOA => 6,
            DnsRecordType::AAAA => 28,
        }
    }

    pub fn as_uint(&self) -> (r: u32)
        ensures
            r == self.spec_as_uint(),
    {
        match self {
            DnsRecordType::A => 1,
            DnsRecordType::CNAME => 5,
            DnsRecordType::SOA => 6,
            DnsRecordType::AAAA => 28,
        }
    }

    /// The record type with the given numeric encoding, if there is one.
    pub open spec fn spec_from_uint(value: u32) -> Option<DnsRecordType> {
        if value == 1 {
            Some(DnsRecordType::A)
        } else if value == 5 {
            Some(DnsRecordType::CNAME)
        } else if value == 6 {
            Some(DnsRecordType::SOA)
        } else if value == 28 {
            Some(DnsRecordType::AAAA)
        } else {
            None
        }
    }

    pub fn from_uint(value: u32) -> (r: Option<DnsRecordType>)
        ensures
            r == Self::spec_from_uint(value),
    {
        match value {
            1 => Some(DnsRecordType::A),
            5 => Some(DnsRecordType::CNAME),
            6 => Some(DnsRecordType::SOA),
            28 => Some(DnsRecordType::AAAA),
            _ => None,
        }
    }

    /// The textual name of the record type, as it is sent in the upstream
    /// query string.
    pub open spec fn spec_text(self) -> Seq<char> {
        match self {
            DnsRecordType::A => "A"@,
            DnsRecordType::AAAA => "AAAA"@,
            DnsRecordType::CNAME => "CNAME"@,
            DnsRecordType::SOA => "SOA"@,
        }
    }

    pub fn text(&self) -> (r: String)
        ensures
            r@ == self.spec_text(),
    {
        match self {
            DnsRecordType::A => String::from_str("A"),
            DnsRecordType::AAAA => String::from_str("AAAA"),
            DnsRecordType::CNAME => String::from_str("CNAME"),
            DnsRecordType::SOA => String::from_str("SOA"),
        }
    }
}

impl AddressFamily {
    /// The record type a lookup for this family asks upstream for.
    pub open spec fn spec_record_type(self) -> DnsRecordType {
        match self {
            AddressFamily::IPv4 => DnsRecordType::A,
            AddressFamily::IPv6 => DnsRecordType::AAAA,
        }
    }

    pub fn record_type(&self) -> (r: DnsRecordType)
        ensures
            r == self.spec_record_type(),
    {
        match self {
            AddressFamily::IPv4 => DnsRecordType::A,
            AddressFamily::IPv6 => DnsRecordType::AAAA,
        }
    }

    /// The numeric encoding of the family: the record type's number.
    pub open spec fn spec_as_uint(self) -> u32 {
        self.spec_record_type().spec_as_uint()
    }

    pub fn as_uint(&self) -> (r: u32)
        ensures
            r == self.spec_as_uint(),
    {
        match self {
            AddressFamily::IPv4 => 1,
            AddressFamily::IPv6 => 28,
        }
    }
}

/// One entry of the question section: the name and type that were asked.
#[derive(Debug)]
pub struct DnsQuestion {
    pub name: String,
    pub record_type: DnsRecordType,
}

/// Mathematical image of a [`DnsQuestion`].
pub struct QuestionView {
    pub name: Seq<char>,
    pub record_type: DnsRecordType,
}

impl View for DnsQuestion {
    type V = QuestionView;

    open spec fn view(&self) -> QuestionView {
        QuestionView { name: self.name@, record_type: self.record_type }
    }
}

impl Clone for DnsQuestion {
    fn clone(&self) -> (r: Self)
        ensures
            r@ == self@,
    {
        DnsQuestion { name: self.name.clone(), record_type: self.record_type }
    }
}

/// One entry of the answer or authority section.
#[derive(Debug)]
pub struct DnsEntry {
    /// The record owner.
    pub name: String,
    pub record_type: DnsRecordType,
    /// Seconds the answer may be cached before it goes stale.
    pub ttl: u32,
    /// The record value: an address in text for A and AAAA, a target name
    /// for CNAME.
    pub data: String,
}

/// Mathematical image of a [`DnsEntry`].
pub struct EntryView {
    pub name: Seq<char>,
    pub record_type: DnsRecordType,
    pub ttl: u32,
    pub data: Seq<char>,
}

impl View for DnsEntry {
    type V = EntryView;

    open spec fn view(&self) -> EntryView {
        EntryView {
            name: self.name@,
            record_type: self.record_type,
            ttl: self.ttl,
            data: self.data@,
        }
    }
}

impl Clone for DnsEntry {
    fn clone(&self) -> (r: Self)
        ensures
            r@ == self@,
    {
        DnsEntry {
            name: self.name.clone(),
            record_type: self.record_type,
            ttl: self.ttl,
            data: self.data.clone(),
        }
    }
}

/// Parsed form of an upstream reply: the status, the header flags, and the
/// question, answer and authority sections.
#[derive(Debug)]
pub struct DnsReply {
    /// 0 means NOERROR.
    pub status: u8,
    /// Truncated bit.
    pub tc: bool,
    /// Recursion-desired bit.
    pub rd: bool,
    /// Recursion-available bit.
    pub ra: bool,
    /// Every record was verified with DNSSEC.
    pub ad: bool,
    /// DNSSEC validation was disabled by the client.
    pub cd: bool,
    pub questions: Vec<DnsQuestion>,
    pub answers: Vec<DnsEntry>,
    pub authority: Vec<DnsEntry>,
}

/// Mathematical image of a [`DnsReply`].
pub struct ReplyView {
    pub status: u8,
    pub tc: bool,
    pub rd: bool,
    pub ra: bool,
    pub ad: bool,
    pub cd: bool,
    pub questions: Seq<QuestionView>,
    pub answers: Seq<EntryView>,
    pub authority: Seq<EntryView>,
}

impl View for DnsReply {
    type V = ReplyView;

    open spec fn view(&self) -> ReplyView {
        ReplyView {
            status: self.status,
            tc: self.tc,
            rd: self.rd,
            ra: self.ra,
            ad: self.ad,
            cd: self.cd,
            questions: self.questions@.map_values(|q: DnsQuestion| q@),
            answers: self.answers@.map_values(|e: DnsEntry| e@),
            authority: self.authority@.map_values(|e: DnsEntry| e@),
        }
    }
}

/// The data of the first CNAME entry, if any.
pub open spec fn spec_first_cname(es: Seq<EntryView>) -> Option<Seq<char>>
    decreases es.len(),
{
    if es.len() == 0 {
        None
    } else if es.first().record_type == DnsRecordType::CNAME {
        Some(es.first().data)
    } else {
        spec_first_cname(es.drop_first())
    }
}

/// The largest TTL among the entries, or nothing when there are none.
pub open spec fn spec_max_ttl(es: Seq<EntryView>) -> Option<u32>
    decreases es.len(),
{
    if es.len() == 0 {
        None
    } else {
        match spec_max_ttl(es.drop_last()) {
            None => Some(es.last().ttl),
            Some(m) => Some(if es.last().ttl >= m { es.last().ttl } else { m }),
        }
    }
}

impl ReplyView {
    /// The upstream reported no error.
    pub open spec fn ok(self) -> bool {
        self.status == 0
    }

    pub open spec fn no_answers(self) -> bool {
        self.answers.len() == 0
    }

    pub open spec fn no_question(self) -> bool {
        self.questions.len() == 0
    }

    /// There is at least one answer and every answer is a CNAME.
    pub open spec fn cname_only(self) -> bool {
        self.answers.len() > 0 && forall|i: int|
            0 <= i < self.answers.len() ==> (#[trigger] self.answers[i]).record_type
                == DnsRecordType::CNAME
    }

    pub open spec fn first_cname(self) -> Option<Seq<char>> {
        spec_first_cname(self.answers)
    }

    pub open spec fn expiration(self) -> Option<u32> {
        spec_max_ttl(self.answers)
    }
}

impl DnsReply {
    /// The upstream reported no error: status 0 (NOERROR).
    pub fn ok(&self) -> (r: bool)
        ensures
            r == self@.ok(),
    {
        self.status == 0
    }

    /// The answer section is empty.
    pub fn no_answers(&self) -> (r: bool)
        ensures
            r == self@.no_answers(),
    {
        self.answers.len() == 0
    }

    /// The question section is empty.
    pub fn no_question(&self) -> (r: bool)
        ensures
            r == self@.no_question(),
    {
        self.questions.len() == 0
    }

    /// True when the reply holds answers and every one of them is a CNAME.
    /// The non-emptiness is part of the meaning: an empty answer section is
    /// not a CNAME reply.
    pub fn is_cname_answer(&self) -> (r: bool)
        ensures
            r == self@.cname_only(),
    {
        if self.answers.len() == 0 {
            return false;
        }
        let mut i: usize = 0;
        while i < self.answers.len()
            invariant
                0 <= i <= self.answers.len(),
                forall|k: int|
                    0 <= k < i ==> (#[trigger] self@.answers[k]).record_type
                        == DnsRecordType::CNAME,
            decreases self.answers.len() - i,
        {
            if !matches!(self.answers[i].record_type, DnsRecordType::CNAME) {
                assert(self@.answers[i as int].record_type != DnsRecordType::CNAME);
                return false;
            }
            i = i + 1;
        }
        true
    }

    /// The data of the first CNAME answer, if any.
    pub fn get_cname(&self) -> (r: Option<String>)
        ensures
            match r {
                Some(s) => self@.first_cname() == Some(s@),
                None => self@.first_cname() is None,
            },
    {
        let ghost es = self@.answers;
        proof {
            assert(es.skip(0) =~= es);
        }
        let mut i: usize = 0;
        while i < self.answers.len()
            invariant
                0 <= i <= self.answers.len(),
                es == self@.answers,
                es.len() == self.answers.len(),
                spec_first_cname(es) == spec_first_cname(es.skip(i as int)),
            decreases self.answers.len() - i,
        {
            if matches!(self.answers[i].record_type, DnsRecordType::CNAME) {
                proof {
                    assert(es.skip(i as int).first() == es[i as int]);
                }
                return Some(self.answers[i].data.clone());
            }
            proof {
                assert(es.skip(i as int).first() == es[i as int]);
                assert(es.skip(i as int).drop_first() =~= es.skip(i + 1));
            }
            i = i + 1;
        }
        proof {
            assert(es.skip(i as int).len() == 0);
        }
        None
    }

    /// The number of seconds the reply may be cached: the largest TTL among
    /// the answers, or nothing when the answer section is empty.
    pub fn get_expiration(&self) -> (r: Option<u32>)
        ensures
            r == self@.expiration(),
    {
        let ghost es = self@.answers;
        let mut best: Option<u32> = None;
        let mut i: usize = 0;
        while i < self.answers.len()
            invariant
                0 <= i <= self.answers.len(),
                es == self@.answers,
                es.len() == self.answers.len(),
                best == spec_max_ttl(es.take(i as int)),
            decreases self.answers.len() - i,
        {
            let t = self.answers[i].ttl;
            proof {
                assert(es.take(i + 1).drop_last() =~= es.take(i as int));
                assert(es.take(i + 1).last() == es[i as int]);
            }
            best = match best {
                None => Some(t),
                Some(m) => if t >= m {
                    Some(t)
                } else {
                    Some(m)
                },
            };
            i = i + 1;
        }
        proof {
            assert(es.take(i as int) =~= es);
        }
        best
    }
}

/// The addresses a lookup hands back: one list, tagged by family.
#[derive(Debug)]
pub enum HostAddresses {
    V4(Vec<Ipv4Address>),
    V6(Vec<Ipv6Address>),
}

/// Mathematical image of [`HostAddresses`].
pub enum AddressesView {
    V4(Seq<Ipv4Address>),
    V6(Seq<Ipv6Address>),
}

impl View for HostAddresses {
    type V = AddressesView;

    open spec fn view(&self) -> AddressesView {
        match self {
            HostAddresses::V4(v) => AddressesView::V4(v@),
            HostAddresses::V6(v) => AddressesView::V6(v@),
        }
    }
}

/// Whether the tagged list holds no address.
pub open spec fn spec_no_addresses(a: AddressesView) -> bool {
    match a {
        AddressesView::V4(v) => v.len() == 0,
        AddressesView::V6(v) => v.len() == 0,
    }
}

/// The value a successful lookup returns: the canonical name, the alias
/// list (always empty in this design), and the addresses.
#[derive(Debug)]
pub struct HostRecord {
    pub name: String,
    pub aliases: Vec<String>,
    pub addresses: HostAddresses,
}

/// Mathematical image of a [`HostRecord`].
pub struct HostView {
    pub name: Seq<char>,
    pub aliases: Seq<Seq<char>>,
    pub addresses: AddressesView,
}

impl View for HostRecord {
    type V = HostView;

    open spec fn view(&self) -> HostView {
        HostView {
            name: self.name@,
            aliases: self.aliases@.map_values(|a: String| a@),
            addresses: self.addresses@,
        }
    }
}

/// The IPv4 addresses among the given texts, parse failures dropped.
pub open spec fn spec_v4_list(ds: Seq<Seq<char>>) -> Seq<Ipv4Address>
    decreases ds.len(),
{
    if ds.len() == 0 {
        Seq::empty()
    } else {
        let rest = spec_v4_list(ds.drop_last());
        match spec_parse_ipv4(ds.last()) {
            Some(a) => rest.push(a),
            None => rest,
        }
    }
}

/// The IPv6 addresses among the given texts, parse failures dropped.
pub open spec fn spec_v6_list(ds: Seq<Seq<char>>) -> Seq<Ipv6Address>
    decreases ds.len(),
{
    if ds.len() == 0 {
        Seq::empty()
    } else {
        let rest = spec_v6_list(ds.drop_last());
        match spec_parse_ipv6(ds.last()) {
            Some(a) => rest.push(a),
            None => rest,
        }
    }
}

/// How a record type reads a list of address texts: A reads them as IPv4,
/// AAAA as IPv6, and the other types carry no addresses at all.
pub open spec fn spec_to_addresses(rt: DnsRecordType, ds: Seq<Seq<char>>) -> AddressesView {
    match rt {
        DnsRecordType::A => AddressesView::V4(spec_v4_list(ds)),
        DnsRecordType::AAAA => AddressesView::V6(spec_v6_list(ds)),
        DnsRecordType::CNAME => AddressesView::V4(Seq::empty()),
        DnsRecordType::SOA => AddressesView::V4(Seq::empty()),
    }
}

impl DnsRecordType {
    /// Parses the given texts as addresses of this record type, dropping
    /// whatever does not parse; types without addresses yield an empty
    /// IPv4 list.
    pub fn to_addresses(&self, ips: &Vec<String>) -> (r: HostAddresses)
        ensures
            r@ == spec_to_addresses(*self, ips@.map_values(|d: String| d@)),
    {
        let ghost ds = ips@.map_values(|d: String| d@);
        proof {
            assert(forall|k: int|
                #![trigger ds[k]]
                #![trigger ips@[k]]
                0 <= k < ips@.len() ==> ds[k] == ips@[k]@);
        }
        match self {
            DnsRecordType::A => {
                let mut v: Vec<Ipv4Address> = Vec::new();
                let mut i: usize = 0;
                proof {
                    assert(ds.take(0) =~= Seq::<Seq<char>>::empty());
                    assert(v@ =~= spec_v4_list(ds.take(0)));
                }
                while i < ips.len()
                    invariant
                        0 <= i <= ips@.len(),
                        ds == ips@.map_values(|d: String| d@),
                        ds.len() == ips@.len(),
                        v@ == spec_v4_list(ds.take(i as int)),
                    decreases ips@.len() - i,
                {
                    proof {
                        assert(ds.take(i + 1).drop_last() =~= ds.take(i as int));
                        assert(ds.take(i + 1).last() == ds[i as int]);
                        assert(ds[i as int] == ips@[i as int]@);
                    }
                    match crate::ip::parse_ipv4(ips[i].as_str()) {
                        Some(a) => {
                            v.push(a);
                        },
                        None => {},
                    }
                    i = i + 1;
                }
                proof {
                    assert(ds.take(ds.len() as int) =~= ds);
                }
                HostAddresses::V4(v)
            },
            DnsRecordType::AAAA => {
                let mut v: Vec<Ipv6Address> = Vec::new();
                let mut i: usize = 0;
                proof {
                    assert(ds.take(0) =~= Seq::<Seq<char>>::empty());
                    assert(v@ =~= spec_v6_list(ds.take(0)));
                }
                while i < ips.len()
                    invariant
                        0 <= i <= ips@.len(),
                        ds == ips@.map_values(|d: String| d@),
                        ds.len() == ips@.len(),
                        v@ == spec_v6_list(ds.take(i as int)),
                    decreases ips@.len() - i,
                {
                    proof {
                        assert(ds.take(i + 1).drop_last() =~= ds.take(i as int));
                        assert(ds.take(i + 1).last() == ds[i as int]);
                        assert(ds[i as int] == ips@[i as int]@);
                    }
                    match crate::ip::parse_ipv6(ips[i].as_str()) {
                        Some(a) => {
                            v.push(a);
                        },
                        None => {},
                    }
                    i = i + 1;
                }
                proof {
                    assert(ds.take(ds.len() as int) =~= ds);
                }
                HostAddresses::V6(v)
            },
            DnsRecordType::CNAME => {
                let v: Vec<Ipv4Address> = Vec::new();
                proof {
                    assert(v@ =~= Seq::<Ipv4Address>::empty());
                }
                HostAddresses::V4(v)
            },
            DnsRecordType::SOA => {
                let v: Vec<Ipv4Address> = Vec::new();
                proof {
                    assert(v@ =~= Seq::<Ipv4Address>::empty());
                }
                HostAddresses::V4(v)
            },
        }
    }
}

/// The data texts of the entries that are not CNAMEs, in order.
pub open spec fn spec_non_cname_data(es: Seq<EntryView>) -> Seq<Seq<char>>
    decreases es.len(),
{
    if es.len() == 0 {
        Seq::empty()
    } else {
        let rest = spec_non_cname_data(es.drop_last());
        if es.last().record_type == DnsRecordType::CNAME {
            rest
        } else {
            rest.push(es.last().data)
        }
    }
}

/// The host record a reply projects to: nothing unless both the question
/// and answer sections are non-empty, and nothing when no answer data
/// parses as an address of the questioned type. Otherwise the first
/// question's name with the parsed addresses and no aliases.
pub open spec fn spec_resolved_host(r: ReplyView) -> Option<HostView> {
    if r.answers.len() == 0 || r.questions.len() == 0 {
        None
    } else {
        let addrs = spec_to_addresses(r.questions[0].record_type, spec_non_cname_data(r.answers));
        if spec_no_addresses(addrs) {
            None
        } else {
            Some(HostView { name: r.questions[0].name, aliases: Seq::empty(), addresses: addrs })
        }
    }
}

impl DnsReply {
    /// Projects the reply to the host record handed back to the caller,
    /// per [`spec_resolved_host`].
    pub fn resolved_host(&self) -> (r: Option<HostRecord>)
        ensures
            match r {
                Some(h) => spec_resolved_host(self@) == Some(h@),
                None => spec_resolved_host(self@) is None,
            },
    {
        if self.answers.len() == 0 || self.questions.len() == 0 {
            return None;
        }
        let ghost es = self@.answers;
        let mut raw: Vec<String> = Vec::new();
        let mut i: usize = 0;
        proof {
            assert(es.take(0) =~= Seq::<EntryView>::empty());
            assert(raw@.map_values(|d: String| d@) =~= spec_non_cname_data(es.take(0)));
        }
        while i < self.answers.len()
            invariant
                0 <= i <= self.answers.len(),
                es == self@.answers,
                es.len() == self.answers.len(),
                raw@.map_values(|d: String| d@) == spec_non_cname_data(es.take(i as int)),
            decreases self.answers.len() - i,
        {
            proof {
                assert(es.take(i + 1).drop_last() =~= es.take(i as int));
                assert(es.take(i + 1).last() == es[i as int]);
            }
            if !matches!(self.answers[i].record_type, DnsRecordType::CNAME) {
                let ghost old_raw = raw@;
                raw.push(self.answers[i].data.clone());
                proof {
                    assert(raw@.map_values(|d: String| d@) =~= old_raw.map_values(
                        |d: String| d@,
                    ).push(es[i as int].data));
                }
            }
            i = i + 1;
        }
        proof {
            assert(es.take(es.len() as int) =~= es);
        }
        let question = &self.questions[0];
        proof {
            assert(self@.questions[0] == self.questions@[0]@);
        }
        let addresses = question.record_type.to_addresses(&raw);
        let empty = match &addresses {
            HostAddresses::V4(v) => v.len() == 0,
            HostAddresses::V6(v) => v.len() == 0,
        };
        if empty {
            return None;
        }
        let aliases: Vec<String> = Vec::new();
        let h = HostRecord { name: question.name.clone(), aliases, addresses };
        proof {
            assert(h@.aliases =~= Seq::<Seq<char>>::empty());
        }
        Some(h)
    }
}

/// Clones a question section entry by entry.
fn clone_questions(v: &Vec<DnsQuestion>) -> (r: Vec<DnsQuestion>)
    ensures
        r@.map_values(|q: DnsQuestion| q@) == v@.map_values(|q: DnsQuestion| q@),
{
    let mut r: Vec<DnsQuestion> = Vec::new();
    let mut i: usize = 0;
    while i < v.len()
        invariant
            0 <= i <= v.len(),
            r@.len() == i,
            forall|k: int| 0 <= k < i ==> (#[trigger] r@[k])@ == v@[k]@,
        decreases v.len() - i,
    {
        r.push(v[i].clone());
        i = i + 1;
    }
    proof {
        assert(r@.map_values(|q: DnsQuestion| q@) =~= v@.map_values(|q: DnsQuestion| q@));
    }
    r
}

/// Clones an answer or authority section entry by entry.
fn clone_entries(v: &Vec<DnsEntry>) -> (r: Vec<DnsEntry>)
    ensures
        r@.map_values(|e: DnsEntry| e@) == v@.map_values(|e: DnsEntry| e@),
{
    let mut r: Vec<DnsEntry> = Vec::new();
    let mut i: usize = 0;
    while i < v.len()
        invariant
            0 <= i <= v.len(),
            r@.len() == i,
            forall|k: int| 0 <= k < i ==> (#[trigger] r@[k])@ == v@[k]@,
        decreases v.len() - i,
    {
        r.push(v[i].clone());
        i = i + 1;
    }
    proof {
        assert(r@.map_values(|e: DnsEntry| e@) =~= v@.map_values(|e: DnsEntry| e@));
    }
    r
}

impl Clone for DnsReply {
    fn clone(&self) -> (r: Self)
        ensures
            r@ == self@,
    {
        DnsReply {
            status: self.status,
            tc: self.tc,
            rd: self.rd,
            ra: self.ra,
            ad: self.ad,
            cd: self.cd,
            questions: clone_questions(&self.questions),
            answers: clone_entries(&self.answers),
            authority: clone_entries(&self.authority),
        }
    }
}

} // verus!
