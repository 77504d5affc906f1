//! The JSON form of a reply.
//!
//! A cached reply is stored as one line of JSON, with the upstream wire
//! shape's capitalized keys, the sections in a fixed order, and no
//! whitespace. The reader below accepts exactly that shape, with the
//! `Answer` and `Authority` sections optional — a reply without them has
//! empty sections — and with out-of-range numbers and unknown record
//! types rejected. Writing a reply and reading it back gives the reply
//! back exactly.

use vstd::prelude::*;
use vstd::string::StrSliceExecFns;
use vstd::string::StringExecFns;

use crate::dns::{
    DnsEntry, DnsQuestion, DnsRecordType, DnsReply, EntryView, QuestionView, ReplyView,
};
use crate::hostname::push_char;
use crate::settings::{is_digit, spec_dec_value};

verus! {

// ---------------------------------------------------------------------
// Writing
// ---------------------------------------------------------------------

/// The digit character of one decimal digit.
pub open spec fn digit_char(d: nat) -> char {
    ((48 + d) as u8) as char
}

/// The decimal digits of a number, most significant first.
pub open spec fn spec_digits(n: nat) -> Seq<char>
    decreases n,
{
    if n < 10 {
        seq![digit_char(n)]
    } else {
        spec_digits(n / 10).push(digit_char(n % 10))
    }
}

/// One character, escaped for a JSON string: quote and backslash get a
/// backslash, everything else stands as itself.
pub open spec fn esc_char(c: char) -> Seq<char> {
    if c == '"' || c == '\\' {
        seq!['\\', c]
    } else {
        seq![c]
    }
}

/// A character sequence, escaped for a JSON string.
pub open spec fn spec_escaped(v: Seq<char>) -> Seq<char>
    decreases v.len(),
{
    if v.len() == 0 {
        Seq::empty()
    } else {
        spec_escaped(v.drop_last()) + esc_char(v.last())
    }
}

/// A JSON string literal: the escaped characters between quotes.
pub open spec fn ser_string(v: Seq<char>) -> Seq<char> {
    seq!['"'] + spec_escaped(v) + seq!['"']
}

/// A JSON boolean.
pub open spec fn ser_bool(b: bool) -> Seq<char> {
    if b {
        "true"@
    } else {
        "false"@
    }
}

/// A question, as one JSON object.
pub open spec fn ser_question(q: QuestionView) -> Seq<char> {
    "{\"name\":"@ + ser_string(q.name) + ",\"type\":"@ + spec_digits(
        q.record_type.spec_as_uint() as nat,
    ) + seq!['}']
}

/// An answer or authority entry, as one JSON object.
pub open spec fn ser_entry(e: EntryView) -> Seq<char> {
    "{\"name\":"@ + ser_string(e.name) + ",\"type\":"@ + spec_digits(
        e.record_type.spec_as_uint() as nat,
    ) + ",\"TTL\":"@ + spec_digits(e.ttl as nat) + ",\"data\":"@ + ser_string(e.data)
        + seq!['}']
}

/// The comma-separated questions of a section.
pub open spec fn ser_qitems(qs: Seq<QuestionView>) -> Seq<char>
    decreases qs.len(),
{
    if qs.len() == 0 {
        Seq::empty()
    } else if qs.len() == 1 {
        ser_question(qs.last())
    } else {
        ser_qitems(qs.drop_last()) + seq![','] + ser_question(qs.last())
    }
}

/// The comma-separated entries of a section.
pub open spec fn ser_eitems(es: Seq<EntryView>) -> Seq<char>
    decreases es.len(),
{
    if es.len() == 0 {
        Seq::empty()
    } else if es.len() == 1 {
        ser_entry(es.last())
    } else {
        ser_eitems(es.drop_last()) + seq![','] + ser_entry(es.last())
    }
}

/// The canonical JSON text of a reply.
pub open spec fn ser_reply(r: ReplyView) -> Seq<char> {
    "{\"Status\":"@ + spec_digits(r.status as nat) + ",\"TC\":"@ + ser_bool(r.tc) + ",\"RD\":"@
        + ser_bool(r.rd) + ",\"RA\":"@ + ser_bool(r.ra) + ",\"AD\":"@ + ser_bool(r.ad)
        + ",\"CD\":"@ + ser_bool(r.cd) + ",\"Question\":["@ + ser_qitems(r.questions)
        + "],\"Answer\":["@ + ser_eitems(r.answers) + "],\"Authority\":["@ + ser_eitems(
        r.authority,
    ) + "]}"@
}

/// Appends the decimal digits of `n`.
fn write_u32(out: &mut String, n: u32)
    ensures
        final(out)@ == old(out)@ + spec_digits(n as nat),
    decreases n,
{
    if n < 10 {
        push_char(out, ((48 + n) as u8) as char);
        proof {
            assert(old(out)@ + spec_digits(n as nat) =~= old(out)@.push(digit_char(n as nat)));
        }
    } else {
        write_u32(out, n / 10);
        push_char(out, ((48 + n % 10) as u8) as char);
        proof {
            assert(old(out)@ + spec_digits(n as nat) =~= (old(out)@ + spec_digits(
                n as nat / 10,
            )).push(digit_char(n as nat % 10)));
        }
    }
}

/// Appends a string value in its quoted, escaped form.
fn write_string(out: &mut String, v: &str)
    ensures
        final(out)@ == old(out)@ + ser_string(v@),
{
    push_char(out, '"');
    let n = v.unicode_len();
    let mut i: usize = 0;
    while i < n
        invariant
            n == v@.len(),
            0 <= i <= n,
            out@ == old(out)@ + seq!['"'] + spec_escaped(v@.take(i as int)),
        decreases n - i,
    {
        let c = v.get_char(i);
        if c == '"' || c == '\\' {
            push_char(out, '\\');
            push_char(out, c);
        } else {
            push_char(out, c);
        }
        proof {
            assert(v@.take(i + 1).drop_last() =~= v@.take(i as int));
            assert(v@.take(i + 1).last() == v@[i as int]);
            assert(out@ =~= old(out)@ + seq!['"'] + spec_escaped(v@.take(i + 1)));
        }
        i = i + 1;
    }
    push_char(out, '"');
    proof {
        assert(v@.take(n as int) =~= v@);
        assert(out@ =~= old(out)@ + ser_string(v@));
    }
}

/// Appends a boolean.
fn write_bool(out: &mut String, b: bool)
    ensures
        final(out)@ == old(out)@ + ser_bool(b),
{
    if b {
        out.append("true");
    } else {
        out.append("false");
    }
}

/// Appends one question object.
fn write_question(out: &mut String, q: &DnsQuestion)
    ensures
        final(out)@ == old(out)@ + ser_question(q@),
{
    out.append("{\"name\":");
    write_string(out, q.name.as_str());
    out.append(",\"type\":");
    write_u32(out, q.record_type.as_uint());
    push_char(out, '}');
    proof {
        assert(out@ =~= old(out)@ + ser_question(q@));
    }
}

/// Appends one entry object.
fn write_entry(out: &mut String, e: &DnsEntry)
    ensures
        final(out)@ == old(out)@ + ser_entry(e@),
{
    out.append("{\"name\":");
    write_string(out, e.name.as_str());
    out.append(",\"type\":");
    write_u32(out, e.record_type.as_uint());
    out.append(",\"TTL\":");
    write_u32(out, e.ttl);
    out.append(",\"data\":");
    write_string(out, e.data.as_str());
    push_char(out, '}');
    proof {
        assert(out@ =~= old(out)@ + ser_entry(e@));
    }
}

/// Appends a comma-separated question section.
fn write_questions(out: &mut String, qs: &Vec<DnsQuestion>)
    ensures
        final(out)@ == old(out)@ + ser_qitems(qs@.map_values(|q: DnsQuestion| q@)),
{
    let ghost views = qs@.map_values(|q: DnsQuestion| q@);
    let mut i: usize = 0;
    proof {
        assert(views.take(0) =~= Seq::<QuestionView>::empty());
        assert(out@ =~= old(out)@ + ser_qitems(views.take(0)));
    }
    while i < qs.len()
        invariant
            0 <= i <= qs@.len(),
            views == qs@.map_values(|q: DnsQuestion| q@),
            views.len() == qs@.len(),
            out@ == old(out)@ + ser_qitems(views.take(i as int)),
        decreases qs@.len() - i,
    {
        if i > 0 {
            push_char(out, ',');
        }
        write_question(out, &qs[i]);
        proof {
            assert(views.take(i + 1).drop_last() =~= views.take(i as int));
            assert(views.take(i + 1).last() == views[i as int]);
            assert(views[i as int] == qs@[i as int]@);
            assert(out@ =~= old(out)@ + ser_qitems(views.take(i + 1)));
        }
        i = i + 1;
    }
    proof {
        assert(views.take(views.len() as int) =~= views);
    }
}

/// Appends a comma-separated entry section.
fn write_entries(out: &mut String, es: &Vec<DnsEntry>)
    ensures
        final(out)@ == old(out)@ + ser_eitems(es@.map_values(|e: DnsEntry| e@)),
{
    let ghost views = es@.map_values(|e: DnsEntry| e@);
    let mut i: usize = 0;
    proof {
        assert(views.take(0) =~= Seq::<EntryView>::empty());
        assert(out@ =~= old(out)@ + ser_eitems(views.take(0)));
    }
    while i < es.len()
        invariant
            0 <= i <= es@.len(),
            views == es@.map_values(|e: DnsEntry| e@),
            views.len() == es@.len(),
            out@ == old(out)@ + ser_eitems(views.take(i as int)),
        decreases es@.len() - i,
    {
        if i > 0 {
            push_char(out, ',');
        }
        write_entry(out, &es[i]);
        proof {
            assert(views.take(i + 1).drop_last() =~= views.take(i as int));
            assert(views.take(i + 1).last() == views[i as int]);
            assert(views[i as int] == es@[i as int]@);
            assert(out@ =~= old(out)@ + ser_eitems(views.take(i + 1)));
        }
        i = i + 1;
    }
    proof {
        assert(views.take(views.len() as int) =~= views);
    }
}

/// The canonical JSON text of a reply, per [`ser_reply`].
pub fn reply_to_json(r: &DnsReply) -> (out: String)
    ensures
        out@ == ser_reply(r@),
{
    let mut out = String::new();
    out.append("{\"Status\":");
    write_u32(&mut out, r.status as u32);
    out.append(",\"TC\":");
    write_bool(&mut out, r.tc);
    out.append(",\"RD\":");
    write_bool(&mut out, r.rd);
    out.append(",\"RA\":");
    write_bool(&mut out, r.ra);
    out.append(",\"AD\":");
    write_bool(&mut out, r.ad);
    out.append(",\"CD\":");
    write_bool(&mut out, r.cd);
    out.append(",\"Question\":[");
    write_questions(&mut out, &r.questions);
    out.append("],\"Answer\":[");
    write_entries(&mut out, &r.answers);
    out.append("],\"Authority\":[");
    write_entries(&mut out, &r.authority);
    out.append("]}");
    proof {
        assert(out@ =~= ser_reply(r@));
    }
    out
}

// ---------------------------------------------------------------------
// Reading
// ---------------------------------------------------------------------

/// Whether `s` begins with `p`.
pub open spec fn spec_starts_with(s: Seq<char>, p: Seq<char>) -> bool {
    s.len() >= p.len() && s.take(p.len() as int) == p
}

/// Length of the leading run of decimal digits.
pub open spec fn digits_prefix_len(s: Seq<char>) -> int
    decreases s.len(),
{
    if s.len() == 0 || !is_digit(s.first()) {
        0
    } else {
        1 + digits_prefix_len(s.drop_first())
    }
}

/// A number: the leading digit run, read as a decimal `u32`; nothing when
/// there is no digit or the value does not fit.
pub open spec fn parse_number(s: Seq<char>) -> Option<(u32, int)> {
    let e = digits_prefix_len(s);
    if e == 0 {
        None
    } else if spec_dec_value(s.take(e)) > u32::MAX {
        None
    } else {
        Some((spec_dec_value(s.take(e)) as u32, e))
    }
}

/// A boolean: the word `true` or `false`.
pub open spec fn parse_bool(s: Seq<char>) -> Option<(bool, int)> {
    if spec_starts_with(s, "true"@) {
        Some((true, "true"@.len() as int))
    } else if spec_starts_with(s, "false"@) {
        Some((false, "false"@.len() as int))
    } else {
        None
    }
}

/// The inside of a string literal, up to and including the closing quote:
/// a backslash escapes a quote or a backslash, everything else stands for
/// itself.
pub open spec fn parse_str_body(s: Seq<char>) -> Option<(Seq<char>, int)>
    decreases s.len(),
{
    if s.len() == 0 {
        None
    } else if s.first() == '"' {
        Some((Seq::empty(), 1))
    } else if s.first() == '\\' {
        if s.len() >= 2 && (s[1] == '"' || s[1] == '\\') {
            match parse_str_body(s.skip(2)) {
                Some(p) => Some((seq![s[1]] + p.0, p.1 + 2)),
                None => None,
            }
        } else {
            None
        }
    } else {
        match parse_str_body(s.skip(1)) {
            Some(p) => Some((seq![s.first()] + p.0, p.1 + 1)),
            None => None,
        }
    }
}

/// A string literal: a quote, the escaped content, a quote.
pub open spec fn parse_string(s: Seq<char>) -> Option<(Seq<char>, int)> {
    if s.len() > 0 && s.first() == '"' {
        match parse_str_body(s.skip(1)) {
            Some(p) => Some((p.0, p.1 + 1)),
            None => None,
        }
    } else {
        None
    }
}

proof fn lemma_str_body_bounds(s: Seq<char>)
    ensures
        parse_str_body(s) matches Some(p) ==> 1 <= p.1 <= s.len(),
    decreases s.len(),
{
    if s.len() > 0 && s.first() != '"' {
        if s.first() == '\\' {
            if s.len() >= 2 && (s[1] == '"' || s[1] == '\\') {
                lemma_str_body_bounds(s.skip(2));
            }
        } else {
            lemma_str_body_bounds(s.skip(1));
        }
    }
}

proof fn lemma_digits_prefix_bounds(s: Seq<char>)
    ensures
        0 <= digits_prefix_len(s) <= s.len(),
    decreases s.len(),
{
    if s.len() > 0 && is_digit(s.first()) {
        lemma_digits_prefix_bounds(s.drop_first());
    }
}

/// One question object.
pub open spec fn parse_question(s: Seq<char>) -> Option<(QuestionView, int)> {
    if !spec_starts_with(s, "{\"name\":"@) {
        None
    } else {
        let i1 = "{\"name\":"@.len() as int;
        match parse_string(s.skip(i1)) {
            None => None,
            Some(nm) => {
                let i2 = i1 + nm.1;
                if !spec_starts_with(s.skip(i2), ",\"type\":"@) {
                    None
                } else {
                    let i3 = i2 + ",\"type\":"@.len();
                    match parse_number(s.skip(i3)) {
                        None => None,
                        Some(num) => {
                            let i4 = i3 + num.1;
                            match DnsRecordType::spec_from_uint(num.0) {
                                None => None,
                                Some(rt) => if i4 < s.len() && s[i4] == '}' {
                                    Some(
                                        (QuestionView { name: nm.0, record_type: rt }, i4 + 1),
                                    )
                                } else {
                                    None
                                },
                            }
                        },
                    }
                }
            },
        }
    }
}

/// One answer or authority entry object.
pub open spec fn parse_entry(s: Seq<char>) -> Option<(EntryView, int)> {
    if !spec_starts_with(s, "{\"name\":"@) {
        None
    } else {
        let i1 = "{\"name\":"@.len() as int;
        match parse_string(s.skip(i1)) {
            None => None,
            Some(nm) => {
                let i2 = i1 + nm.1;
                if !spec_starts_with(s.skip(i2), ",\"type\":"@) {
                    None
                } else {
                    let i3 = i2 + ",\"type\":"@.len();
                    match parse_number(s.skip(i3)) {
                        None => None,
                        Some(num) => {
                            let i4 = i3 + num.1;
                            match DnsRecordType::spec_from_uint(num.0) {
                                None => None,
                                Some(rt) => if !spec_starts_with(s.skip(i4), ",\"TTL\":"@) {
                                    None
                                } else {
                                    let i5 = i4 + ",\"TTL\":"@.len();
                                    match parse_number(s.skip(i5)) {
                                        None => None,
                                        Some(ttl) => {
                                            let i6 = i5 + ttl.1;
                                            if !spec_starts_with(s.skip(i6), ",\"data\":"@) {
                                                None
                                            } else {
                                                let i7 = i6 + ",\"data\":"@.len();
                                                match parse_string(s.skip(i7)) {
                                                    None => None,
                                                    Some(dt) => {
                                                        let i8 = i7 + dt.1;
                                                        if i8 < s.len() && s[i8] == '}' {
                                                            Some(
                                                                (
                                                                    EntryView {
                                                                        name: nm.0,
                                                                        record_type: rt,
                                                                        ttl: ttl.0,
                                                                        data: dt.0,
                                                                    },
                                                                    i8 + 1,
                                                                ),
                                                            )
                                                        } else {
                                                            None
                                                        }
                                                    },
                                                }
                                            }
                                        },
                                    }
                                },
                            }
                        },
                    }
                }
            },
        }
    }
}

proof fn lemma_question_bounds(s: Seq<char>)
    ensures
        parse_question(s) matches Some(p) ==> 1 <= p.1 <= s.len(),
{
    if spec_starts_with(s, "{\"name\":"@) {
        let i1 = "{\"name\":"@.len() as int;
        lemma_str_body_bounds(s.skip(i1).skip(1));
        match parse_string(s.skip(i1)) {
            Some(nm) => {
                let i2 = i1 + nm.1;
                let i3 = i2 + ",\"type\":"@.len();
                lemma_digits_prefix_bounds(s.skip(i3));
            },
            None => {},
        }
    }
}

proof fn lemma_entry_bounds(s: Seq<char>)
    ensures
        parse_entry(s) matches Some(p) ==> 1 <= p.1 <= s.len(),
{
    if spec_starts_with(s, "{\"name\":"@) {
        let i1 = "{\"name\":"@.len() as int;
        lemma_str_body_bounds(s.skip(i1).skip(1));
        match parse_string(s.skip(i1)) {
            Some(nm) => {
                let i2 = i1 + nm.1;
                let i3 = i2 + ",\"type\":"@.len();
                lemma_digits_prefix_bounds(s.skip(i3));
                match parse_number(s.skip(i3)) {
                    Some(num) => {
                        let i4 = i3 + num.1;
                        let i5 = i4 + ",\"TTL\":"@.len();
                        lemma_digits_prefix_bounds(s.skip(i5));
                        match parse_number(s.skip(i5)) {
                            Some(ttl) => {
                                let i6 = i5 + ttl.1;
                                let i7 = i6 + ",\"data\":"@.len();
                                lemma_str_body_bounds(s.skip(i7).skip(1));
                            },
                            None => {},
                        }
                    },
                    None => {},
                }
            },
            None => {},
        }
    }
}

/// The questions after the first one: a comma and a question, repeated,
/// ending just before the closing bracket (which stays unconsumed).
pub open spec fn parse_qtail(s: Seq<char>) -> Option<(Seq<QuestionView>, int)>
    decreases s.len(),
    via parse_qtail_decreases
{
    if s.len() > 0 && s.first() == ']' {
        Some((Seq::empty(), 0))
    } else if s.len() > 0 && s.first() == ',' {
        match parse_question(s.skip(1)) {
            Some(q) => match parse_qtail(s.skip(1 + q.1)) {
                Some(t) => Some((seq![q.0] + t.0, 1 + q.1 + t.1)),
                None => None,
            },
            None => None,
        }
    } else {
        None
    }
}

#[via_fn]
proof fn parse_qtail_decreases(s: Seq<char>) {
    if s.len() > 0 && s.first() != ']' && s.first() == ',' {
        lemma_question_bounds(s.skip(1));
    }
}

/// A question section: empty just before its bracket, or a question and a
/// tail.
pub open spec fn parse_qlist(s: Seq<char>) -> Option<(Seq<QuestionView>, int)> {
    if s.len() > 0 && s.first() == ']' {
        Some((Seq::empty(), 0))
    } else {
        match parse_question(s) {
            Some(q) => match parse_qtail(s.skip(q.1)) {
                Some(t) => Some((seq![q.0] + t.0, q.1 + t.1)),
                None => None,
            },
            None => None,
        }
    }
}

/// The entries after the first one, like [`parse_qtail`].
pub open spec fn parse_etail(s: Seq<char>) -> Option<(Seq<EntryView>, int)>
    decreases s.len(),
    via parse_etail_decreases
{
    if s.len() > 0 && s.first() == ']' {
        Some((Seq::empty(), 0))
    } else if s.len() > 0 && s.first() == ',' {
        match parse_entry(s.skip(1)) {
            Some(e) => match parse_etail(s.skip(1 + e.1)) {
                Some(t) => Some((seq![e.0] + t.0, 1 + e.1 + t.1)),
                None => None,
            },
            None => None,
        }
    } else {
        None
    }
}

#[via_fn]
proof fn parse_etail_decreases(s: Seq<char>) {
    if s.len() > 0 && s.first() != ']' && s.first() == ',' {
        lemma_entry_bounds(s.skip(1));
    }
}

/// An answer or authority section, like [`parse_qlist`].
pub open spec fn parse_elist(s: Seq<char>) -> Option<(Seq<EntryView>, int)> {
    if s.len() > 0 && s.first() == ']' {
        Some((Seq::empty(), 0))
    } else {
        match parse_entry(s) {
            Some(e) => match parse_etail(s.skip(e.1)) {
                Some(t) => Some((seq![e.0] + t.0, e.1 + t.1)),
                None => None,
            },
            None => None,
        }
    }
}

/// A whole reply document, from the opening brace: the six scalar fields,
/// the question section, and then the optional answer and authority
/// sections, either of which may be missing and is then empty.
pub open spec fn parse_reply(s: Seq<char>) -> Option<(ReplyView, int)> {
    if !spec_starts_with(s, "{\"Status\":"@) {
        None
    } else {
        let i1 = "{\"Status\":"@.len() as int;
        match parse_number(s.skip(i1)) {
            None => None,
            Some(st) => if st.0 > 255 {
                None
            } else {
                let i2 = i1 + st.1;
                match parse_flag(s, i2, ",\"TC\":"@) {
                    None => None,
                    Some(tc) => match parse_flag(s, tc.1, ",\"RD\":"@) {
                        None => None,
                        Some(rd) => match parse_flag(s, rd.1, ",\"RA\":"@) {
                            None => None,
                            Some(ra) => match parse_flag(s, ra.1, ",\"AD\":"@) {
                                None => None,
                                Some(ad) => match parse_flag(s, ad.1, ",\"CD\":"@) {
                                    None => None,
                                    Some(cd) => if !spec_starts_with(
                                        s.skip(cd.1),
                                        ",\"Question\":["@,
                                    ) {
                                        None
                                    } else {
                                        let iq = cd.1 + ",\"Question\":["@.len();
                                        match parse_qlist(s.skip(iq)) {
                                            None => None,
                                            Some(qs) => parse_sections(
                                                s,
                                                iq + qs.1,
                                                ReplyView {
                                                    status: st.0 as u8,
                                                    tc: tc.0,
                                                    rd: rd.0,
                                                    ra: ra.0,
                                                    ad: ad.0,
                                                    cd: cd.0,
                                                    questions: qs.0,
                                                    answers: Seq::empty(),
                                                    authority: Seq::empty(),
                                                },
                                            ),
                                        }
                                    },
                                },
                            },
                        },
                    },
                }
            },
        }
    }
}

/// A key literal followed by a boolean, returning the value and the
/// absolute position after it.
pub open spec fn parse_flag(s: Seq<char>, i: int, key: Seq<char>) -> Option<(bool, int)> {
    if !spec_starts_with(s.skip(i), key) {
        None
    } else {
        match parse_bool(s.skip(i + key.len())) {
            Some(b) => Some((b.0, i + key.len() + b.1)),
            None => None,
        }
    }
}

/// The tail of a reply after the question section: the closing of that
/// section and the optional `Answer` and `Authority` sections, then the
/// closing brace.
pub open spec fn parse_sections(s: Seq<char>, i: int, base: ReplyView) -> Option<
    (ReplyView, int),
> {
    if spec_starts_with(s.skip(i), "],\"Answer\":["@) {
        let ia = i + "],\"Answer\":["@.len();
        match parse_elist(s.skip(ia)) {
            None => None,
            Some(ans) => {
                let ja = ia + ans.1;
                if spec_starts_with(s.skip(ja), "],\"Authority\":["@) {
                    let iu = ja + "],\"Authority\":["@.len();
                    match parse_elist(s.skip(iu)) {
                        None => None,
                        Some(auth) => {
                            let ju = iu + auth.1;
                            if spec_starts_with(s.skip(ju), "]}"@) {
                                Some(
                                    (
                                        ReplyView { answers: ans.0, authority: auth.0, ..base },
                                        ju + "]}"@.len(),
                                    ),
                                )
                            } else {
                                None
                            }
                        },
                    }
                } else if spec_starts_with(s.skip(ja), "]}"@) {
                    Some(
                        (
                            ReplyView { answers: ans.0, authority: Seq::empty(), ..base },
                            ja + "]}"@.len(),
                        ),
                    )
                } else {
                    None
                }
            },
        }
    } else if spec_starts_with(s.skip(i), "],\"Authority\":["@) {
        let iu = i + "],\"Authority\":["@.len();
        match parse_elist(s.skip(iu)) {
            None => None,
            Some(auth) => {
                let ju = iu + auth.1;
                if spec_starts_with(s.skip(ju), "]}"@) {
                    Some(
                        (
                            ReplyView { answers: Seq::empty(), authority: auth.0, ..base },
                            ju + "]}"@.len(),
                        ),
                    )
                } else {
                    None
                }
            },
        }
    } else if spec_starts_with(s.skip(i), "]}"@) {
        Some(
            (
                ReplyView { answers: Seq::empty(), authority: Seq::empty(), ..base },
                i + "]}"@.len(),
            ),
        )
    } else {
        None
    }
}

/// What a whole JSON text denotes: a reply, with nothing after it.
pub open spec fn spec_reply_from_json(s: Seq<char>) -> Option<ReplyView> {
    match parse_reply(s) {
        Some(p) => if p.1 == s.len() {
            Some(p.0)
        } else {
            None
        },
        None => None,
    }
}

/// Whether `s` carries `lit` at position `i`.
fn starts_with_at(s: &str, i: usize, lit: &str) -> (r: bool)
    requires
        i <= s@.len(),
    ensures
        r == spec_starts_with(s@.skip(i as int), lit@),
{
    let n = s.unicode_len();
    let m = lit.unicode_len();
    if n - i < m {
        return false;
    }
    let mut k: usize = 0;
    while k < m
        invariant
            n == s@.len(),
            m == lit@.len(),
            i + m <= n,
            0 <= k <= m,
            forall|j: int| 0 <= j < k ==> s@[i + j] == lit@[j],
        decreases m - k,
    {
        if s.get_char(i + k) != lit.get_char(k) {
            assert(s@.skip(i as int)[k as int] == s@[i + k]);
            return false;
        }
        k = k + 1;
    }
    proof {
        assert(s@.skip(i as int).take(m as int) =~= lit@);
    }
    true
}

/// Consumes `lit` at position `i`, handing back the position after it.
fn expect_lit(s: &str, i: usize, lit: &str) -> (r: Option<usize>)
    requires
        i <= s@.len(),
    ensures
        match r {
            Some(j) => spec_starts_with(s@.skip(i as int), lit@) && j == i + lit@.len() && i <= j
                <= s@.len(),
            None => !spec_starts_with(s@.skip(i as int), lit@),
        },
{
    let n = s.unicode_len();
    if starts_with_at(s, i, lit) {
        proof {
            assert(s@.skip(i as int).len() == s@.len() - i);
        }
        Some(i + lit.unicode_len())
    } else {
        None
    }
}

/// Checks one character against [`is_digit`].
fn char_is_digit(c: char) -> (r: bool)
    ensures
        r == is_digit(c),
{
    let u = c as u32;
    48 <= u && u <= 57
}

proof fn lemma_digits_prefix_at(s: Seq<char>, e: int)
    requires
        0 <= e <= s.len(),
        forall|k: int| 0 <= k < e ==> is_digit(#[trigger] s[k]),
        e == s.len() || !is_digit(s[e]),
    ensures
        digits_prefix_len(s) == e,
    decreases e,
{
    if e == 0 {
    } else {
        assert(forall|k: int|
            0 <= k < s.drop_first().len() ==> s.drop_first()[k] == s[k + 1]);
        lemma_digits_prefix_at(s.drop_first(), e - 1);
    }
}

/// Reads the number at position `i`.
fn p_number(s: &str, i: usize) -> (r: Option<(u32, usize)>)
    requires
        i <= s@.len(),
    ensures
        match r {
            Some(p) => i < p.1 <= s@.len() && parse_number(s@.skip(i as int)) == Some(
                (p.0, p.1 - i as int),
            ),
            None => parse_number(s@.skip(i as int)) is None,
        },
{
    let ghost t = s@.skip(i as int);
    let n = s.unicode_len();
    let mut k: usize = i;
    let mut acc: u64 = 0;
    let mut over = false;
    while k < n && char_is_digit(s.get_char(k))
        invariant
            n == s@.len(),
            t == s@.skip(i as int),
            i <= k <= n,
            forall|j: int| 0 <= j < k - i ==> is_digit(#[trigger] t[j]),
            over == (spec_dec_value(t.take(k - i)) > u32::MAX),
            !over ==> acc == spec_dec_value(t.take(k - i)),
        decreases n - k,
    {
        let c = s.get_char(k);
        let d = (c as u32) - 48;
        proof {
            assert(t[k - i] == s@[k as int]);
            assert(t.take(k - i + 1).drop_last() =~= t.take(k - i));
            assert(t.take(k - i + 1).last() == t[k - i]);
            crate::settings::lemma_dec_value_bound(t.take(k - i));
        }
        if !over {
            let next = acc * 10 + (d as u64);
            if next > (u32::MAX as u64) {
                over = true;
            } else {
                acc = next;
            }
            proof {
                assert(spec_dec_value(t.take(k - i + 1)) == spec_dec_value(t.take(k - i)) * 10
                    + d);
            }
        } else {
            proof {
                assert(spec_dec_value(t.take(k - i + 1)) == spec_dec_value(t.take(k - i)) * 10
                    + d);
                assert(spec_dec_value(t.take(k - i)) >= 0);
            }
        }
        k = k + 1;
    }
    proof {
        assert(k < n ==> t[k - i] == s@[k as int]);
        lemma_digits_prefix_at(t, k - i);
        assert(t.take(t.len() as int) =~= t);
    }
    if k == i {
        return None;
    }
    if over {
        return None;
    }
    Some((acc as u32, k))
}

/// Reads the boolean at position `i`.
fn p_bool(s: &str, i: usize) -> (r: Option<(bool, usize)>)
    requires
        i <= s@.len(),
    ensures
        match r {
            Some(p) => i < p.1 <= s@.len() && parse_bool(s@.skip(i as int)) == Some(
                (p.0, p.1 - i as int),
            ),
            None => parse_bool(s@.skip(i as int)) is None,
        },
{
    match expect_lit(s, i, "true") {
        Some(j) => {
            proof {
                reveal_strlit("true");
            }
            return Some((true, j));
        },
        None => {},
    }
    match expect_lit(s, i, "false") {
        Some(j) => {
            proof {
                reveal_strlit("false");
            }
            return Some((false, j));
        },
        None => {},
    }
    None
}

/// Builds a string from parsed characters.
fn chars_to_string(v: &Vec<char>) -> (r: String)
    ensures
        r@ == v@,
{
    let mut r = String::new();
    let mut i: usize = 0;
    while i < v.len()
        invariant
            0 <= i <= v@.len(),
            r@ =~= v@.take(i as int),
        decreases v@.len() - i,
    {
        push_char(&mut r, v[i]);
        proof {
            assert(v@.take(i + 1).drop_last() =~= v@.take(i as int));
        }
        i = i + 1;
    }
    proof {
        assert(v@.take(v@.len() as int) =~= v@);
    }
    r
}

/// Reads a string body from position `i` up to and including the closing
/// quote.
fn p_str_body(s: &str, i: usize) -> (r: Option<(Vec<char>, usize)>)
    requires
        i <= s@.len(),
    ensures
        match r {
            Some(p) => i < p.1 <= s@.len() && parse_str_body(s@.skip(i as int)) == Some(
                (p.0@, p.1 - i as int),
            ),
            None => parse_str_body(s@.skip(i as int)) is None,
        },
    decreases s@.len() - i,
{
    let ghost t = s@.skip(i as int);
    let n = s.unicode_len();
    if i >= n {
        return None;
    }
    let c = s.get_char(i);
    proof {
        assert(t[0] == s@[i as int]);
    }
    if c == '"' {
        let v: Vec<char> = Vec::new();
        proof {
            assert(v@ =~= Seq::<char>::empty());
        }
        return Some((v, i + 1));
    }
    if c == '\\' {
        if i + 1 < n {
            let c2 = s.get_char(i + 1);
            proof {
                assert(t[1] == s@[i + 1]);
            }
            if c2 == '"' || c2 == '\\' {
                proof {
                    assert(t.skip(2) =~= s@.skip(i + 2));
                }
                match p_str_body(s, i + 2) {
                    Some((mut v, j)) => {
                        let ghost oldv = v@;
                        v.insert(0, c2);
                        proof {
                            assert(v@ =~= seq![c2] + oldv);
                        }
                        return Some((v, j));
                    },
                    None => {
                        return None;
                    },
                }
            } else {
                return None;
            }
        } else {
            return None;
        }
    }
    proof {
        assert(t.skip(1) =~= s@.skip(i + 1));
    }
    match p_str_body(s, i + 1) {
        Some((mut v, j)) => {
            let ghost oldv = v@;
            v.insert(0, c);
            proof {
                assert(v@ =~= seq![c] + oldv);
            }
            Some((v, j))
        },
        None => None,
    }
}

/// Reads the string literal at position `i`.
fn p_string(s: &str, i: usize) -> (r: Option<(String, usize)>)
    requires
        i <= s@.len(),
    ensures
        match r {
            Some(p) => i < p.1 <= s@.len() && parse_string(s@.skip(i as int)) == Some(
                (p.0@, p.1 - i as int),
            ),
            None => parse_string(s@.skip(i as int)) is None,
        },
{
    let n = s.unicode_len();
    if i < n && s.get_char(i) == '"' {
        proof {
            assert(s@.skip(i as int)[0] == s@[i as int]);
            assert(s@.skip(i as int).skip(1) =~= s@.skip(i + 1));
        }
        match p_str_body(s, i + 1) {
            Some((v, j)) => Some((chars_to_string(&v), j)),
            None => None,
        }
    } else {
        proof {
            if i < n {
                assert(s@.skip(i as int)[0] == s@[i as int]);
            }
        }
        None
    }
}

/// Reads the question object at position `i`.
fn p_question(s: &str, i: usize) -> (r: Option<(DnsQuestion, usize)>)
    requires
        i <= s@.len(),
    ensures
        match r {
            Some(p) => i < p.1 <= s@.len() && parse_question(s@.skip(i as int)) == Some(
                (p.0@, p.1 - i as int),
            ),
            None => parse_question(s@.skip(i as int)) is None,
        },
{
    let ghost t = s@.skip(i as int);
    let j1 = match expect_lit(s, i, "{\"name\":") {
        Some(j) => j,
        None => {
            return None;
        },
    };
    proof {
        assert(t.skip("{\"name\":"@.len() as int) =~= s@.skip(j1 as int));
    }
    let (name, j2) = match p_string(s, j1) {
        Some(p) => p,
        None => {
            return None;
        },
    };
    proof {
        assert(t.skip(j2 - i) =~= s@.skip(j2 as int));
    }
    let j3 = match expect_lit(s, j2, ",\"type\":") {
        Some(j) => j,
        None => {
            return None;
        },
    };
    proof {
        assert(t.skip(j3 - i) =~= s@.skip(j3 as int));
    }
    let (num, j4) = match p_number(s, j3) {
        Some(p) => p,
        None => {
            return None;
        },
    };
    let rt = match DnsRecordType::from_uint(num) {
        Some(rt) => rt,
        None => {
            return None;
        },
    };
    if j4 < s.unicode_len() && s.get_char(j4) == '}' {
        proof {
            assert(t[j4 - i] == s@[j4 as int]);
        }
        Some((DnsQuestion { name, record_type: rt }, j4 + 1))
    } else {
        proof {
            if j4 < s@.len() {
                assert(t[j4 - i] == s@[j4 as int]);
            }
        }
        None
    }
}

/// Reads the entry object at position `i`.
fn p_entry(s: &str, i: usize) -> (r: Option<(DnsEntry, usize)>)
    requires
        i <= s@.len(),
    ensures
        match r {
            Some(p) => i < p.1 <= s@.len() && parse_entry(s@.skip(i as int)) == Some(
                (p.0@, p.1 - i as int),
            ),
            None => parse_entry(s@.skip(i as int)) is None,
        },
{
    let ghost t = s@.skip(i as int);
    let j1 = match expect_lit(s, i, "{\"name\":") {
        Some(j) => j,
        None => {
            return None;
        },
    };
    proof {
        assert(t.skip("{\"name\":"@.len() as int) =~= s@.skip(j1 as int));
    }
    let (name, j2) = match p_string(s, j1) {
        Some(p) => p,
        None => {
            return None;
        },
    };
    proof {
        assert(t.skip(j2 - i) =~= s@.skip(j2 as int));
    }
    let j3 = match expect_lit(s, j2, ",\"type\":") {
        Some(j) => j,
        None => {
            return None;
        },
    };
    proof {
        assert(t.skip(j3 - i) =~= s@.skip(j3 as int));
    }
    let (num, j4) = match p_number(s, j3) {
        Some(p) => p,
        None => {
            return None;
        },
    };
    let rt = match DnsRecordType::from_uint(num) {
        Some(rt) => rt,
        None => {
            return None;
        },
    };
    let j5 = match expect_lit(s, j4, ",\"TTL\":") {
        Some(j) => j,
        None => {
            proof {
                assert(t.skip(j4 - i) =~= s@.skip(j4 as int));
            }
            return None;
        },
    };
    proof {
        assert(t.skip(j4 - i) =~= s@.skip(j4 as int));
        assert(t.skip(j5 - i) =~= s@.skip(j5 as int));
    }
    let (ttl, j6) = match p_number(s, j5) {
        Some(p) => p,
        None => {
            return None;
        },
    };
    let j7 = match expect_lit(s, j6, ",\"data\":") {
        Some(j) => j,
        None => {
            proof {
                assert(t.skip(j6 - i) =~= s@.skip(j6 as int));
            }
            return None;
        },
    };
    proof {
        assert(t.skip(j6 - i) =~= s@.skip(j6 as int));
        assert(t.skip(j7 - i) =~= s@.skip(j7 as int));
    }
    let (data, j8) = match p_string(s, j7) {
        Some(p) => p,
        None => {
            return None;
        },
    };
    if j8 < s.unicode_len() && s.get_char(j8) == '}' {
        proof {
            assert(t[j8 - i] == s@[j8 as int]);
        }
        Some((DnsEntry { name, record_type: rt, ttl, data }, j8 + 1))
    } else {
        proof {
            if j8 < s@.len() {
                assert(t[j8 - i] == s@[j8 as int]);
            }
        }
        None
    }
}

/// Reads the questions after the first one, per [`parse_qtail`].
fn p_qtail(s: &str, i: usize) -> (r: Option<(Vec<DnsQuestion>, usize)>)
    requires
        i <= s@.len(),
    ensures
        match r {
            Some(p) => i <= p.1 <= s@.len() && parse_qtail(s@.skip(i as int)) == Some(
                (p.0@.map_values(|q: DnsQuestion| q@), p.1 - i as int),
            ),
            None => parse_qtail(s@.skip(i as int)) is None,
        },
    decreases s@.len() - i,
{
    let ghost t = s@.skip(i as int);
    let n = s.unicode_len();
    if i < n && s.get_char(i) == ']' {
        proof {
            assert(t[0] == s@[i as int]);
        }
        let v: Vec<DnsQuestion> = Vec::new();
        proof {
            assert(v@.map_values(|q: DnsQuestion| q@) =~= Seq::<QuestionView>::empty());
        }
        return Some((v, i));
    }
    if i < n && s.get_char(i) == ',' {
        proof {
            assert(t[0] == s@[i as int]);
            assert(t.skip(1) =~= s@.skip(i + 1));
        }
        match p_question(s, i + 1) {
            Some((q, j)) => {
                proof {
                    assert(t.skip(j - i) =~= s@.skip(j as int));
                }
                match p_qtail(s, j) {
                    Some((mut qs, j2)) => {
                        let ghost oldqs = qs@;
                        qs.insert(0, q);
                        proof {
                            assert(qs@.map_values(|q0: DnsQuestion| q0@) =~= seq![q@]
                                + oldqs.map_values(|q0: DnsQuestion| q0@));
                        }
                        Some((qs, j2))
                    },
                    None => None,
                }
            },
            None => None,
        }
    } else {
        proof {
            if i < n {
                assert(t[0] == s@[i as int]);
            }
        }
        None
    }
}

/// Reads a question section, per [`parse_qlist`].
fn p_qlist(s: &str, i: usize) -> (r: Option<(Vec<DnsQuestion>, usize)>)
    requires
        i <= s@.len(),
    ensures
        match r {
            Some(p) => i <= p.1 <= s@.len() && parse_qlist(s@.skip(i as int)) == Some(
                (p.0@.map_values(|q: DnsQuestion| q@), p.1 - i as int),
            ),
            None => parse_qlist(s@.skip(i as int)) is None,
        },
{
    let ghost t = s@.skip(i as int);
    let n = s.unicode_len();
    if i < n && s.get_char(i) == ']' {
        proof {
            assert(t[0] == s@[i as int]);
        }
        let v: Vec<DnsQuestion> = Vec::new();
        proof {
            assert(v@.map_values(|q: DnsQuestion| q@) =~= Seq::<QuestionView>::empty());
        }
        return Some((v, i));
    }
    proof {
        if i < n {
            assert(t[0] == s@[i as int]);
        }
    }
    match p_question(s, i) {
        Some((q, j)) => {
            proof {
                assert(t.skip(j - i) =~= s@.skip(j as int));
            }
            match p_qtail(s, j) {
                Some((mut qs, j2)) => {
                    let ghost oldqs = qs@;
                    qs.insert(0, q);
                    proof {
                        assert(qs@.map_values(|q0: DnsQuestion| q0@) =~= seq![q@]
                            + oldqs.map_values(|q0: DnsQuestion| q0@));
                    }
                    Some((qs, j2))
                },
                None => None,
            }
        },
        None => None,
    }
}

/// Reads the entries after the first one, per [`parse_etail`].
fn p_etail(s: &str, i: usize) -> (r: Option<(Vec<DnsEntry>, usize)>)
    requires
        i <= s@.len(),
    ensures
        match r {
            Some(p) => i <= p.1 <= s@.len() && parse_etail(s@.skip(i as int)) == Some(
                (p.0@.map_values(|e: DnsEntry| e@), p.1 - i as int),
            ),
            None => parse_etail(s@.skip(i as int)) is None,
        },
    decreases s@.len() - i,
{
    let ghost t = s@.skip(i as int);
    let n = s.unicode_len();
    if i < n && s.get_char(i) == ']' {
        proof {
            assert(t[0] == s@[i as int]);
        }
        let v: Vec<DnsEntry> = Vec::new();
        proof {
            assert(v@.map_values(|e: DnsEntry| e@) =~= Seq::<EntryView>::empty());
        }
        return Some((v, i));
    }
    if i < n && s.get_char(i) == ',' {
        proof {
            assert(t[0] == s@[i as int]);
            assert(t.skip(1) =~= s@.skip(i + 1));
        }
        match p_entry(s, i + 1) {
            Some((e, j)) => {
                proof {
                    assert(t.skip(j - i) =~= s@.skip(j as int));
                }
                match p_etail(s, j) {
                    Some((mut es, j2)) => {
                        let ghost oldes = es@;
                        es.insert(0, e);
                        proof {
                            assert(es@.map_values(|e0: DnsEntry| e0@) =~= seq![e@]
                                + oldes.map_values(|e0: DnsEntry| e0@));
                        }
                        Some((es, j2))
                    },
                    None => None,
                }
            },
            None => None,
        }
    } else {
        proof {
            if i < n {
                assert(t[0] == s@[i as int]);
            }
        }
        None
    }
}

/// Reads an entry section, per [`parse_elist`].
fn p_elist(s: &str, i: usize) -> (r: Option<(Vec<DnsEntry>, usize)>)
    requires
        i <= s@.len(),
    ensures
        match r {
            Some(p) => i <= p.1 <= s@.len() && parse_elist(s@.skip(i as int)) == Some(
                (p.0@.map_values(|e: DnsEntry| e@), p.1 - i as int),
            ),
            None => parse_elist(s@.skip(i as int)) is None,
        },
{
    let ghost t = s@.skip(i as int);
    let n = s.unicode_len();
    if i < n && s.get_char(i) == ']' {
        proof {
            assert(t[0] == s@[i as int]);
        }
        let v: Vec<DnsEntry> = Vec::new();
        proof {
            assert(v@.map_values(|e: DnsEntry| e@) =~= Seq::<EntryView>::empty());
        }
        return Some((v, i));
    }
    proof {
        if i < n {
            assert(t[0] == s@[i as int]);
        }
    }
    match p_entry(s, i) {
        Some((e, j)) => {
            proof {
                assert(t.skip(j - i) =~= s@.skip(j as int));
            }
            match p_etail(s, j) {
                Some((mut es, j2)) => {
                    let ghost oldes = es@;
                    es.insert(0, e);
                    proof {
                        assert(es@.map_values(|e0: DnsEntry| e0@) =~= seq![e@]
                            + oldes.map_values(|e0: DnsEntry| e0@));
                    }
                    Some((es, j2))
                },
                None => None,
            }
        },
        None => None,
    }
}

/// Reads a key literal and the boolean after it, per [`parse_flag`].
fn p_flag(s: &str, i: usize, key: &str) -> (r: Option<(bool, usize)>)
    requires
        i <= s@.len(),
    ensures
        match r {
            Some(p) => i <= p.1 <= s@.len() && parse_flag(s@, i as int, key@) == Some(
                (p.0, p.1 as int),
            ),
            None => parse_flag(s@, i as int, key@) is None,
        },
{
    match expect_lit(s, i, key) {
        Some(j) => match p_bool(s, j) {
            Some((b, j2)) => Some((b, j2)),
            None => None,
        },
        None => None,
    }
}

/// Reads the optional sections and the closing brace, per
/// [`parse_sections`].
fn p_sections(s: &str, i: usize) -> (r: Option<(Vec<DnsEntry>, Vec<DnsEntry>, usize)>)
    requires
        i <= s@.len(),
    ensures
        match r {
            Some(p) => i <= p.2 <= s@.len() && forall|base: ReplyView|
                #[trigger] parse_sections(s@, i as int, base) == Some(
                    (
                        ReplyView {
                            answers: p.0@.map_values(|e: DnsEntry| e@),
                            authority: p.1@.map_values(|e: DnsEntry| e@),
                            ..base
                        },
                        p.2 as int,
                    ),
                ),
            None => forall|base: ReplyView| #[trigger] parse_sections(s@, i as int, base) is None,
        },
{
    match expect_lit(s, i, "],\"Answer\":[") {
        Some(ia) => {
            match p_elist(s, ia) {
                Some((ans, ja)) => {
                    match expect_lit(s, ja, "],\"Authority\":[") {
                        Some(iu) => {
                            match p_elist(s, iu) {
                                Some((auth, ju)) => {
                                    match expect_lit(s, ju, "]}") {
                                        Some(j) => Some((ans, auth, j)),
                                        None => None,
                                    }
                                },
                                None => None,
                            }
                        },
                        None => {
                            match expect_lit(s, ja, "]}") {
                                Some(j) => {
                                    let auth: Vec<DnsEntry> = Vec::new();
                                    proof {
                                        assert(auth@.map_values(|e: DnsEntry| e@) =~= Seq::<
                                            EntryView,
                                        >::empty());
                                    }
                                    Some((ans, auth, j))
                                },
                                None => None,
                            }
                        },
                    }
                },
                None => None,
            }
        },
        None => {
            match expect_lit(s, i, "],\"Authority\":[") {
                Some(iu) => {
                    match p_elist(s, iu) {
                        Some((auth, ju)) => {
                            match expect_lit(s, ju, "]}") {
                                Some(j) => {
                                    let ans: Vec<DnsEntry> = Vec::new();
                                    proof {
                                        assert(ans@.map_values(|e: DnsEntry| e@) =~= Seq::<
                                            EntryView,
                                        >::empty());
                                    }
                                    Some((ans, auth, j))
                                },
                                None => None,
                            }
                        },
                        None => None,
                    }
                },
                None => {
                    match expect_lit(s, i, "]}") {
                        Some(j) => {
                            let ans: Vec<DnsEntry> = Vec::new();
                            let auth: Vec<DnsEntry> = Vec::new();
                            proof {
                                assert(ans@.map_values(|e: DnsEntry| e@) =~= Seq::<
                                    EntryView,
                                >::empty());
                                assert(auth@.map_values(|e: DnsEntry| e@) =~= Seq::<
                                    EntryView,
                                >::empty());
                            }
                            Some((ans, auth, j))
                        },
                        None => None,
                    }
                },
            }
        },
    }
}

/// Reads a whole reply from its JSON text, per [`spec_reply_from_json`]:
/// the text must hold exactly one reply document.
#[verifier::rlimit(100)]
pub fn reply_from_json(s: &str) -> (r: Option<DnsReply>)
    ensures
        match r {
            Some(d) => spec_reply_from_json(s@) == Some(d@),
            None => spec_reply_from_json(s@) is None,
        },
{
    proof {
        assert(s@.skip(0) =~= s@);
    }
    let i1 = match expect_lit(s, 0, "{\"Status\":") {
        Some(j) => j,
        None => {
            return None;
        },
    };
    let (status, i2) = match p_number(s, i1) {
        Some(p) => p,
        None => {
            proof {
                assert(s@.skip(0).skip("{\"Status\":"@.len() as int) =~= s@.skip(i1 as int));
            }
            return None;
        },
    };
    proof {
        assert(s@.skip(0).skip("{\"Status\":"@.len() as int) =~= s@.skip(i1 as int));
    }
    if status > 255 {
        return None;
    }
    let (tc, i3) = match p_flag(s, i2, ",\"TC\":") {
        Some(p) => p,
        None => {
            return None;
        },
    };
    let (rd, i4) = match p_flag(s, i3, ",\"RD\":") {
        Some(p) => p,
        None => {
            return None;
        },
    };
    let (ra, i5) = match p_flag(s, i4, ",\"RA\":") {
        Some(p) => p,
        None => {
            return None;
        },
    };
    let (ad, i6) = match p_flag(s, i5, ",\"AD\":") {
        Some(p) => p,
        None => {
            return None;
        },
    };
    let (cd, i7) = match p_flag(s, i6, ",\"CD\":") {
        Some(p) => p,
        None => {
            return None;
        },
    };
    let iq = match expect_lit(s, i7, ",\"Question\":[") {
        Some(j) => j,
        None => {
            return None;
        },
    };
    let (questions, jq) = match p_qlist(s, iq) {
        Some(p) => p,
        None => {
            return None;
        },
    };
    let (answers, authority, jz) = match p_sections(s, jq) {
        Some(p) => p,
        None => {
            return None;
        },
    };
    if jz != s.unicode_len() {
        return None;
    }
    Some(
        DnsReply {
            status: status as u8,
            tc,
            rd,
            ra,
            ad,
            cd,
            questions,
            answers,
            authority,
        },
    )
}

// ---------------------------------------------------------------------
// The round trip
// ---------------------------------------------------------------------

proof fn lemma_assoc(a: Seq<char>, b: Seq<char>, c: Seq<char>)
    ensures
        a + b + c == a + (b + c),
{
    assert(a + b + c =~= a + (b + c));
}

proof fn lemma_prefix(p: Seq<char>, rest: Seq<char>)
    ensures
        spec_starts_with(p + rest, p),
        (p + rest).skip(p.len() as int) == rest,
{
    assert((p + rest).take(p.len() as int) =~= p);
    assert((p + rest).skip(p.len() as int) =~= rest);
}

proof fn lemma_digits_props(n: nat)
    ensures
        spec_digits(n).len() >= 1,
        forall|i: int| 0 <= i < spec_digits(n).len() ==> is_digit(#[trigger] spec_digits(n)[i]),
        spec_dec_value(spec_digits(n)) == n,
        spec_dec_value(spec_digits(n)) <= n,
    decreases n,
{
    if n < 10 {
        let c = digit_char(n);
        assert(c as u32 == 48 + n);
        assert(spec_digits(n) =~= seq![c]);
        assert(spec_digits(n).drop_last() =~= Seq::<char>::empty());
        assert(spec_dec_value(Seq::<char>::empty()) == 0);
    } else {
        lemma_digits_props(n / 10);
        let c = digit_char(n % 10);
        assert(c as u32 == 48 + n % 10);
        assert(spec_digits(n).drop_last() =~= spec_digits(n / 10));
        assert(spec_digits(n).last() == c);
        assert(spec_dec_value(spec_digits(n)) == (n / 10) * 10 + (n % 10));
    }
}

proof fn lemma_digits_prefix_concat(d: Seq<char>, rest: Seq<char>)
    requires
        forall|i: int| 0 <= i < d.len() ==> is_digit(#[trigger] d[i]),
        rest.len() > 0,
        !is_digit(rest.first()),
    ensures
        digits_prefix_len(d + rest) == d.len(),
    decreases d.len(),
{
    if d.len() == 0 {
        assert(d + rest =~= rest);
    } else {
        assert((d + rest).first() == d[0]);
        assert((d + rest).drop_first() =~= d.drop_first() + rest);
        assert(forall|i: int|
            0 <= i < d.drop_first().len() ==> d.drop_first()[i] == d[i + 1]);
        lemma_digits_prefix_concat(d.drop_first(), rest);
    }
}

proof fn lemma_number_rt(n: u32, rest: Seq<char>)
    requires
        rest.len() > 0,
        !is_digit(rest.first()),
    ensures
        parse_number(spec_digits(n as nat) + rest) == Some(
            (n, spec_digits(n as nat).len() as int),
        ),
{
    let d = spec_digits(n as nat);
    lemma_digits_props(n as nat);
    lemma_digits_prefix_concat(d, rest);
    assert((d + rest).take(d.len() as int) =~= d);
}

proof fn lemma_bool_rt(b: bool, rest: Seq<char>)
    ensures
        parse_bool(ser_bool(b) + rest) == Some((b, ser_bool(b).len() as int)),
{
    reveal_strlit("true");
    reveal_strlit("false");
    lemma_prefix(ser_bool(b), rest);
    if b {
    } else {
        let s = ser_bool(b) + rest;
        if spec_starts_with(s, "true"@) {
            assert(s.take("true"@.len() as int)[0] == s[0]);
            assert(false);
        }
    }
}

proof fn lemma_escaped_first(v: Seq<char>)
    requires
        v.len() > 0,
    ensures
        spec_escaped(v) == esc_char(v.first()) + spec_escaped(v.drop_first()),
    decreases v.len(),
{
    if v.len() == 1 {
        assert(v.drop_last() =~= Seq::<char>::empty());
        assert(v.drop_first() =~= Seq::<char>::empty());
        assert(v.last() == v.first());
        assert(spec_escaped(v) =~= esc_char(v.first()) + spec_escaped(v.drop_first()));
    } else {
        lemma_escaped_first(v.drop_last());
        assert(v.drop_last().first() == v.first());
        assert(v.drop_last().drop_first() =~= v.drop_first().drop_last());
        assert(v.drop_first().last() == v.last());
        assert(v.drop_first().len() > 0);
        assert(spec_escaped(v) == spec_escaped(v.drop_last()) + esc_char(v.last()));
        assert(spec_escaped(v.drop_first()) == spec_escaped(v.drop_first().drop_last())
            + esc_char(v.drop_first().last()));
        assert(spec_escaped(v) =~= esc_char(v.first()) + spec_escaped(v.drop_first()));
    }
}

proof fn lemma_str_body_rt(v: Seq<char>, rest: Seq<char>)
    ensures
        parse_str_body(spec_escaped(v) + seq!['"'] + rest) == Some(
            (v, spec_escaped(v).len() as int + 1),
        ),
    decreases v.len(),
{
    let s = spec_escaped(v) + seq!['"'] + rest;
    if v.len() == 0 {
        assert(spec_escaped(v) =~= Seq::<char>::empty());
        assert(s.first() == '"');
        assert(s =~= seq!['"'] + rest);
    } else {
        lemma_escaped_first(v);
        let c0 = v.first();
        let v1 = v.drop_first();
        lemma_str_body_rt(v1, rest);
        let s1 = spec_escaped(v1) + seq!['"'] + rest;
        if c0 == '"' || c0 == '\\' {
            assert(esc_char(c0) =~= seq!['\\', c0]);
            assert(s[0] == '\\');
            assert(s[1] == c0);
            assert(s.len() >= 2);
            assert(s.skip(2) =~= s1);
            assert(seq![c0] + v1 =~= v);
        } else {
            assert(esc_char(c0) =~= seq![c0]);
            assert(s.first() == c0);
            assert(s.skip(1) =~= s1);
            assert(seq![c0] + v1 =~= v);
        }
    }
}

proof fn lemma_string_rt(v: Seq<char>, rest: Seq<char>)
    ensures
        parse_string(ser_string(v) + rest) == Some((v, ser_string(v).len() as int)),
{
    let s = ser_string(v) + rest;
    assert(s.first() == '"');
    assert(s.skip(1) =~= spec_escaped(v) + seq!['"'] + rest);
    lemma_str_body_rt(v, rest);
}

proof fn lemma_rt_uint(rt: DnsRecordType)
    ensures
        DnsRecordType::spec_from_uint(rt.spec_as_uint()) == Some(rt),
{
}

proof fn lemma_question_rt(q: QuestionView, rest: Seq<char>)
    ensures
        parse_question(ser_question(q) + rest) == Some((q, ser_question(q).len() as int)),
{
    let lit1 = "{\"name\":"@;
    let lit2 = ",\"type\":"@;
    let d = spec_digits(q.record_type.spec_as_uint() as nat);
    let sn = ser_string(q.name);
    let rb = seq!['}'];
    let s = ser_question(q) + rest;

    // Regroup the left-nested text for reading from the front.
    lemma_assoc(lit1 + sn + lit2 + d, rb, rest);
    lemma_assoc(lit1 + sn + lit2, d, rb + rest);
    lemma_assoc(lit1 + sn, lit2, d + (rb + rest));
    lemma_assoc(lit1, sn, lit2 + (d + (rb + rest)));
    assert(s == lit1 + (sn + (lit2 + (d + (rb + rest)))));

    assert(s.skip(0) =~= s);
    lemma_skip_concat(s, 0, lit1, sn + (lit2 + (d + (rb + rest))));
    let i1 = lit1.len() as int;
    lemma_string_rt(q.name, lit2 + (d + (rb + rest)));
    lemma_skip_concat(s, i1, sn, lit2 + (d + (rb + rest)));
    let i2 = i1 + sn.len();
    lemma_skip_concat(s, i2, lit2, d + (rb + rest));
    let i3 = i2 + lit2.len();
    assert((rb + rest).first() == '}');
    assert(!is_digit('}'));
    lemma_number_rt(q.record_type.spec_as_uint(), rb + rest);
    lemma_rt_uint(q.record_type);
    lemma_skip_concat(s, i3, d, rb + rest);
    let i4 = i3 + d.len();
    assert(s[i4] == (rb + rest)[0]);
    assert(i4 < s.len());
    assert(i4 + 1 == ser_question(q).len());
}

proof fn lemma_entry_rt(e: EntryView, rest: Seq<char>)
    ensures
        parse_entry(ser_entry(e) + rest) == Some((e, ser_entry(e).len() as int)),
{
    let lit1 = "{\"name\":"@;
    let lit2 = ",\"type\":"@;
    let lit3 = ",\"TTL\":"@;
    let lit4 = ",\"data\":"@;
    reveal_strlit(",\"TTL\":");
    reveal_strlit(",\"data\":");
    let d1 = spec_digits(e.record_type.spec_as_uint() as nat);
    let d2 = spec_digits(e.ttl as nat);
    let sn = ser_string(e.name);
    let sd = ser_string(e.data);
    let rb = seq!['}'];
    let s = ser_entry(e) + rest;

    // Regroup the left-nested text for reading from the front.
    lemma_assoc(lit1 + sn + lit2 + d1 + lit3 + d2 + lit4 + sd, rb, rest);
    lemma_assoc(lit1 + sn + lit2 + d1 + lit3 + d2 + lit4, sd, rb + rest);
    lemma_assoc(lit1 + sn + lit2 + d1 + lit3 + d2, lit4, sd + (rb + rest));
    lemma_assoc(lit1 + sn + lit2 + d1 + lit3, d2, lit4 + (sd + (rb + rest)));
    lemma_assoc(lit1 + sn + lit2 + d1, lit3, d2 + (lit4 + (sd + (rb + rest))));
    lemma_assoc(lit1 + sn + lit2, d1, lit3 + (d2 + (lit4 + (sd + (rb + rest)))));
    lemma_assoc(lit1 + sn, lit2, d1 + (lit3 + (d2 + (lit4 + (sd + (rb + rest))))));
    lemma_assoc(lit1, sn, lit2 + (d1 + (lit3 + (d2 + (lit4 + (sd + (rb + rest)))))));
    assert(s == lit1 + (sn + (lit2 + (d1 + (lit3 + (d2 + (lit4 + (sd + (rb + rest)))))))));

    assert(s.skip(0) =~= s);
    lemma_skip_concat(s, 0, lit1, sn + (lit2 + (d1 + (lit3 + (d2 + (lit4 + (sd + (rb
        + rest))))))));
    let i1 = lit1.len() as int;
    lemma_string_rt(e.name, lit2 + (d1 + (lit3 + (d2 + (lit4 + (sd + (rb + rest)))))));
    lemma_skip_concat(s, i1, sn, lit2 + (d1 + (lit3 + (d2 + (lit4 + (sd + (rb + rest)))))));
    let i2 = i1 + sn.len();
    lemma_skip_concat(s, i2, lit2, d1 + (lit3 + (d2 + (lit4 + (sd + (rb + rest))))));
    let i3 = i2 + lit2.len();
    assert((lit3 + (d2 + (lit4 + (sd + (rb + rest))))).first() == lit3[0]);
    assert(!is_digit(lit3[0]));
    lemma_number_rt(e.record_type.spec_as_uint(), lit3 + (d2 + (lit4 + (sd + (rb + rest)))));
    lemma_rt_uint(e.record_type);
    lemma_skip_concat(s, i3, d1, lit3 + (d2 + (lit4 + (sd + (rb + rest)))));
    let i4 = i3 + d1.len();
    lemma_skip_concat(s, i4, lit3, d2 + (lit4 + (sd + (rb + rest))));
    let i5 = i4 + lit3.len();
    assert((lit4 + (sd + (rb + rest))).first() == lit4[0]);
    assert(!is_digit(lit4[0]));
    lemma_number_rt(e.ttl, lit4 + (sd + (rb + rest)));
    lemma_skip_concat(s, i5, d2, lit4 + (sd + (rb + rest)));
    let i6 = i5 + d2.len();
    lemma_skip_concat(s, i6, lit4, sd + (rb + rest));
    let i7 = i6 + lit4.len();
    lemma_string_rt(e.data, rb + rest);
    lemma_skip_concat(s, i7, sd, rb + rest);
    let i8 = i7 + sd.len();
    assert(s[i8] == (rb + rest)[0]);
    assert(i8 < s.len());
    assert(i8 + 1 == ser_entry(e).len());
}

/// The question items after the first, each behind a comma.
spec fn ser_qrest(qs: Seq<QuestionView>) -> Seq<char>
    decreases qs.len(),
{
    if qs.len() == 0 {
        Seq::empty()
    } else {
        seq![','] + ser_question(qs.first()) + ser_qrest(qs.drop_first())
    }
}

/// The entry items after the first, each behind a comma.
spec fn ser_erest(es: Seq<EntryView>) -> Seq<char>
    decreases es.len(),
{
    if es.len() == 0 {
        Seq::empty()
    } else {
        seq![','] + ser_entry(es.first()) + ser_erest(es.drop_first())
    }
}

proof fn lemma_qitems_split(qs: Seq<QuestionView>)
    requires
        qs.len() > 0,
    ensures
        ser_qitems(qs) == ser_question(qs.first()) + ser_qrest(qs.drop_first()),
    decreases qs.len(),
{
    if qs.len() == 1 {
        assert(qs.drop_first() =~= Seq::<QuestionView>::empty());
        assert(qs.last() == qs.first());
        assert(ser_qrest(Seq::<QuestionView>::empty()) == Seq::<char>::empty());
        assert(ser_qitems(qs) =~= ser_question(qs.first()) + ser_qrest(qs.drop_first()));
    } else {
        lemma_qitems_split(qs.drop_last());
        assert(qs.drop_last().first() == qs.first());
        assert(qs.drop_last().drop_first() =~= qs.drop_first().drop_last());
        assert(qs.drop_first().last() == qs.last());
        assert(qs.drop_first().len() > 0);
        // Unfold the tail one step further on both sides.
        lemma_qrest_split(qs.drop_first());
        if qs.drop_first().len() == 1 {
            assert(qs.drop_first().drop_last() =~= Seq::<QuestionView>::empty());
            assert(qs.drop_first().drop_first() =~= Seq::<QuestionView>::empty());
            assert(ser_qrest(Seq::<QuestionView>::empty()) == Seq::<char>::empty());
            assert(ser_qitems(qs) =~= ser_question(qs.first()) + ser_qrest(qs.drop_first()));
        } else {
            lemma_qrest_push(qs.drop_first().drop_last(), qs.last());
            assert(qs.drop_first().drop_last().push(qs.last()) =~= qs.drop_first());
            assert(ser_qitems(qs) =~= ser_question(qs.first()) + ser_qrest(qs.drop_first()));
        }
    }
}

proof fn lemma_qrest_split(qs: Seq<QuestionView>)
    requires
        qs.len() > 0,
    ensures
        ser_qrest(qs) == seq![','] + ser_question(qs.first()) + ser_qrest(qs.drop_first()),
{
}

proof fn lemma_qrest_push(qs: Seq<QuestionView>, q: QuestionView)
    ensures
        ser_qrest(qs.push(q)) == ser_qrest(qs) + seq![','] + ser_question(q),
    decreases qs.len(),
{
    if qs.len() == 0 {
        assert(qs.push(q).first() == q);
        assert(qs.push(q).drop_first() =~= Seq::<QuestionView>::empty());
        assert(ser_qrest(Seq::<QuestionView>::empty()) == Seq::<char>::empty());
        assert(ser_qrest(qs.push(q)) =~= ser_qrest(qs) + seq![','] + ser_question(q));
    } else {
        assert(qs.push(q).first() == qs.first());
        assert(qs.push(q).drop_first() =~= qs.drop_first().push(q));
        lemma_qrest_push(qs.drop_first(), q);
        assert(ser_qrest(qs.push(q)) =~= ser_qrest(qs) + seq![','] + ser_question(q));
    }
}

proof fn lemma_eitems_split(es: Seq<EntryView>)
    requires
        es.len() > 0,
    ensures
        ser_eitems(es) == ser_entry(es.first()) + ser_erest(es.drop_first()),
    decreases es.len(),
{
    if es.len() == 1 {
        assert(es.drop_first() =~= Seq::<EntryView>::empty());
        assert(es.last() == es.first());
        assert(ser_erest(Seq::<EntryView>::empty()) == Seq::<char>::empty());
        assert(ser_eitems(es) =~= ser_entry(es.first()) + ser_erest(es.drop_first()));
    } else {
        lemma_eitems_split(es.drop_last());
        assert(es.drop_last().first() == es.first());
        assert(es.drop_last().drop_first() =~= es.drop_first().drop_last());
        assert(es.drop_first().last() == es.last());
        assert(es.drop_first().len() > 0);
        if es.drop_first().len() == 1 {
            assert(es.drop_first().drop_last() =~= Seq::<EntryView>::empty());
            assert(es.drop_first().drop_first() =~= Seq::<EntryView>::empty());
            assert(ser_erest(Seq::<EntryView>::empty()) == Seq::<char>::empty());
            assert(ser_eitems(es) =~= ser_entry(es.first()) + ser_erest(es.drop_first()));
        } else {
            lemma_erest_push(es.drop_first().drop_last(), es.last());
            assert(es.drop_first().drop_last().push(es.last()) =~= es.drop_first());
            assert(ser_eitems(es) =~= ser_entry(es.first()) + ser_erest(es.drop_first()));
        }
    }
}

proof fn lemma_erest_push(es: Seq<EntryView>, e: EntryView)
    ensures
        ser_erest(es.push(e)) == ser_erest(es) + seq![','] + ser_entry(e),
    decreases es.len(),
{
    if es.len() == 0 {
        assert(es.push(e).first() == e);
        assert(es.push(e).drop_first() =~= Seq::<EntryView>::empty());
        assert(ser_erest(Seq::<EntryView>::empty()) == Seq::<char>::empty());
        assert(ser_erest(es.push(e)) =~= ser_erest(es) + seq![','] + ser_entry(e));
    } else {
        assert(es.push(e).first() == es.first());
        assert(es.push(e).drop_first() =~= es.drop_first().push(e));
        lemma_erest_push(es.drop_first(), e);
        assert(ser_erest(es.push(e)) =~= ser_erest(es) + seq![','] + ser_entry(e));
    }
}

/// The first character of a written question object.
proof fn lemma_question_first(q: QuestionView)
    ensures
        ser_question(q).len() > 0,
        ser_question(q)[0] == '{',
{
    reveal_strlit("{\"name\":");
    assert(ser_question(q)[0] == "{\"name\":"@[0]);
}

/// The first character of a written entry object.
proof fn lemma_entry_first(e: EntryView)
    ensures
        ser_entry(e).len() > 0,
        ser_entry(e)[0] == '{',
{
    reveal_strlit("{\"name\":");
    assert(ser_entry(e)[0] == "{\"name\":"@[0]);
}

#[verifier::rlimit(100)]
#[verifier::spinoff_prover]
proof fn lemma_qtail_rt(qs: Seq<QuestionView>, rest: Seq<char>)
    requires
        rest.len() > 0,
        rest.first() == ']',
    ensures
        parse_qtail(ser_qrest(qs) + rest) == Some((qs, ser_qrest(qs).len() as int)),
    decreases qs.len(),
{
    let s = ser_qrest(qs) + rest;
    if qs.len() == 0 {
        assert(ser_qrest(qs) =~= Seq::<char>::empty());
        assert(s =~= rest);
        assert(qs =~= Seq::<QuestionView>::empty());
    } else {
        let q0 = qs.first();
        let qs1 = qs.drop_first();
        lemma_assoc(seq![','] + ser_question(q0), ser_qrest(qs1), rest);
        lemma_assoc(seq![','], ser_question(q0), ser_qrest(qs1) + rest);
        assert(s == seq![','] + (ser_question(q0) + (ser_qrest(qs1) + rest)));
        assert(s.skip(0) =~= s);
        lemma_skip_concat(s, 0, seq![','], ser_question(q0) + (ser_qrest(qs1) + rest));
        assert(s[0] == (seq![','] + (ser_question(q0) + (ser_qrest(qs1) + rest)))[0]);
        lemma_question_rt(q0, ser_qrest(qs1) + rest);
        let c = ser_question(q0).len() as int;
        lemma_skip_concat(s, 1, ser_question(q0), ser_qrest(qs1) + rest);
        lemma_qtail_rt(qs1, rest);
        assert(seq![q0] + qs1 =~= qs);
    }
}

#[verifier::rlimit(100)]
#[verifier::spinoff_prover]
proof fn lemma_qlist_rt_nonempty(qs: Seq<QuestionView>, rest: Seq<char>)
    requires
        qs.len() > 0,
        rest.len() > 0,
        rest.first() == ']',
    ensures
        parse_qlist(ser_qitems(qs) + rest) == Some((qs, ser_qitems(qs).len() as int)),
{
    let s = ser_qitems(qs) + rest;
    lemma_qitems_split(qs);
    let q0 = qs.first();
    let qs1 = qs.drop_first();
    lemma_assoc(ser_question(q0), ser_qrest(qs1), rest);
    assert(s == ser_question(q0) + (ser_qrest(qs1) + rest));
    lemma_question_first(q0);
    assert(s.first() == ser_question(q0)[0]);
    lemma_question_rt(q0, ser_qrest(qs1) + rest);
    assert(s.skip(0) =~= s);
    lemma_skip_concat(s, 0, ser_question(q0), ser_qrest(qs1) + rest);
    lemma_qtail_rt(qs1, rest);
    assert(seq![q0] + qs1 =~= qs);
}

#[verifier::rlimit(100)]
#[verifier::spinoff_prover]
proof fn lemma_qlist_rt(qs: Seq<QuestionView>, rest: Seq<char>)
    requires
        rest.len() > 0,
        rest.first() == ']',
    ensures
        parse_qlist(ser_qitems(qs) + rest) == Some((qs, ser_qitems(qs).len() as int)),
{
    if qs.len() == 0 {
        assert(ser_qitems(qs) =~= Seq::<char>::empty());
        assert(ser_qitems(qs) + rest =~= rest);
        assert(qs =~= Seq::<QuestionView>::empty());
    } else {
        lemma_qlist_rt_nonempty(qs, rest);
    }
}


#[verifier::rlimit(100)]
#[verifier::spinoff_prover]
proof fn lemma_etail_rt(es: Seq<EntryView>, rest: Seq<char>)
    requires
        rest.len() > 0,
        rest.first() == ']',
    ensures
        parse_etail(ser_erest(es) + rest) == Some((es, ser_erest(es).len() as int)),
    decreases es.len(),
{
    let s = ser_erest(es) + rest;
    if es.len() == 0 {
        assert(ser_erest(es) =~= Seq::<char>::empty());
        assert(s =~= rest);
        assert(es =~= Seq::<EntryView>::empty());
    } else {
        let e0 = es.first();
        let es1 = es.drop_first();
        lemma_assoc(seq![','] + ser_entry(e0), ser_erest(es1), rest);
        lemma_assoc(seq![','], ser_entry(e0), ser_erest(es1) + rest);
        assert(s == seq![','] + (ser_entry(e0) + (ser_erest(es1) + rest)));
        assert(s.skip(0) =~= s);
        lemma_skip_concat(s, 0, seq![','], ser_entry(e0) + (ser_erest(es1) + rest));
        assert(s[0] == (seq![','] + (ser_entry(e0) + (ser_erest(es1) + rest)))[0]);
        lemma_entry_rt(e0, ser_erest(es1) + rest);
        let c = ser_entry(e0).len() as int;
        lemma_skip_concat(s, 1, ser_entry(e0), ser_erest(es1) + rest);
        lemma_etail_rt(es1, rest);
        assert(seq![e0] + es1 =~= es);
    }
}

#[verifier::rlimit(100)]
#[verifier::spinoff_prover]
proof fn lemma_elist_rt_nonempty(es: Seq<EntryView>, rest: Seq<char>)
    requires
        es.len() > 0,
        rest.len() > 0,
        rest.first() == ']',
    ensures
        parse_elist(ser_eitems(es) + rest) == Some((es, ser_eitems(es).len() as int)),
{
    let s = ser_eitems(es) + rest;
    lemma_eitems_split(es);
    let e0 = es.first();
    let es1 = es.drop_first();
    lemma_assoc(ser_entry(e0), ser_erest(es1), rest);
    assert(s == ser_entry(e0) + (ser_erest(es1) + rest));
    lemma_entry_first(e0);
    assert(s.first() == ser_entry(e0)[0]);
    lemma_entry_rt(e0, ser_erest(es1) + rest);
    assert(s.skip(0) =~= s);
    lemma_skip_concat(s, 0, ser_entry(e0), ser_erest(es1) + rest);
    lemma_etail_rt(es1, rest);
    assert(seq![e0] + es1 =~= es);
}

#[verifier::rlimit(100)]
#[verifier::spinoff_prover]
proof fn lemma_elist_rt(es: Seq<EntryView>, rest: Seq<char>)
    requires
        rest.len() > 0,
        rest.first() == ']',
    ensures
        parse_elist(ser_eitems(es) + rest) == Some((es, ser_eitems(es).len() as int)),
{
    if es.len() == 0 {
        assert(ser_eitems(es) =~= Seq::<char>::empty());
        assert(ser_eitems(es) + rest =~= rest);
        assert(es =~= Seq::<EntryView>::empty());
    } else {
        lemma_elist_rt_nonempty(es, rest);
    }
}


/// Advances a position across a known prefix.
proof fn lemma_skip_concat(s: Seq<char>, i: int, a: Seq<char>, b: Seq<char>)
    requires
        0 <= i <= s.len(),
        s.skip(i) == a + b,
    ensures
        s.skip(i + a.len()) == b,
        spec_starts_with(s.skip(i), a),
        i + a.len() <= s.len(),
{
    lemma_prefix(a, b);
    assert(s.skip(i).len() == s.len() - i);
    assert(s.skip(i + a.len()) =~= s.skip(i).skip(a.len() as int));
}

/// One flag field: consumes its key and boolean and advances.
proof fn lemma_skip_flag(s: Seq<char>, i: int, key: Seq<char>, b: bool, rest: Seq<char>)
    requires
        0 <= i <= s.len(),
        s.skip(i) == key + (ser_bool(b) + rest),
    ensures
        parse_flag(s, i, key) == Some((b, i + key.len() + ser_bool(b).len())),
        s.skip(i + key.len() + ser_bool(b).len()) == rest,
        0 <= i + key.len() + ser_bool(b).len() <= s.len(),
{
    lemma_skip_concat(s, i, key, ser_bool(b) + rest);
    lemma_bool_rt(b, rest);
    lemma_skip_concat(s, i + key.len(), ser_bool(b), rest);
}

/// What follows the status digits in the canonical text.
pub open spec fn rest_after_status(r: ReplyView) -> Seq<char> {
    ",\"TC\":"@ + (ser_bool(r.tc) + rest_after_tc(r))
}

/// What follows the `TC` flag in the canonical text.
pub open spec fn rest_after_tc(r: ReplyView) -> Seq<char> {
    ",\"RD\":"@ + (ser_bool(r.rd) + rest_after_rd(r))
}

/// What follows the `RD` flag in the canonical text.
pub open spec fn rest_after_rd(r: ReplyView) -> Seq<char> {
    ",\"RA\":"@ + (ser_bool(r.ra) + rest_after_ra(r))
}

/// What follows the `RA` flag in the canonical text.
pub open spec fn rest_after_ra(r: ReplyView) -> Seq<char> {
    ",\"AD\":"@ + (ser_bool(r.ad) + rest_after_ad(r))
}

/// What follows the `AD` flag in the canonical text.
pub open spec fn rest_after_ad(r: ReplyView) -> Seq<char> {
    ",\"CD\":"@ + (ser_bool(r.cd) + rest_after_cd(r))
}

/// What follows the `CD` flag in the canonical text.
pub open spec fn rest_after_cd(r: ReplyView) -> Seq<char> {
    ",\"Question\":["@ + (ser_qitems(r.questions) + rest_after_questions(r))
}

/// What follows the question items in the canonical text.
pub open spec fn rest_after_questions(r: ReplyView) -> Seq<char> {
    "],\"Answer\":["@ + (ser_eitems(r.answers) + rest_after_answers(r))
}

/// What follows the answer items in the canonical text.
pub open spec fn rest_after_answers(r: ReplyView) -> Seq<char> {
    "],\"Authority\":["@ + (ser_eitems(r.authority) + "]}"@)
}

/// The canonical text, regrouped for reading from the front.
proof fn lemma_reply_layout(r: ReplyView)
    ensures
        ser_reply(r) == "{\"Status\":"@ + (spec_digits(r.status as nat) + rest_after_status(r)),
{
    let c01 = "{\"Status\":"@;
    let c02 = spec_digits(r.status as nat);
    let c03 = ",\"TC\":"@;
    let c04 = ser_bool(r.tc);
    let c05 = ",\"RD\":"@;
    let c06 = ser_bool(r.rd);
    let c07 = ",\"RA\":"@;
    let c08 = ser_bool(r.ra);
    let c09 = ",\"AD\":"@;
    let c10 = ser_bool(r.ad);
    let c11 = ",\"CD\":"@;
    let c12 = ser_bool(r.cd);
    let c13 = ",\"Question\":["@;
    let c14 = ser_qitems(r.questions);
    let c15 = "],\"Answer\":["@;
    let c16 = ser_eitems(r.answers);
    let c17 = "],\"Authority\":["@;
    let c18 = ser_eitems(r.authority);
    let c19 = "]}"@;
    lemma_assoc(
        c01 + c02 + c03 + c04 + c05 + c06 + c07 + c08 + c09 + c10 + c11 + c12 + c13 + c14 + c15
            + c16 + c17,
        c18,
        c19,
    );
    lemma_assoc(
        c01 + c02 + c03 + c04 + c05 + c06 + c07 + c08 + c09 + c10 + c11 + c12 + c13 + c14 + c15
            + c16,
        c17,
        c18 + c19,
    );
    lemma_assoc(
        c01 + c02 + c03 + c04 + c05 + c06 + c07 + c08 + c09 + c10 + c11 + c12 + c13 + c14 + c15,
        c16,
        c17 + (c18 + c19),
    );
    lemma_assoc(
        c01 + c02 + c03 + c04 + c05 + c06 + c07 + c08 + c09 + c10 + c11 + c12 + c13 + c14,
        c15,
        c16 + (c17 + (c18 + c19)),
    );
    lemma_assoc(
        c01 + c02 + c03 + c04 + c05 + c06 + c07 + c08 + c09 + c10 + c11 + c12 + c13,
        c14,
        c15 + (c16 + (c17 + (c18 + c19))),
    );
    lemma_assoc(
        c01 + c02 + c03 + c04 + c05 + c06 + c07 + c08 + c09 + c10 + c11 + c12,
        c13,
        c14 + (c15 + (c16 + (c17 + (c18 + c19)))),
    );
    lemma_assoc(
        c01 + c02 + c03 + c04 + c05 + c06 + c07 + c08 + c09 + c10 + c11,
        c12,
        c13 + (c14 + (c15 + (c16 + (c17 + (c18 + c19))))),
    );
    lemma_assoc(
        c01 + c02 + c03 + c04 + c05 + c06 + c07 + c08 + c09 + c10,
        c11,
        c12 + (c13 + (c14 + (c15 + (c16 + (c17 + (c18 + c19)))))),
    );
    lemma_assoc(
        c01 + c02 + c03 + c04 + c05 + c06 + c07 + c08 + c09,
        c10,
        c11 + (c12 + (c13 + (c14 + (c15 + (c16 + (c17 + (c18 + c19))))))),
    );
    lemma_assoc(
        c01 + c02 + c03 + c04 + c05 + c06 + c07 + c08,
        c09,
        c10 + (c11 + (c12 + (c13 + (c14 + (c15 + (c16 + (c17 + (c18 + c19)))))))),
    );
    lemma_assoc(
        c01 + c02 + c03 + c04 + c05 + c06 + c07,
        c08,
        c09 + (c10 + (c11 + (c12 + (c13 + (c14 + (c15 + (c16 + (c17 + (c18 + c19))))))))),
    );
    lemma_assoc(
        c01 + c02 + c03 + c04 + c05 + c06,
        c07,
        c08 + (c09 + (c10 + (c11 + (c12 + (c13 + (c14 + (c15 + (c16 + (c17 + (c18
            + c19)))))))))),
    );
    lemma_assoc(
        c01 + c02 + c03 + c04 + c05,
        c06,
        c07 + (c08 + (c09 + (c10 + (c11 + (c12 + (c13 + (c14 + (c15 + (c16 + (c17 + (c18
            + c19))))))))))),
    );
    lemma_assoc(
        c01 + c02 + c03 + c04,
        c05,
        c06 + (c07 + (c08 + (c09 + (c10 + (c11 + (c12 + (c13 + (c14 + (c15 + (c16 + (c17 + (c18
            + c19)))))))))))),
    );
    lemma_assoc(
        c01 + c02 + c03,
        c04,
        c05 + (c06 + (c07 + (c08 + (c09 + (c10 + (c11 + (c12 + (c13 + (c14 + (c15 + (c16 + (c17
            + (c18 + c19))))))))))))),
    );
    lemma_assoc(
        c01 + c02,
        c03,
        c04 + (c05 + (c06 + (c07 + (c08 + (c09 + (c10 + (c11 + (c12 + (c13 + (c14 + (c15 + (c16
            + (c17 + (c18 + c19)))))))))))))),
    );
    lemma_assoc(
        c01,
        c02,
        c03 + (c04 + (c05 + (c06 + (c07 + (c08 + (c09 + (c10 + (c11 + (c12 + (c13 + (c14 + (c15
            + (c16 + (c17 + (c18 + c19))))))))))))))),
    );
}

/// Position of the status digits in the canonical text.
spec fn pos_status(r: ReplyView) -> int {
    "{\"Status\":"@.len() as int
}

/// Position of the `TC` key.
spec fn pos_tc(r: ReplyView) -> int {
    pos_status(r) + spec_digits(r.status as nat).len()
}

/// Position of the `RD` key.
spec fn pos_rd(r: ReplyView) -> int {
    pos_tc(r) + ",\"TC\":"@.len() + ser_bool(r.tc).len()
}

/// Position of the `RA` key.
spec fn pos_ra(r: ReplyView) -> int {
    pos_rd(r) + ",\"RD\":"@.len() + ser_bool(r.rd).len()
}

/// Position of the `AD` key.
spec fn pos_ad(r: ReplyView) -> int {
    pos_ra(r) + ",\"RA\":"@.len() + ser_bool(r.ra).len()
}

/// Position of the `CD` key.
spec fn pos_cd(r: ReplyView) -> int {
    pos_ad(r) + ",\"AD\":"@.len() + ser_bool(r.ad).len()
}

/// Position of the `Question` key.
spec fn pos_q(r: ReplyView) -> int {
    pos_cd(r) + ",\"CD\":"@.len() + ser_bool(r.cd).len()
}

/// Position of the first question item.
spec fn pos_qitems(r: ReplyView) -> int {
    pos_q(r) + ",\"Question\":["@.len()
}

/// Position of the text after the question items.
spec fn pos_sections(r: ReplyView) -> int {
    pos_qitems(r) + ser_qitems(r.questions).len()
}

/// Reading the scalar head of the canonical text: the status number and
/// the five flags, up to the question section.
#[verifier::rlimit(100)]
#[verifier::spinoff_prover]
proof fn lemma_reply_head(r: ReplyView)
    ensures
        ({
            let s = ser_reply(r);
            &&& spec_starts_with(s, "{\"Status\":"@)
            &&& parse_number(s.skip(pos_status(r))) == Some(
                (r.status as u32, spec_digits(r.status as nat).len() as int),
            )
            &&& parse_flag(s, pos_tc(r), ",\"TC\":"@) == Some((r.tc, pos_rd(r)))
            &&& parse_flag(s, pos_rd(r), ",\"RD\":"@) == Some((r.rd, pos_ra(r)))
            &&& parse_flag(s, pos_ra(r), ",\"RA\":"@) == Some((r.ra, pos_ad(r)))
            &&& parse_flag(s, pos_ad(r), ",\"AD\":"@) == Some((r.ad, pos_cd(r)))
            &&& parse_flag(s, pos_cd(r), ",\"CD\":"@) == Some((r.cd, pos_q(r)))
            &&& spec_starts_with(s.skip(pos_q(r)), ",\"Question\":["@)
            &&& s.skip(pos_qitems(r)) == ser_qitems(r.questions) + rest_after_questions(r)
            &&& 0 <= pos_qitems(r) <= s.len()
        }),
{
    reveal_strlit(",\"TC\":");
    let s = ser_reply(r);
    let lit0 = "{\"Status\":"@;
    let d0 = spec_digits(r.status as nat);
    lemma_reply_layout(r);
    assert(s.skip(0) =~= s);
    lemma_skip_concat(s, 0, lit0, d0 + rest_after_status(r));
    assert(spec_starts_with(s, lit0)) by {
        assert(s.skip(0) =~= s);
    }
    assert(rest_after_status(r).first() == ",\"TC\":"@[0]);
    assert(!is_digit(",\"TC\":"@[0]));
    lemma_number_rt(r.status as u32, rest_after_status(r));
    lemma_digits_props(r.status as nat);
    lemma_skip_concat(s, pos_status(r), d0, rest_after_status(r));
    lemma_skip_flag(s, pos_tc(r), ",\"TC\":"@, r.tc, rest_after_tc(r));
    lemma_skip_flag(s, pos_rd(r), ",\"RD\":"@, r.rd, rest_after_rd(r));
    lemma_skip_flag(s, pos_ra(r), ",\"RA\":"@, r.ra, rest_after_ra(r));
    lemma_skip_flag(s, pos_ad(r), ",\"AD\":"@, r.ad, rest_after_ad(r));
    lemma_skip_flag(s, pos_cd(r), ",\"CD\":"@, r.cd, rest_after_cd(r));
    lemma_skip_concat(s, pos_q(r), ",\"Question\":["@, ser_qitems(r.questions)
        + rest_after_questions(r));
}

/// Reading the tail of the canonical text: the three sections and the
/// closing brace.
#[verifier::rlimit(100)]
#[verifier::spinoff_prover]
proof fn lemma_reply_tail(r: ReplyView)
    requires
        0 <= pos_qitems(r) <= ser_reply(r).len(),
        ser_reply(r).skip(pos_qitems(r)) == ser_qitems(r.questions) + rest_after_questions(r),
    ensures
        ({
            let s = ser_reply(r);
            &&& parse_qlist(s.skip(pos_qitems(r))) == Some(
                (r.questions, ser_qitems(r.questions).len() as int),
            )
            &&& forall|base: ReplyView|
                #[trigger] parse_sections(s, pos_sections(r), base) == Some(
                    (
                        ReplyView { answers: r.answers, authority: r.authority, ..base },
                        s.len() as int,
                    ),
                )
        }),
{
    reveal_strlit("],\"Answer\":[");
    reveal_strlit("],\"Authority\":[");
    reveal_strlit("]}");
    let s = ser_reply(r);
    let iq = pos_qitems(r);
    assert(rest_after_questions(r).first() == "],\"Answer\":["@[0]);
    lemma_qlist_rt(r.questions, rest_after_questions(r));
    lemma_skip_concat(s, iq, ser_qitems(r.questions), rest_after_questions(r));
    let jq = pos_sections(r);

    lemma_skip_concat(s, jq, "],\"Answer\":["@, ser_eitems(r.answers)
        + rest_after_answers(r));
    let ia = jq + "],\"Answer\":["@.len();
    assert(rest_after_answers(r).first() == "],\"Authority\":["@[0]);
    lemma_elist_rt(r.answers, rest_after_answers(r));
    lemma_skip_concat(s, ia, ser_eitems(r.answers), rest_after_answers(r));
    let ja = ia + ser_eitems(r.answers).len();

    lemma_skip_concat(s, ja, "],\"Authority\":["@, ser_eitems(r.authority) + "]}"@);
    let iu = ja + "],\"Authority\":["@.len();
    assert(("]}"@).first() == ']');
    lemma_elist_rt(r.authority, "]}"@);
    lemma_skip_concat(s, iu, ser_eitems(r.authority), "]}"@);
    let ju = iu + ser_eitems(r.authority).len();

    lemma_prefix("]}"@, Seq::<char>::empty());
    assert("]}"@ + Seq::<char>::empty() =~= "]}"@);
    assert(spec_starts_with(s.skip(ju), "]}"@));
    assert(s.skip(ju).len() == s.len() - ju);
    assert(ju + "]}"@.len() == s.len() as int);

    assert forall|base: ReplyView| #[trigger] parse_sections(s, pos_sections(r), base) == Some(
        (ReplyView { answers: r.answers, authority: r.authority, ..base }, s.len() as int),
    ) by {
        assert(parse_sections(s, jq, base) == Some(
            (ReplyView { answers: r.answers, authority: r.authority, ..base }, ju
                + "]}"@.len()),
        ));
    }
}

/// Writing a reply and reading it back gives the reply back exactly: the
/// canonical JSON text of a reply denotes that reply.
#[verifier::rlimit(100)]
#[verifier::spinoff_prover]
pub proof fn lemma_reply_roundtrip(r: ReplyView)
    ensures
        spec_reply_from_json(ser_reply(r)) == Some(r),
{
    let s = ser_reply(r);
    lemma_reply_head(r);
    lemma_reply_tail(r);
    let base = ReplyView {
        status: (r.status as u32) as u8,
        tc: r.tc,
        rd: r.rd,
        ra: r.ra,
        ad: r.ad,
        cd: r.cd,
        questions: r.questions,
        answers: Seq::empty(),
        authority: Seq::empty(),
    };
    assert(parse_sections(s, pos_sections(r), base) == Some(
        (ReplyView { answers: r.answers, authority: r.authority, ..base }, s.len() as int),
    ));
    assert(ReplyView { answers: r.answers, authority: r.authority, ..base } == r);
    assert(parse_reply(s) == Some((r, s.len() as int)));
}

} // verus!
