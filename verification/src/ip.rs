//! Textual IP addresses.
//!
//! The address data of an upstream answer arrives as text; these parsers
//! turn it into the library's address values. The accepted grammar is the
//! usual one: a dotted quad of decimal octets without leading zeros for
//! IPv4, and colon-separated groups of up to four hex digits for IPv6, with
//! at most one `::` compression and an optional embedded dotted quad as the
//! last group.

use vstd::prelude::*;
use vstd::string::StrSliceExecFns;

use crate::hostname::push_char;
use crate::settings::{is_digit, spec_dec_value};

verus! {

/// An IPv4 address as its four octets.
#[derive(Clone, Copy, Debug, PartialEq, Eq, Structural)]
pub struct Ipv4Address {
    pub o0: u8,
    pub o1: u8,
    pub o2: u8,
    pub o3: u8,
}

/// An IPv6 address as its eight 16-bit segments.
#[derive(Clone, Copy, Debug, PartialEq, Eq, Structural)]
pub struct Ipv6Address {
    pub s0: u16,
    pub s1: u16,
    pub s2: u16,
    pub s3: u16,
    pub s4: u16,
    pub s5: u16,
    pub s6: u16,
    pub s7: u16,
}

/// Position of the first occurrence of `sep`, or -1 when there is none.
pub open spec fn find_char(s: Seq<char>, sep: char) -> int
    decreases s.len(),
{
    if s.len() == 0 {
        -1
    } else if s.first() == sep {
        0
    } else {
        let r = find_char(s.drop_first(), sep);
        if r < 0 {
            -1
        } else {
            r + 1
        }
    }
}

proof fn lemma_find_char_bound(s: Seq<char>, sep: char)
    ensures
        -1 <= find_char(s, sep) < s.len(),
        find_char(s, sep) >= 0 ==> s[find_char(s, sep)] == sep,
    decreases s.len(),
{
    if s.len() > 0 && s.first() != sep {
        lemma_find_char_bound(s.drop_first(), sep);
    }
}

/// The pieces of `s` between the occurrences of `sep`: one piece more than
/// there are separators, empty pieces kept.
pub open spec fn split_on(s: Seq<char>, sep: char) -> Seq<Seq<char>>
    decreases s.len(),
    via split_on_decreases
{
    if find_char(s, sep) < 0 {
        seq![s]
    } else {
        let i = find_char(s, sep);
        seq![s.take(i)] + split_on(s.skip(i + 1), sep)
    }
}

#[via_fn]
proof fn split_on_decreases(s: Seq<char>, sep: char) {
    lemma_find_char_bound(s, sep);
}

proof fn lemma_find_char_none(s: Seq<char>, sep: char)
    requires
        forall|k: int| 0 <= k < s.len() ==> s[k] != sep,
    ensures
        find_char(s, sep) == -1,
    decreases s.len(),
{
    if s.len() > 0 {
        assert(s.first() == s[0]);
        assert(forall|k: int| 0 <= k < s.drop_first().len() ==> s.drop_first()[k] == s[k + 1]);
        lemma_find_char_none(s.drop_first(), sep);
    }
}

proof fn lemma_find_char_prefix(p: Seq<char>, rest: Seq<char>, sep: char)
    requires
        forall|k: int| 0 <= k < p.len() ==> p[k] != sep,
        rest.len() > 0,
        rest.first() == sep,
    ensures
        find_char(p + rest, sep) == p.len(),
    decreases p.len(),
{
    if p.len() == 0 {
        assert(p + rest =~= rest);
    } else {
        assert((p + rest).first() == p[0]);
        assert((p + rest).drop_first() =~= p.drop_first() + rest);
        assert(forall|k: int|
            0 <= k < p.drop_first().len() ==> p.drop_first()[k] == p[k + 1]);
        lemma_find_char_prefix(p.drop_first(), rest, sep);
    }
}

/// `split_on` of a separator-free piece is just that piece.
proof fn lemma_split_single(p: Seq<char>, sep: char)
    requires
        forall|k: int| 0 <= k < p.len() ==> p[k] != sep,
    ensures
        split_on(p, sep) == seq![p],
{
    lemma_find_char_none(p, sep);
}

/// Unfolds `split_on` across one separator that follows a separator-free
/// piece.
proof fn lemma_split_step(p: Seq<char>, rest: Seq<char>, sep: char)
    requires
        forall|k: int| 0 <= k < p.len() ==> p[k] != sep,
        rest.len() > 0,
        rest.first() == sep,
    ensures
        split_on(p + rest, sep) == seq![p] + split_on(rest.drop_first(), sep),
{
    lemma_find_char_prefix(p, rest, sep);
    let w = p + rest;
    assert(w.take(p.len() as int) =~= p);
    assert(w.skip(p.len() as int + 1) =~= rest.drop_first());
}

/// Splits a string on a separator character; empty pieces are kept, and a
/// string without the separator is one piece.
pub fn split_str(s: &str, sep: char) -> (r: Vec<String>)
    ensures
        r@.map_values(|t: String| t@) == split_on(s@, sep),
{
    let n = s.unicode_len();
    let mut fin: Vec<String> = Vec::new();
    let mut cur = String::new();
    proof {
        assert(cur@ + s@.skip(0) =~= s@);
        assert(fin@.map_values(|t: String| t@) + split_on(cur@ + s@.skip(0), sep) =~= split_on(
            s@,
            sep,
        ));
    }
    let mut i: usize = 0;
    while i < n
        invariant
            n == s@.len(),
            0 <= i <= n,
            forall|k: int| 0 <= k < cur@.len() ==> cur@[k] != sep,
            split_on(s@, sep) == fin@.map_values(|t: String| t@) + split_on(
                cur@ + s@.skip(i as int),
                sep,
            ),
        decreases n - i,
    {
        let c = s.get_char(i);
        if c == sep {
            proof {
                assert(s@.skip(i as int).first() == s@[i as int]);
                lemma_split_step(cur@, s@.skip(i as int), sep);
                assert(s@.skip(i as int).drop_first() =~= s@.skip(i + 1));
            }
            let ghost old_fin = fin@;
            let ghost old_cur = cur@;
            fin.push(cur);
            cur = String::new();
            proof {
                assert(fin@.map_values(|t: String| t@) =~= old_fin.map_values(|t: String| t@)
                    + seq![old_cur]);
                assert(cur@ + s@.skip(i + 1) =~= s@.skip(i + 1));
                assert((old_fin.map_values(|t: String| t@) + (seq![old_cur] + split_on(
                    s@.skip(i + 1),
                    sep,
                ))) =~= (fin@.map_values(|t: String| t@) + split_on(cur@ + s@.skip(i + 1), sep)));
            }
        } else {
            let ghost old_cur = cur@;
            push_char(&mut cur, c);
            proof {
                assert(s@.skip(i as int).first() == s@[i as int]);
                assert(cur@ + s@.skip(i + 1) =~= old_cur + s@.skip(i as int));
            }
        }
        i = i + 1;
    }
    proof {
        assert(cur@ + s@.skip(n as int) =~= cur@);
        lemma_split_single(cur@, sep);
    }
    let ghost old_fin = fin@;
    let ghost old_cur = cur@;
    fin.push(cur);
    proof {
        assert(fin@.map_values(|t: String| t@) =~= old_fin.map_values(|t: String| t@) + seq![
            old_cur,
        ]);
    }
    fin
}

/// A valid decimal octet: one to three digits, no leading zero, value at
/// most 255.
pub open spec fn valid_octet(s: Seq<char>) -> bool {
    &&& 1 <= s.len() <= 3
    &&& forall|i: int| 0 <= i < s.len() ==> is_digit(#[trigger] s[i])
    &&& (s.len() > 1 ==> s[0] != '0')
    &&& spec_dec_value(s) <= 255
}

/// What a dotted quad denotes: four valid octets separated by dots.
pub open spec fn spec_parse_ipv4(s: Seq<char>) -> Option<Ipv4Address> {
    let ps = split_on(s, '.');
    if ps.len() == 4 && valid_octet(ps[0]) && valid_octet(ps[1]) && valid_octet(ps[2])
        && valid_octet(ps[3]) {
        Some(
            Ipv4Address {
                o0: spec_dec_value(ps[0]) as u8,
                o1: spec_dec_value(ps[1]) as u8,
                o2: spec_dec_value(ps[2]) as u8,
                o3: spec_dec_value(ps[3]) as u8,
            },
        )
    } else {
        None
    }
}

/// Reads one decimal octet.
fn parse_octet(s: &str) -> (r: Option<u8>)
    ensures
        r == (if valid_octet(s@) {
            Some(spec_dec_value(s@) as u8)
        } else {
            None::<u8>
        }),
{
    let n = s.unicode_len();
    if n == 0 || n > 3 {
        return None;
    }
    if n > 1 && s.get_char(0) == '0' {
        return None;
    }
    let mut acc: u32 = 0;
    let mut i: usize = 0;
    while i < n
        invariant
            n == s@.len(),
            n <= 3,
            0 <= i <= n,
            forall|k: int| 0 <= k < i ==> is_digit(#[trigger] s@[k]),
            acc == spec_dec_value(s@.take(i as int)),
            acc < 1000,
        decreases n - i,
    {
        let c = s.get_char(i);
        let u = c as u32;
        if u < 48 || u > 57 {
            assert(!is_digit(s@[i as int]));
            return None;
        }
        proof {
            assert(s@.take(i + 1).drop_last() =~= s@.take(i as int));
            assert(s@.take(i + 1).last() == s@[i as int]);
            crate::settings::lemma_dec_value_bound(s@.take(i + 1));
        }
        acc = acc * 10 + (u - 48);
        i = i + 1;
    }
    proof {
        assert(s@.take(n as int) =~= s@);
    }
    if acc <= 255 {
        Some(acc as u8)
    } else {
        None
    }
}

/// A hexadecimal digit, either case.
pub open spec fn is_hex_digit(c: char) -> bool {
    ('0' <= c && c <= '9') || ('a' <= c && c <= 'f') || ('A' <= c && c <= 'F')
}

/// The value of one hexadecimal digit.
pub open spec fn hex_digit_val(c: char) -> int {
    if '0' <= c && c <= '9' {
        c as u32 - 48
    } else if 'a' <= c && c <= 'f' {
        c as u32 - 87
    } else {
        c as u32 - 55
    }
}

/// The value of a hex digit string, most significant digit first.
pub open spec fn spec_hex_value(s: Seq<char>) -> int
    decreases s.len(),
{
    if s.len() == 0 {
        0
    } else {
        spec_hex_value(s.drop_last()) * 16 + hex_digit_val(s.last())
    }
}

/// A valid address group: one to four hex digits.
pub open spec fn valid_h16(s: Seq<char>) -> bool {
    1 <= s.len() <= 4 && forall|i: int| 0 <= i < s.len() ==> is_hex_digit(#[trigger] s[i])
}

proof fn lemma_hex_value_bound(s: Seq<char>)
    requires
        forall|i: int| 0 <= i < s.len() ==> is_hex_digit(#[trigger] s[i]),
    ensures
        0 <= spec_hex_value(s),
        s.len() <= 1 ==> spec_hex_value(s) < 16,
        s.len() <= 2 ==> spec_hex_value(s) < 256,
        s.len() <= 3 ==> spec_hex_value(s) < 4096,
        s.len() <= 4 ==> spec_hex_value(s) < 65536,
    decreases s.len(),
{
    if s.len() > 0 {
        lemma_hex_value_bound(s.drop_last());
    }
}

/// The 16-bit words of the groups, in order; nothing when a group is not a
/// valid hex group.
pub open spec fn words_of_parts(ps: Seq<Seq<char>>) -> Option<Seq<u16>>
    decreases ps.len(),
{
    if ps.len() == 0 {
        Some(Seq::empty())
    } else {
        match words_of_parts(ps.drop_last()) {
            None => None,
            Some(ws) => if valid_h16(ps.last()) {
                Some(ws.push(spec_hex_value(ps.last()) as u16))
            } else {
                None
            },
        }
    }
}

/// The two 16-bit words of an embedded dotted quad.
pub open spec fn v4_words(a: Ipv4Address) -> Seq<u16> {
    seq![
        ((a.o0 as u16) * 256 + (a.o1 as u16)) as u16,
        ((a.o2 as u16) * 256 + (a.o3 as u16)) as u16,
    ]
}

/// Like [`words_of_parts`], but the last group may instead be an embedded
/// dotted quad, worth two words.
pub open spec fn tail_words(ps: Seq<Seq<char>>) -> Option<Seq<u16>> {
    if ps.len() == 0 {
        Some(Seq::empty())
    } else {
        match spec_parse_ipv4(ps.last()) {
            Some(a) => match words_of_parts(ps.drop_last()) {
                None => None,
                Some(ws) => Some(ws + v4_words(a)),
            },
            None => words_of_parts(ps),
        }
    }
}

/// `n` zero words.
pub open spec fn zero_words(n: int) -> Seq<u16> {
    Seq::new(n as nat, |i: int| 0u16)
}

/// Eight words as an address value.
pub open spec fn pack_words(ws: Seq<u16>) -> Ipv6Address {
    Ipv6Address {
        s0: ws[0],
        s1: ws[1],
        s2: ws[2],
        s3: ws[3],
        s4: ws[4],
        s5: ws[5],
        s6: ws[6],
        s7: ws[7],
    }
}

/// Position of the first empty piece, or -1 when none is empty.
pub open spec fn first_empty(ps: Seq<Seq<char>>) -> int
    decreases ps.len(),
{
    if ps.len() == 0 {
        -1
    } else if ps.first().len() == 0 {
        0
    } else {
        let r = first_empty(ps.drop_first());
        if r < 0 {
            -1
        } else {
            r + 1
        }
    }
}

proof fn lemma_first_empty_at(ps: Seq<Seq<char>>, j: int)
    requires
        0 <= j < ps.len(),
        forall|k: int| 0 <= k < j ==> (#[trigger] ps[k]).len() > 0,
        ps[j].len() == 0,
    ensures
        first_empty(ps) == j,
    decreases j,
{
    if j == 0 {
    } else {
        assert(forall|k: int|
            0 <= k < ps.drop_first().len() ==> ps.drop_first()[k] == ps[k + 1]);
        lemma_first_empty_at(ps.drop_first(), j - 1);
    }
}

proof fn lemma_first_empty_none(ps: Seq<Seq<char>>)
    requires
        forall|k: int| 0 <= k < ps.len() ==> (#[trigger] ps[k]).len() > 0,
    ensures
        first_empty(ps) == -1,
    decreases ps.len(),
{
    if ps.len() > 0 {
        assert(forall|k: int|
            0 <= k < ps.drop_first().len() ==> ps.drop_first()[k] == ps[k + 1]);
        lemma_first_empty_none(ps.drop_first());
    }
}

/// What a textual IPv6 address denotes, over the colon-separated pieces:
/// eight plain groups (an embedded dotted quad counting as two); or one
/// `::` compression — in the middle, at the start, at the end, or standing
/// alone — with at most seven explicit words around it.
pub open spec fn spec_parse_ipv6(s: Seq<char>) -> Option<Ipv6Address> {
    let ps = split_on(s, ':');
    let n = ps.len() as int;
    if first_empty(ps) < 0 {
        match tail_words(ps) {
            Some(ws) => if ws.len() == 8 {
                Some(pack_words(ws))
            } else {
                None
            },
            None => None,
        }
    } else if n == 3 && ps[0].len() == 0 && ps[1].len() == 0 && ps[2].len() == 0 {
        Some(pack_words(zero_words(8)))
    } else if n >= 3 && ps[0].len() == 0 && ps[1].len() == 0 && (forall|k: int|
        2 <= k < n ==> (#[trigger] ps[k]).len() > 0) {
        match tail_words(ps.skip(2)) {
            Some(t) => if t.len() <= 7 {
                Some(pack_words(zero_words(8 - t.len()) + t))
            } else {
                None
            },
            None => None,
        }
    } else if n >= 3 && ps[n - 1].len() == 0 && ps[n - 2].len() == 0 && (forall|k: int|
        0 <= k < n - 2 ==> (#[trigger] ps[k]).len() > 0) {
        match words_of_parts(ps.take(n - 2)) {
            Some(h) => if h.len() <= 7 {
                Some(pack_words(h + zero_words(8 - h.len())))
            } else {
                None
            },
            None => None,
        }
    } else if 0 < first_empty(ps) < n - 1 && (forall|k: int|
        first_empty(ps) < k < n ==> (#[trigger] ps[k]).len() > 0) {
        let i = first_empty(ps);
        match (words_of_parts(ps.take(i)), tail_words(ps.skip(i + 1))) {
            (Some(h), Some(t)) => if h.len() + t.len() <= 7 {
                Some(pack_words(h + zero_words(8 - h.len() - t.len()) + t))
            } else {
                None
            },
            _ => None,
        }
    } else {
        None
    }
}

/// Reads one hex group.
fn parse_h16(s: &str) -> (r: Option<u16>)
    ensures
        r == (if valid_h16(s@) {
            Some(spec_hex_value(s@) as u16)
        } else {
            None::<u16>
        }),
{
    let n = s.unicode_len();
    if n == 0 || n > 4 {
        return None;
    }
    let mut acc: u32 = 0;
    let mut i: usize = 0;
    while i < n
        invariant
            n == s@.len(),
            n <= 4,
            0 <= i <= n,
            forall|k: int| 0 <= k < i ==> is_hex_digit(#[trigger] s@[k]),
            acc == spec_hex_value(s@.take(i as int)),
            acc < 65536,
        decreases n - i,
    {
        let c = s.get_char(i);
        let u = c as u32;
        let d: u32 = if 48 <= u && u <= 57 {
            u - 48
        } else if 97 <= u && u <= 102 {
            u - 87
        } else if 65 <= u && u <= 70 {
            u - 55
        } else {
            assert(!is_hex_digit(s@[i as int]));
            return None;
        };
        proof {
            assert(s@.take(i + 1).drop_last() =~= s@.take(i as int));
            assert(s@.take(i + 1).last() == s@[i as int]);
            lemma_hex_value_bound(s@.take(i + 1));
            lemma_hex_value_bound(s@.take(i as int));
        }
        acc = acc * 16 + d;
        i = i + 1;
    }
    proof {
        assert(s@.take(n as int) =~= s@);
    }
    Some(acc as u16)
}

/// An invalid group anywhere makes the whole run of groups invalid.
proof fn lemma_words_none(ps: Seq<Seq<char>>, k: int)
    requires
        0 <= k < ps.len(),
        !valid_h16(ps[k]),
    ensures
        words_of_parts(ps) is None,
    decreases ps.len(),
{
    if k < ps.len() - 1 {
        assert(forall|j: int|
            0 <= j < ps.drop_last().len() ==> ps.drop_last()[j] == ps[j]);
        lemma_words_none(ps.drop_last(), k);
    }
}

/// Reads the groups `ps[lo..hi]` as plain hex words.
fn head_words(parts: &Vec<String>, lo: usize, hi: usize) -> (r: Option<Vec<u16>>)
    requires
        lo <= hi <= parts@.len(),
    ensures
        ({
            let sub = parts@.map_values(|t: String| t@).subrange(lo as int, hi as int);
            match r {
                Some(v) => words_of_parts(sub) == Some(v@),
                None => words_of_parts(sub) is None,
            }
        }),
{
    let ghost views = parts@.map_values(|t: String| t@);
    let mut acc: Vec<u16> = Vec::new();
    let mut i: usize = lo;
    proof {
        assert(views.subrange(lo as int, lo as int) =~= Seq::<Seq<char>>::empty());
        assert(acc@ =~= Seq::<u16>::empty());
    }
    while i < hi
        invariant
            lo <= i <= hi <= parts@.len(),
            views == parts@.map_values(|t: String| t@),
            words_of_parts(views.subrange(lo as int, i as int)) == Some(acc@),
        decreases hi - i,
    {
        proof {
            assert(views.subrange(lo as int, i + 1).drop_last() =~= views.subrange(
                lo as int,
                i as int,
            ));
            assert(views.subrange(lo as int, i + 1).last() == views[i as int]);
            assert(views[i as int] == parts@[i as int]@);
        }
        match parse_h16(parts[i].as_str()) {
            Some(w) => {
                acc.push(w);
            },
            None => {
                proof {
                    lemma_words_none(views.subrange(lo as int, hi as int), i - lo);
                }
                return None;
            },
        }
        i = i + 1;
    }
    Some(acc)
}

/// Reads the groups `ps[lo..hi]`, the last one possibly an embedded dotted
/// quad.
fn tail_words_exec(parts: &Vec<String>, lo: usize, hi: usize) -> (r: Option<Vec<u16>>)
    requires
        lo <= hi <= parts@.len(),
    ensures
        ({
            let sub = parts@.map_values(|t: String| t@).subrange(lo as int, hi as int);
            match r {
                Some(v) => tail_words(sub) == Some(v@),
                None => tail_words(sub) is None,
            }
        }),
{
    let ghost views = parts@.map_values(|t: String| t@);
    let ghost sub = views.subrange(lo as int, hi as int);
    if lo == hi {
        let empty: Vec<u16> = Vec::new();
        proof {
            assert(sub.len() == 0);
            assert(empty@ =~= Seq::<u16>::empty());
        }
        return Some(empty);
    }
    proof {
        assert(sub.last() == views[hi - 1]);
        assert(views[hi - 1] == parts@[hi - 1]@);
        assert(sub.drop_last() =~= views.subrange(lo as int, hi - 1));
    }
    match parse_ipv4(parts[hi - 1].as_str()) {
        Some(a) => {
            match head_words(parts, lo, hi - 1) {
                Some(mut ws) => {
                    let ghost head = ws@;
                    let w0 = (a.o0 as u16) * 256 + (a.o1 as u16);
                    let w1 = (a.o2 as u16) * 256 + (a.o3 as u16);
                    ws.push(w0);
                    ws.push(w1);
                    proof {
                        assert(ws@ =~= head + v4_words(a));
                    }
                    Some(ws)
                },
                None => None,
            }
        },
        None => head_words(parts, lo, hi),
    }
}

/// Lays out head words, the zero run, and tail words as the eight words of
/// an address.
fn assemble(head: &Vec<u16>, tail: &Vec<u16>) -> (r: Vec<u16>)
    requires
        head@.len() + tail@.len() <= 8,
    ensures
        r@ == head@ + zero_words(8 - head@.len() - tail@.len()) + tail@,
        r@.len() == 8,
{
    let mut r: Vec<u16> = Vec::new();
    let mut i: usize = 0;
    while i < head.len()
        invariant
            0 <= i <= head@.len(),
            r@ =~= head@.take(i as int),
        decreases head.len() - i,
    {
        r.push(head[i]);
        i = i + 1;
    }
    let zeros = 8 - head.len() - tail.len();
    let mut j: usize = 0;
    while j < zeros
        invariant
            zeros == 8 - head@.len() - tail@.len(),
            0 <= j <= zeros,
            r@ =~= head@ + zero_words(j as int),
        decreases zeros - j,
    {
        r.push(0);
        proof {
            assert(head@ + zero_words(j + 1) =~= (head@ + zero_words(j as int)).push(0u16));
        }
        j = j + 1;
    }
    let mut k: usize = 0;
    while k < tail.len()
        invariant
            zeros == 8 - head@.len() - tail@.len(),
            0 <= k <= tail@.len(),
            r@ =~= head@ + zero_words(zeros as int) + tail@.take(k as int),
        decreases tail.len() - k,
    {
        r.push(tail[k]);
        proof {
            assert(head@ + zero_words(zeros as int) + tail@.take(k + 1) =~= (head@ + zero_words(
                zeros as int,
            ) + tail@.take(k as int)).push(tail@[k as int]));
        }
        k = k + 1;
    }
    proof {
        assert(tail@.take(tail@.len() as int) =~= tail@);
        assert(r@ =~= head@ + zero_words(zeros as int) + tail@);
    }
    r
}

/// The eight words as an address value.
fn pack(w: &Vec<u16>) -> (r: Ipv6Address)
    requires
        w@.len() == 8,
    ensures
        r == pack_words(w@),
{
    Ipv6Address {
        s0: w[0],
        s1: w[1],
        s2: w[2],
        s3: w[3],
        s4: w[4],
        s5: w[5],
        s6: w[6],
        s7: w[7],
    }
}

/// Reads a textual IPv6 address.
pub fn parse_ipv6(s: &str) -> (r: Option<Ipv6Address>)
    ensures
        r == spec_parse_ipv6(s@),
{
    let parts = split_str(s, ':');
    let ghost views = parts@.map_values(|t: String| t@);
    let n = parts.len();
    proof {
        assert(forall|k: int|
            #![trigger views[k]]
            #![trigger parts@[k]]
            0 <= k < parts@.len() ==> views[k] == parts@[k]@);
    }

    // Position of the first empty piece, if any.
    let mut fe: usize = 0;
    while fe < n && !parts[fe].as_str().is_empty()
        invariant
            n == parts@.len(),
            views == parts@.map_values(|t: String| t@),
            0 <= fe <= n,
            forall|k: int| 0 <= k < fe ==> (#[trigger] views[k]).len() > 0,
        decreases n - fe,
    {
        proof {
            assert(views[fe as int] == parts@[fe as int]@);
        }
        fe = fe + 1;
    }
    proof {
        if fe < n {
            assert(views[fe as int] == parts@[fe as int]@);
            lemma_first_empty_at(views, fe as int);
        } else {
            lemma_first_empty_none(views);
        }
    }

    if fe == n {
        // No empty piece: eight plain groups are needed.
        proof {
            assert(views.subrange(0, n as int) =~= views);
        }
        match tail_words_exec(&parts, 0, n) {
            Some(ws) => {
                if ws.len() == 8 {
                    Some(pack(&ws))
                } else {
                    None
                }
            },
            None => None,
        }
    } else if n == 3 && fe == 0 && parts[1].as_str().is_empty() && parts[2].as_str().is_empty() {
        // The whole string is "::".
        proof {
            assert(views[0] == parts@[0]@);
            assert(views[1] == parts@[1]@);
            assert(views[2] == parts@[2]@);
        }
        let head: Vec<u16> = Vec::new();
        let tail: Vec<u16> = Vec::new();
        let w = assemble(&head, &tail);
        proof {
            assert(head@ + zero_words(8) + tail@ =~= zero_words(8));
        }
        Some(pack(&w))
    } else if fe == 0 && n >= 3 && parts[1].as_str().is_empty() && all_nonempty_from(
        &parts,
        2,
    ) {
        // Leading "::", explicit groups after it.
        proof {
            assert(views[0] == parts@[0]@);
            assert(views[1] == parts@[1]@);
            assert(views.subrange(2, n as int) =~= views.skip(2));
        }
        match tail_words_exec(&parts, 2, n) {
            Some(t) => {
                if t.len() <= 7 {
                    let head: Vec<u16> = Vec::new();
                    let w = assemble(&head, &t);
                    proof {
                        assert(head@ + zero_words(8 - t@.len()) + t@ =~= zero_words(8 - t@.len())
                            + t@);
                    }
                    Some(pack(&w))
                } else {
                    None
                }
            },
            None => None,
        }
    } else if n >= 3 && fe == n - 2 && parts[n - 1].as_str().is_empty() {
        // Trailing "::", explicit groups before it.
        proof {
            assert(views[n - 2] == parts@[n - 2]@);
            assert(views[n - 1] == parts@[n - 1]@);
            assert(views.subrange(0, n - 2) =~= views.take(n - 2));
        }
        match head_words(&parts, 0, n - 2) {
            Some(h) => {
                if h.len() <= 7 {
                    let tail: Vec<u16> = Vec::new();
                    let w = assemble(&h, &tail);
                    proof {
                        assert(h@ + zero_words(8 - h@.len()) + tail@ =~= h@ + zero_words(
                            8 - h@.len(),
                        ));
                    }
                    Some(pack(&w))
                } else {
                    None
                }
            },
            None => None,
        }
    } else if 0 < fe && fe < n - 1 && all_nonempty_from(&parts, fe + 1) {
        // A "::" in the middle.
        proof {
            assert(views.subrange(0, fe as int) =~= views.take(fe as int));
            assert(views.subrange(fe + 1, n as int) =~= views.skip(fe + 1));
        }
        match head_words(&parts, 0, fe) {
            Some(h) => {
                match tail_words_exec(&parts, fe + 1, n) {
                    Some(t) => {
                        if h.len() <= 7 && t.len() <= 7 - h.len() {
                            let w = assemble(&h, &t);
                            Some(pack(&w))
                        } else {
                            None
                        }
                    },
                    None => None,
                }
            },
            None => None,
        }
    } else {
        None
    }
}

/// Whether every piece from `from` on is non-empty.
fn all_nonempty_from(parts: &Vec<String>, from: usize) -> (r: bool)
    requires
        from <= parts@.len(),
    ensures
        r == (forall|k: int|
            from <= k < parts@.len() ==> (#[trigger] parts@[k])@.len() > 0),
{
    let mut k: usize = from;
    while k < parts.len()
        invariant
            from <= k <= parts@.len(),
            forall|j: int| from <= j < k ==> (#[trigger] parts@[j])@.len() > 0,
        decreases parts@.len() - k,
    {
        if parts[k].as_str().is_empty() {
            return false;
        }
        k = k + 1;
    }
    true
}

/// Reads a dotted-quad IPv4 address.
pub fn parse_ipv4(s: &str) -> (r: Option<Ipv4Address>)
    ensures
        r == spec_parse_ipv4(s@),
{
    let parts = split_str(s, '.');
    if parts.len() != 4 {
        return None;
    }
    assert(parts@.map_values(|t: String| t@)[0] == parts@[0]@);
    assert(parts@.map_values(|t: String| t@)[1] == parts@[1]@);
    assert(parts@.map_values(|t: String| t@)[2] == parts@[2]@);
    assert(parts@.map_values(|t: String| t@)[3] == parts@[3]@);
    let a = parse_octet(parts[0].as_str());
    let b = parse_octet(parts[1].as_str());
    let c = parse_octet(parts[2].as_str());
    let d = parse_octet(parts[3].as_str());
    match (a, b, c, d) {
        (Some(o0), Some(o1), Some(o2), Some(o3)) => Some(Ipv4Address { o0, o1, o2, o3 }),
        _ => None,
    }
}

} // verus!
