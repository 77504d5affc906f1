//! Hostname normalization.
//!
//! Every hostname that takes part in lookup, caching, blacklisting or
//! auditing is keyed in normalized form: surrounding whitespace removed and
//! ASCII letters folded to lower case. DNS names compare case-insensitively
//! over ASCII only, so the fold leaves all other characters alone.

use vstd::prelude::*;
use vstd::string::StrSliceExecFns;

verus! {

/// The whitespace characters that normalization strips from the ends.
pub open spec fn is_space_char(c: char) -> bool {
    c == ' ' || c == '\t' || c == '\n' || c == '\r'
}

/// ASCII-only case fold of one character.
pub open spec fn lower_char(c: char) -> char {
    if 'A' <= c && c <= 'Z' {
        (((c as u32) + 32) as u8) as char
    } else {
        c
    }
}

/// The longest suffix of `s` whose first character is not whitespace.
pub open spec fn spec_trim_front(s: Seq<char>) -> Seq<char>
    decreases s.len(),
{
    if s.len() > 0 && is_space_char(s.first()) {
        spec_trim_front(s.drop_first())
    } else {
        s
    }
}

/// The longest prefix of `s` whose last character is not whitespace.
pub open spec fn spec_trim_back(s: Seq<char>) -> Seq<char>
    decreases s.len(),
{
    if s.len() > 0 && is_space_char(s.last()) {
        spec_trim_back(s.drop_last())
    } else {
        s
    }
}

/// `s` with surrounding whitespace removed.
pub open spec fn spec_trim(s: Seq<char>) -> Seq<char> {
    spec_trim_back(spec_trim_front(s))
}

/// `s` with every ASCII letter folded to lower case.
pub open spec fn spec_lower(s: Seq<char>) -> Seq<char> {
    s.map_values(|c: char| lower_char(c))
}

/// The normalized form of a hostname: trimmed, then case-folded.
pub open spec fn spec_normalize(s: Seq<char>) -> Seq<char> {
    spec_lower(spec_trim(s))
}

proof fn lemma_trim_front_skip(s: Seq<char>, i: int)
    requires
        0 <= i <= s.len(),
        forall|k: int| 0 <= k < i ==> is_space_char(#[trigger] s[k]),
        i == s.len() || !is_space_char(s[i]),
    ensures
        spec_trim_front(s) == s.skip(i),
    decreases i,
{
    if i == 0 {
        assert(s.skip(0) =~= s);
    } else {
        assert(is_space_char(s.first()));
        lemma_trim_front_skip(s.drop_first(), i - 1);
        assert(s.drop_first().skip(i - 1) =~= s.skip(i));
    }
}

proof fn lemma_trim_back_take(s: Seq<char>, j: int)
    requires
        0 <= j <= s.len(),
        forall|k: int| j <= k < s.len() ==> is_space_char(#[trigger] s[k]),
        j == 0 || !is_space_char(s[j - 1]),
    ensures
        spec_trim_back(s) == s.take(j),
    decreases s.len() - j,
{
    if j == s.len() {
        if s.len() > 0 && is_space_char(s.last()) {
            assert(!is_space_char(s[j - 1]));
            assert(false);
        }
        assert(s.take(j) =~= s);
    } else {
        assert(is_space_char(s.last()));
        lemma_trim_back_take(s.drop_last(), j);
        assert(s.drop_last().take(j) =~= s.take(j));
    }
}

/// Checks one character against the whitespace set of [`is_space_char`].
fn is_space(c: char) -> (r: bool)
    ensures
        r == is_space_char(c),
{
    c == ' ' || c == '\t' || c == '\n' || c == '\r'
}

/// Folds one ASCII letter to lower case; leaves every other character alone.
fn to_lower(c: char) -> (r: char)
    ensures
        r == lower_char(c),
{
    let u = c as u32;
    if 65 <= u && u <= 90 {
        ((u + 32) as u8) as char
    } else {
        c
    }
}

/// Appends one character. Relies on `String::push`, which std documents as
/// appending the given character to the end of the string.
#[verifier::external_body]
pub(crate) fn push_char(s: &mut String, c: char)
    ensures
        final(s)@ == old(s)@.push(c),
{
    s.push(c);
}

/// The normalized form of a hostname: surrounding whitespace removed, ASCII
/// letters folded to lower case, everything else kept as it came.
pub fn normalize(s: &str) -> (r: String)
    ensures
        r@ == spec_normalize(s@),
{
    let n = s.unicode_len();

    let mut start: usize = 0;
    while start < n && is_space(s.get_char(start))
        invariant
            n == s@.len(),
            0 <= start <= n,
            forall|k: int| 0 <= k < start ==> is_space_char(#[trigger] s@[k]),
        decreases n - start,
    {
        start = start + 1;
    }

    let mut end: usize = n;
    while end > start && is_space(s.get_char(end - 1))
        invariant
            n == s@.len(),
            0 <= start <= end <= n,
            forall|k: int| 0 <= k < start ==> is_space_char(#[trigger] s@[k]),
            start == n || !is_space_char(s@[start as int]),
            forall|k: int| end <= k < n ==> is_space_char(#[trigger] s@[k]),
        decreases end,
    {
        end = end - 1;
    }

    proof {
        lemma_trim_front_skip(s@, start as int);
        if start < end {
            lemma_trim_back_take(s@.skip(start as int), end - start as int);
        } else {
            // Everything was whitespace: the trimmed-front remainder is all
            // spaces, so trimming the back leaves nothing.
            lemma_trim_back_take(s@.skip(start as int), 0);
        }
        assert(s@.skip(start as int).take(end - start as int) =~= s@.subrange(
            start as int,
            end as int,
        ));
        if start >= end {
            assert(s@.skip(start as int).take(0) =~= s@.subrange(start as int, start as int));
        }
    }

    let mut r = String::new();
    let mut k: usize = start;
    while k < end
        invariant
            n == s@.len(),
            0 <= start <= k <= end <= n,
            r@ =~= spec_lower(s@.subrange(start as int, k as int)),
        decreases end - k,
    {
        let c = to_lower(s.get_char(k));
        push_char(&mut r, c);
        proof {
            assert(s@.subrange(start as int, k + 1 as int) =~= s@.subrange(
                start as int,
                k as int,
            ).push(s@[k as int]));
            assert(spec_lower(s@.subrange(start as int, k + 1 as int)) =~= spec_lower(
                s@.subrange(start as int, k as int),
            ).push(lower_char(s@[k as int])));
        }
        k = k + 1;
    }

    proof {
        if start >= end {
            assert(r@ =~= spec_normalize(s@));
        } else {
            assert(spec_trim(s@) == s@.subrange(start as int, end as int));
        }
    }
    r
}

proof fn lemma_lower_idempotent_char(c: char)
    ensures
        lower_char(lower_char(c)) == lower_char(c),
        is_space_char(lower_char(c)) == is_space_char(c),
{
    if 'A' <= c && c <= 'Z' {
        assert(65 <= c as u32 <= 90);
    }
}

proof fn lemma_trim_of_clean(s: Seq<char>)
    requires
        s.len() == 0 || (!is_space_char(s.first()) && !is_space_char(s.last())),
    ensures
        spec_trim(s) == s,
{
    assert(spec_trim_front(s) == s);
    assert(spec_trim_back(s) == s);
}

proof fn lemma_trim_front_clean(s: Seq<char>)
    ensures
        spec_trim_front(s).len() == 0 || !is_space_char(spec_trim_front(s).first()),
    decreases s.len(),
{
    if s.len() > 0 && is_space_char(s.first()) {
        lemma_trim_front_clean(s.drop_first());
    }
}

proof fn lemma_trim_back_clean(s: Seq<char>)
    ensures
        spec_trim_back(s).len() == 0 || !is_space_char(spec_trim_back(s).last()),
        spec_trim_back(s).len() > 0 ==> spec_trim_back(s).first() == s.first(),
        spec_trim_back(s).len() <= s.len(),
    decreases s.len(),
{
    if s.len() > 0 && is_space_char(s.last()) {
        lemma_trim_back_clean(s.drop_last());
    }
}

/// The two ends of a trimmed sequence hold no whitespace.
proof fn lemma_trim_clean(s: Seq<char>)
    ensures
        spec_trim(s).len() == 0 || (!is_space_char(spec_trim(s).first()) && !is_space_char(
            spec_trim(s).last(),
        )),
{
    lemma_trim_front_clean(s);
    lemma_trim_back_clean(spec_trim_front(s));
}

/// Normalization is idempotent: normalizing a second time changes nothing.
/// This is what makes the normalized form usable as a storage key.
pub proof fn lemma_normalize_idempotent(s: Seq<char>)
    ensures
        spec_normalize(spec_normalize(s)) == spec_normalize(s),
{
    let t = spec_trim(s);
    let u = spec_normalize(s);
    lemma_trim_clean(s);
    assert forall|i: int| 0 <= i < u.len() implies is_space_char(#[trigger] u[i]) == is_space_char(
        t[i],
    ) by {
        lemma_lower_idempotent_char(t[i]);
    }
    if u.len() == 0 {
        assert(spec_trim(u) =~= u);
    } else {
        assert(!is_space_char(u.first()));
        assert(!is_space_char(u.last()));
        lemma_trim_of_clean(u);
    }
    assert(spec_lower(u) =~= u) by {
        assert forall|i: int| 0 <= i < u.len() implies #[trigger] spec_lower(u)[i] == u[i] by {
            lemma_lower_idempotent_char(t[i]);
        }
    }
}

} // verus!
