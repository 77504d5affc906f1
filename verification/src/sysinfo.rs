//! The process-name rule of the audit path.
//!
//! The OS process table offers two files per process: one holds the bare
//! process name, the other the NUL-separated command line. The surrounding
//! process reads whichever of the two exists and hands the raw bytes in;
//! the rule below decides what the process's name is. PID 0 never names a
//! process.

use vstd::prelude::*;

verus! {

/// ASCII whitespace, as trimmed from the process-name file.
pub open spec fn is_space_byte(b: u8) -> bool {
    b == 32 || b == 9 || b == 10 || b == 13
}

/// The longest suffix of `s` whose first byte is not whitespace.
pub open spec fn spec_trim_bytes_front(s: Seq<u8>) -> Seq<u8>
    decreases s.len(),
{
    if s.len() > 0 && is_space_byte(s.first()) {
        spec_trim_bytes_front(s.drop_first())
    } else {
        s
    }
}

/// The longest prefix of `s` whose last byte is not whitespace.
pub open spec fn spec_trim_bytes_back(s: Seq<u8>) -> Seq<u8>
    decreases s.len(),
{
    if s.len() > 0 && is_space_byte(s.last()) {
        spec_trim_bytes_back(s.drop_last())
    } else {
        s
    }
}

/// `s` with surrounding whitespace removed.
pub open spec fn spec_trim_bytes(s: Seq<u8>) -> Seq<u8> {
    spec_trim_bytes_back(spec_trim_bytes_front(s))
}

/// Position of the first NUL byte, or -1 when there is none.
pub open spec fn find_nul(s: Seq<u8>) -> int
    decreases s.len(),
{
    if s.len() == 0 {
        -1
    } else if s.first() == 0 {
        0
    } else {
        let r = find_nul(s.drop_first());
        if r < 0 {
            -1
        } else {
            r + 1
        }
    }
}

/// The first NUL-terminated segment of a command line (the whole line
/// when no NUL occurs).
pub open spec fn spec_first_segment(s: Seq<u8>) -> Seq<u8> {
    if find_nul(s) < 0 {
        s
    } else {
        s.take(find_nul(s))
    }
}

/// What a process is called, given the two process-table files: nothing
/// for PID 0; else the trimmed name file when that is non-empty; else the
/// command line's first NUL-terminated segment when that is non-empty;
/// else nothing.
pub open spec fn spec_process_name(pid: u32, comm: Option<Seq<u8>>, cmdline: Option<Seq<u8>>)
    -> Option<Seq<u8>> {
    if pid == 0 {
        None
    } else {
        let from_comm = match comm {
            Some(c) => if spec_trim_bytes(c).len() > 0 {
                Some(spec_trim_bytes(c))
            } else {
                None
            },
            None => None,
        };
        match from_comm {
            Some(n) => Some(n),
            None => match cmdline {
                Some(d) => if spec_first_segment(d).len() > 0 {
                    Some(spec_first_segment(d))
                } else {
                    None
                },
                None => None,
            },
        }
    }
}

proof fn lemma_trim_bytes_front_skip(s: Seq<u8>, i: int)
    requires
        0 <= i <= s.len(),
        forall|k: int| 0 <= k < i ==> is_space_byte(#[trigger] s[k]),
        i == s.len() || !is_space_byte(s[i]),
    ensures
        spec_trim_bytes_front(s) == s.skip(i),
    decreases i,
{
    if i == 0 {
        assert(s.skip(0) =~= s);
    } else {
        lemma_trim_bytes_front_skip(s.drop_first(), i - 1);
        assert(s.drop_first().skip(i - 1) =~= s.skip(i));
    }
}

proof fn lemma_trim_bytes_back_take(s: Seq<u8>, j: int)
    requires
        0 <= j <= s.len(),
        forall|k: int| j <= k < s.len() ==> is_space_byte(#[trigger] s[k]),
        j == 0 || !is_space_byte(s[j - 1]),
    ensures
        spec_trim_bytes_back(s) == s.take(j),
    decreases s.len() - j,
{
    if j == s.len() {
        assert(s.take(j) =~= s);
    } else {
        lemma_trim_bytes_back_take(s.drop_last(), j);
        assert(s.drop_last().take(j) =~= s.take(j));
    }
}

/// Trims ASCII whitespace from both ends.
fn trim_bytes(s: &Vec<u8>) -> (r: Vec<u8>)
    ensures
        r@ == spec_trim_bytes(s@),
{
    let n = s.len();
    let mut start: usize = 0;
    while start < n && (s[start] == 32 || s[start] == 9 || s[start] == 10 || s[start] == 13)
        invariant
            n == s@.len(),
            0 <= start <= n,
            forall|k: int| 0 <= k < start ==> is_space_byte(#[trigger] s@[k]),
        decreases n - start,
    {
        start = start + 1;
    }
    let mut end: usize = n;
    while end > start && (s[end - 1] == 32 || s[end - 1] == 9 || s[end - 1] == 10 || s[end - 1]
        == 13)
        invariant
            n == s@.len(),
            0 <= start <= end <= n,
            forall|k: int| 0 <= k < start ==> is_space_byte(#[trigger] s@[k]),
            start == n || !is_space_byte(s@[start as int]),
            forall|k: int| end <= k < n ==> is_space_byte(#[trigger] s@[k]),
        decreases end,
    {
        end = end - 1;
    }
    proof {
        lemma_trim_bytes_front_skip(s@, start as int);
        if start < end {
            lemma_trim_bytes_back_take(s@.skip(start as int), end - start as int);
        } else {
            lemma_trim_bytes_back_take(s@.skip(start as int), 0);
        }
        assert(s@.skip(start as int).take(end - start as int) =~= s@.subrange(
            start as int,
            end as int,
        ));
        if start >= end {
            assert(s@.skip(start as int).take(0) =~= s@.subrange(start as int, start as int));
        }
    }
    let mut r: Vec<u8> = Vec::new();
    let mut k: usize = start;
    while k < end
        invariant
            n == s@.len(),
            0 <= start <= k <= end <= n,
            r@ =~= s@.subrange(start as int, k as int),
        decreases end - k,
    {
        r.push(s[k]);
        proof {
            assert(s@.subrange(start as int, k + 1 as int) =~= s@.subrange(
                start as int,
                k as int,
            ).push(s@[k as int]));
        }
        k = k + 1;
    }
    r
}

proof fn lemma_find_nul_at(s: Seq<u8>, j: int)
    requires
        0 <= j < s.len(),
        forall|k: int| 0 <= k < j ==> #[trigger] s[k] != 0,
        s[j] == 0,
    ensures
        find_nul(s) == j,
    decreases j,
{
    if j > 0 {
        assert(forall|k: int| 0 <= k < s.drop_first().len() ==> s.drop_first()[k] == s[k + 1]);
        lemma_find_nul_at(s.drop_first(), j - 1);
    }
}

proof fn lemma_find_nul_none(s: Seq<u8>)
    requires
        forall|k: int| 0 <= k < s.len() ==> #[trigger] s[k] != 0,
    ensures
        find_nul(s) == -1,
    decreases s.len(),
{
    if s.len() > 0 {
        assert(forall|k: int| 0 <= k < s.drop_first().len() ==> s.drop_first()[k] == s[k + 1]);
        lemma_find_nul_none(s.drop_first());
    }
}

/// The first NUL-terminated segment of a command line.
fn first_segment(s: &Vec<u8>) -> (r: Vec<u8>)
    ensures
        r@ == spec_first_segment(s@),
{
    let n = s.len();
    let mut i: usize = 0;
    while i < n && s[i] != 0
        invariant
            n == s@.len(),
            0 <= i <= n,
            forall|k: int| 0 <= k < i ==> #[trigger] s@[k] != 0,
        decreases n - i,
    {
        i = i + 1;
    }
    proof {
        if i < n {
            lemma_find_nul_at(s@, i as int);
        } else {
            lemma_find_nul_none(s@);
        }
    }
    let mut r: Vec<u8> = Vec::new();
    let mut k: usize = 0;
    while k < i
        invariant
            0 <= k <= i <= s@.len(),
            r@ =~= s@.take(i as int).take(k as int),
        decreases i - k,
    {
        r.push(s[k]);
        proof {
            assert(s@.take(i as int).take(k + 1 as int) =~= s@.take(i as int).take(
                k as int,
            ).push(s@[k as int]));
        }
        k = k + 1;
    }
    proof {
        assert(s@.take(i as int).take(i as int) =~= s@.take(i as int));
        if i == n {
            assert(s@.take(i as int) =~= s@);
        }
    }
    r
}

/// The process's name, per [`spec_process_name`]: the trimmed name file
/// when it has content, else the command line's first segment, else
/// nothing; PID 0 is invalid.
pub fn get_process_name(pid: u32, comm: Option<Vec<u8>>, cmdline: Option<Vec<u8>>) -> (r: Option<
    Vec<u8>,
>)
    ensures
        match r {
            Some(name) => spec_process_name(
                pid,
                match comm {
                    Some(ref c) => Some(c@),
                    None => None,
                },
                match cmdline {
                    Some(ref d) => Some(d@),
                    None => None,
                },
            ) == Some(name@),
            None => spec_process_name(
                pid,
                match comm {
                    Some(ref c) => Some(c@),
                    None => None,
                },
                match cmdline {
                    Some(ref d) => Some(d@),
                    None => None,
                },
            ) is None,
        },
{
    if pid == 0 {
        return None;
    }
    match comm {
        Some(c) => {
            let t = trim_bytes(&c);
            if t.len() > 0 {
                return Some(t);
            }
        },
        None => {},
    }
    match cmdline {
        Some(d) => {
            let seg = first_segment(&d);
            if seg.len() > 0 {
                return Some(seg);
            }
            None
        },
        None => None,
    }
}

} // verus!
