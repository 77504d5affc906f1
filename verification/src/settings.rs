//! Interpretation of the daemon's configuration values.
//!
//! The configuration file is a sectioned key/value text read by the
//! surrounding process; the raw option strings it found (or did not find)
//! are handed in here and turned into typed settings.

use vstd::prelude::*;
use vstd::string::StringExecFns;

verus! {

/// Which upstream provider answers the daemon's queries.
#[derive(Clone, Copy, Debug, PartialEq, Eq, Structural)]
pub enum Provider {
    Google,
    Cloudflare,
}

/// How long a cached answer lives: the upstream reply's own TTL, or a fixed
/// number of seconds.
#[derive(Clone, Copy, Debug, PartialEq, Eq, Structural)]
pub enum TTlConfig {
    Default,
    Custom(u64),
}

/// Where the database file lives.
#[derive(Debug)]
pub struct SQLiteSettings {
    pub connection_str: String,
}

impl SQLiteSettings {
    pub fn connection_str(&self) -> (r: &str)
        ensures
            r@ == self.connection_str@,
    {
        self.connection_str.as_str()
    }
}

impl Clone for SQLiteSettings {
    fn clone(&self) -> (r: Self)
        ensures
            r.connection_str@ == self.connection_str@,
    {
        SQLiteSettings { connection_str: self.connection_str.clone() }
    }
}

/// The daemon's settings: the provider, the cache TTL policy, and the
/// database location.
#[derive(Debug)]
pub struct ApplicationSettings {
    pub provider: Provider,
    pub ttl: TTlConfig,
    pub sqlite: SQLiteSettings,
}

/// Mathematical image of [`ApplicationSettings`].
pub struct SettingsView {
    pub provider: Provider,
    pub ttl: TTlConfig,
    pub connection: Seq<char>,
}

impl View for ApplicationSettings {
    type V = SettingsView;

    open spec fn view(&self) -> SettingsView {
        SettingsView {
            provider: self.provider,
            ttl: self.ttl,
            connection: self.sqlite.connection_str@,
        }
    }
}

impl ApplicationSettings {
    pub fn provider(&self) -> (r: &Provider)
        ensures
            *r == self.provider,
    {
        &self.provider
    }

    pub fn ttl(&self) -> (r: &TTlConfig)
        ensures
            *r == self.ttl,
    {
        &self.ttl
    }

    pub fn sqlite(&self) -> (r: &SQLiteSettings)
        ensures
            r.connection_str@ == self.sqlite.connection_str@,
    {
        &self.sqlite
    }

    /// Builds the settings from the raw option strings of the configuration
    /// file, applying the documented defaults.
    pub fn from_options(
        provider: Option<String>,
        ttl: Option<String>,
        connection: Option<String>,
    ) -> (r: ApplicationSettings)
        ensures
            r.provider == spec_provider_option(match provider {
                Some(ref s) => Some(s@),
                None => None,
            }),
            r.ttl == spec_ttl_option(match ttl {
                Some(ref s) => Some(s@),
                None => None,
            }),
            r.sqlite.connection_str@ == (match connection {
                Some(ref s) => s@,
                None => "doh.db"@,
            }),
    {
        let p = match provider {
            Some(s) => {
                if s == String::from_str("cloudflare") {
                    Provider::Cloudflare
                } else {
                    Provider::Google
                }
            },
            None => Provider::Google,
        };
        let t = match ttl {
            Some(s) => {
                if s == String::from_str("default") {
                    TTlConfig::Default
                } else {
                    match parse_u64(s.as_str()) {
                        Some(v) => TTlConfig::Custom(v),
                        None => TTlConfig::Custom(60),
                    }
                }
            },
            None => TTlConfig::Default,
        };
        let c = match connection {
            Some(s) => s,
            None => String::from_str("doh.db"),
        };
        ApplicationSettings { provider: p, ttl: t, sqlite: SQLiteSettings { connection_str: c } }
    }
}

impl Clone for ApplicationSettings {
    fn clone(&self) -> (r: Self)
        ensures
            r.provider == self.provider,
            r.ttl == self.ttl,
            r.sqlite.connection_str@ == self.sqlite.connection_str@,
    {
        ApplicationSettings { provider: self.provider, ttl: self.ttl, sqlite: self.sqlite.clone() }
    }
}

/// The provider a raw option string selects: exactly "cloudflare" picks
/// Cloudflare, anything else (a missing option included) picks Google.
pub open spec fn spec_provider_option(s: Option<Seq<char>>) -> Provider {
    match s {
        Some(t) => if t == "cloudflare"@ {
            Provider::Cloudflare
        } else {
            Provider::Google
        },
        None => Provider::Google,
    }
}

/// The TTL policy a raw option string selects: a missing option or
/// "default" keeps the upstream TTL; any other string is read as a decimal
/// number of seconds, with 60 standing in when it does not parse.
pub open spec fn spec_ttl_option(s: Option<Seq<char>>) -> TTlConfig {
    match s {
        Some(t) => if t == "default"@ {
            TTlConfig::Default
        } else {
            match spec_parse_u64(t) {
                Some(v) => TTlConfig::Custom(v),
                None => TTlConfig::Custom(60),
            }
        },
        None => TTlConfig::Default,
    }
}

/// A decimal digit.
pub open spec fn is_digit(c: char) -> bool {
    '0' <= c && c <= '9'
}

/// The numeric value of a digit string, most significant digit first.
pub open spec fn spec_dec_value(s: Seq<char>) -> int
    decreases s.len(),
{
    if s.len() == 0 {
        0
    } else {
        spec_dec_value(s.drop_last()) * 10 + (s.last() as u32 - 48)
    }
}

/// The number a string denotes: defined exactly when the string is a
/// non-empty run of decimal digits whose value fits in a `u64`.
pub open spec fn spec_parse_u64(s: Seq<char>) -> Option<u64> {
    if s.len() > 0 && (forall|i: int| 0 <= i < s.len() ==> is_digit(#[trigger] s[i]))
        && spec_dec_value(s) <= u64::MAX {
        Some(spec_dec_value(s) as u64)
    } else {
        None
    }
}

proof fn lemma_dec_value_nonneg(s: Seq<char>)
    requires
        forall|i: int| 0 <= i < s.len() ==> is_digit(#[trigger] s[i]),
    ensures
        spec_dec_value(s) >= 0,
    decreases s.len(),
{
    if s.len() > 0 {
        lemma_dec_value_nonneg(s.drop_last());
    }
}

/// Bounds on the value of a short digit string.
pub proof fn lemma_dec_value_bound(s: Seq<char>)
    requires
        forall|i: int| 0 <= i < s.len() ==> is_digit(#[trigger] s[i]),
    ensures
        0 <= spec_dec_value(s),
        s.len() <= 1 ==> spec_dec_value(s) < 10,
        s.len() <= 2 ==> spec_dec_value(s) < 100,
        s.len() <= 3 ==> spec_dec_value(s) < 1000,
    decreases s.len(),
{
    if s.len() > 0 {
        lemma_dec_value_bound(s.drop_last());
    }
}

pub proof fn lemma_dec_value_monotone(s: Seq<char>, i: int)
    requires
        forall|k: int| 0 <= k < s.len() ==> is_digit(#[trigger] s[k]),
        0 <= i <= s.len(),
    ensures
        spec_dec_value(s) >= spec_dec_value(s.take(i)),
    decreases s.len() - i,
{
    if i == s.len() {
        assert(s.take(i) =~= s);
    } else {
        lemma_dec_value_monotone(s, i + 1);
        let t = s.take(i + 1);
        assert(t.drop_last() =~= s.take(i));
        assert(t.last() == s[i]);
        lemma_dec_value_nonneg(s.take(i));
        assert(spec_dec_value(t) == spec_dec_value(s.take(i)) * 10 + (s[i] as u32 - 48));
        assert(spec_dec_value(t) >= spec_dec_value(s.take(i)));
    }
}

/// Reads a string as a decimal `u64`. Returns nothing when the string is
/// empty, holds a non-digit, or denotes a value that does not fit.
pub fn parse_u64(s: &str) -> (r: Option<u64>)
    ensures
        r == spec_parse_u64(s@),
{
    let n = s.unicode_len();
    if n == 0 {
        return None;
    }
    let mut acc: u64 = 0;
    let mut i: usize = 0;
    while i < n
        invariant
            n == s@.len(),
            0 <= i <= n,
            forall|k: int| 0 <= k < i ==> is_digit(#[trigger] s@[k]),
            acc == spec_dec_value(s@.take(i as int)),
        decreases n - i,
    {
        let c = s.get_char(i);
        let u = c as u32;
        if u < 48 || u > 57 {
            // A non-digit anywhere means the whole string denotes nothing.
            assert(!is_digit(s@[i as int]));
            return None;
        }
        let d = (u - 48) as u64;
        proof {
            assert(s@.take(i + 1).drop_last() =~= s@.take(i as int));
            assert(s@.take(i + 1).last() == s@[i as int]);
        }
        let next = match acc.checked_mul(10) {
            Some(m) => m.checked_add(d),
            None => None,
        };
        match next {
            Some(v) => {
                acc = v;
            },
            None => {
                // The prefix already exceeds u64::MAX, and appending digits
                // never shrinks the value; if a non-digit follows instead,
                // the string denotes nothing anyway.
                proof {
                    if forall|k: int| 0 <= k < s@.len() ==> is_digit(#[trigger] s@[k]) {
                        lemma_dec_value_monotone(s@, i + 1);
                    }
                }
                return None;
            },
        }
        i = i + 1;
    }
    proof {
        assert(s@.take(n as int) =~= s@);
    }
    Some(acc)
}

} // verus!
