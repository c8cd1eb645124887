//! The local cache of registry manifests: file names, freshness, and when to fetch.
use std::collections::hash_map::DefaultHasher;
use std::hash::Hasher;
use vstd::prelude::*;
use vstd::std_specs::hash::DefaultHasherAdditionalSpecFns;

use crate::text::{chars_of, string_of};

verus! {

/// The writes that `str`'s `Hash` impl makes into a hasher for `s`.
pub uninterp spec fn str_hash_writes(s: Seq<char>) -> Seq<Seq<u8>>;

/// Feeds `s` to `h` through `<str as Hash>::hash`. What it writes depends on `s` alone;
/// which bytes those are is left unstated.
#[verifier::external_body]
fn hash_str(s: &str, h: &mut DefaultHasher)
    ensures
        final(h)@ == old(h)@ + str_hash_writes(s@),
{
    std::hash::Hash::hash(s, h);
}

pub open spec fn hex_char(d: nat) -> char {
    if d < 10 {
        (('0' as nat) + d) as char
    } else {
        (('a' as nat) + d - 10) as char
    }
}

/// The last `n` hexadecimal digits of `x`, lower case, zero-padded.
pub open spec fn hex_digits(x: nat, n: nat) -> Seq<char>
    decreases n,
{
    if n == 0 {
        Seq::empty()
    } else {
        hex_digits(x / 16, (n - 1) as nat).push(hex_char(x % 16))
    }
}

/// The cache file name of a URL: its `DefaultHasher` hash as 16 lower-case hex digits.
pub open spec fn key_spec(url: Seq<char>) -> Seq<char> {
    hex_digits(DefaultHasher::spec_finish(Seq::empty() + str_hash_writes(url)) as nat, 16)
}

fn hex_of(d: u64) -> (c: char)
    requires
        d < 16,
    ensures
        c == hex_char(d as nat),
{
    if d < 10 {
        let b = (d as u8) + 48;
        b as char
    } else {
        let b = (d as u8) + 87;
        b as char
    }
}

/// The cache file name of `url`.
pub fn key(url: &str) -> (res: String)
    ensures
        res@ == key_spec(url@),
{
    let mut h = DefaultHasher::new();
    hash_str(url, &mut h);
    let x = h.finish();
    // digits from the last to the first
    let mut digits: Vec<char> = Vec::new();
    let mut rest: u64 = x;
    let mut i: usize = 0;
    proof {
        lemma_hex_len(x as nat, 16);
        assert(pow16(0) == 1);
    }
    while i < 16
        invariant
            i <= 16,
            hex_digits(x as nat, 16).len() == 16,
            digits@.len() == i,
            forall|k: int|
                0 <= k < i ==> #[trigger] digits@[k] == hex_digits(x as nat, 16)[15 - k],
            rest as nat == (x as nat) / pow16(i as nat),
        decreases 16 - i,
    {
        proof {
            lemma_hex_digit_at(x as nat, i as nat);
        }
        digits.push(hex_of(rest % 16));
        proof {
            lemma_pow16_step(x as nat, i as nat);
        }
        rest = rest / 16;
        i += 1;
    }
    let mut out: Vec<char> = Vec::new();
    let mut j: usize = 16;
    while j > 0
        invariant
            j <= 16,
            hex_digits(x as nat, 16).len() == 16,
            digits@.len() == 16,
            out@.len() == 16 - j,
            forall|k: int| 0 <= k < 16 - j ==> #[trigger] out@[k] == hex_digits(x as nat, 16)[k],
            forall|k: int|
                0 <= k < 16 ==> #[trigger] digits@[k] == hex_digits(x as nat, 16)[15 - k],
        decreases j,
    {
        out.push(digits[j - 1]);
        j -= 1;
    }
    proof {
        lemma_hex_len(x as nat, 16);
        assert(out@ =~= hex_digits(x as nat, 16));
        assert(Seq::<Seq<u8>>::empty() + str_hash_writes(url@) == h@);
    }
    string_of(&out)
}

pub open spec fn pow16(n: nat) -> nat
    decreases n,
{
    if n == 0 {
        1
    } else {
        16 * pow16((n - 1) as nat)
    }
}

proof fn lemma_hex_len(x: nat, n: nat)
    ensures
        hex_digits(x, n).len() == n,
    decreases n,
{
    if n > 0 {
        lemma_hex_len(x / 16, (n - 1) as nat);
    }
}

proof fn lemma_pow16_pos(n: nat)
    ensures
        pow16(n) > 0,
    decreases n,
{
    if n > 0 {
        lemma_pow16_pos((n - 1) as nat);
    }
}

proof fn lemma_pow16_step(x: nat, i: nat)
    ensures
        x / pow16(i) / 16 == x / pow16(i + 1),
{
    lemma_pow16_pos(i);
    assert(pow16(i + 1) == 16 * pow16(i));
    vstd::arithmetic::div_mod::lemma_div_denominator(x as int, pow16(i) as int, 16);
    assert(pow16(i) * 16 == 16 * pow16(i)) by (nonlinear_arith);
}

/// Digit `15 - i` of the 16-digit writing is `x / 16^i` modulo 16.
proof fn lemma_hex_digit_at(x: nat, i: nat)
    requires
        i < 16,
    ensures
        hex_digits(x, 16)[15 - i] == hex_char((x / pow16(i)) % 16),
{
    lemma_hex_digit_general(x, 16, i);
}

proof fn lemma_hex_digit_general(x: nat, n: nat, i: nat)
    requires
        i < n,
    ensures
        hex_digits(x, n)[n - 1 - i] == hex_char((x / pow16(i)) % 16),
    decreases n,
{
    lemma_hex_len(x / 16, (n - 1) as nat);
    if i == 0 {
        assert(pow16(0) == 1);
        assert(x / pow16(0) == x);
    } else {
        lemma_hex_digit_general(x / 16, (n - 1) as nat, (i - 1) as nat);
        lemma_pow16_pos((i - 1) as nat);
        assert(pow16(i) == 16 * pow16((i - 1) as nat));
        vstd::arithmetic::div_mod::lemma_div_denominator(x as int, 16, pow16((i - 1) as nat) as int);
    }
}


/// What to do for a manifest before going to the network.
#[derive(Debug)]
pub enum CacheStep {
    /// Use this cached copy.
    Serve(String),
    /// Offline without a cached copy: fail with this message.
    Refuse(String),
    /// Fetch it from the registry.
    Fetch,
}

/// Offline, only the cache counts; online, a fresh cached copy is used and anything
/// else is fetched.
pub fn cache_step(cached: Option<String>, offline: bool, fresh: bool) -> (res: CacheStep)
    ensures
        offline ==> match cached {
            Some(t) => res matches CacheStep::Serve(u) && u == t,
            None => res matches CacheStep::Refuse(m) && m@ == "offline and no cached copy"@,
        },
        !offline ==> match cached {
            Some(t) => if fresh {
                res matches CacheStep::Serve(u) && u == t
            } else {
                res is Fetch
            },
            None => res is Fetch,
        },
{
    if offline {
        return match cached {
            Some(t) => CacheStep::Serve(t),
            None => CacheStep::Refuse(string_of(&chars_of("offline and no cached copy"))),
        };
    }
    match cached {
        Some(t) => if fresh {
            CacheStep::Serve(t)
        } else {
            CacheStep::Fetch
        },
        None => CacheStep::Fetch,
    }
}

/// After a fetch: a fetched body is used and stored; on failure, a cached copy, stale or
/// not, is better than the error.
pub fn after_fetch(fetched: Result<String, String>, cached: Option<String>) -> (res: (
    Result<String, String>,
    bool,
))
    ensures
        match fetched {
            Ok(t) => res.0 == Ok::<String, String>(t) && res.1,
            Err(e) => !res.1 && match cached {
                Some(c) => res.0 == Ok::<String, String>(c),
                None => res.0 == Err::<String, String>(e),
            },
        },
{
    match fetched {
        Ok(t) => (Ok(t), true),
        Err(e) => match cached {
            Some(c) => (Ok(c), false),
            None => (Err(e), false),
        },
    }
}

/// How long a cached manifest stays fresh, in seconds.
pub const TTL_SECS: u64 = 3600;

/// Whether a cached file of this age, in seconds and nanoseconds, is still fresh: at most
/// an hour old.
pub fn within_ttl(age_secs: u64, age_nanos: u32) -> (res: bool)
    ensures
        res == (age_secs < 3600 || (age_secs == 3600 && age_nanos == 0)),
{
    age_secs < TTL_SECS || (age_secs == TTL_SECS && age_nanos == 0)
}

pub open spec fn opt_text(s: Option<String>) -> Option<Seq<char>> {
    match s {
        Some(t) => Some(t@),
        None => None,
    }
}

/// Where the cache lives, as path components: `$ESMERIL_CACHE`, else (on Windows)
/// `%LOCALAPPDATA%/esmeril/cache`, else `$XDG_CACHE_HOME/esmeril`, else
/// `$HOME/.cache/esmeril`, else the current directory.
pub open spec fn cache_dir_spec(
    esmeril: Option<Seq<char>>,
    local_app_data: Option<Seq<char>>,
    xdg: Option<Seq<char>>,
    home: Option<Seq<char>>,
) -> Seq<Seq<char>> {
    match esmeril {
        Some(d) => seq![d],
        None => match local_app_data {
            Some(l) => seq![l, "esmeril"@, "cache"@],
            None => match xdg {
                Some(x) => seq![x, "esmeril"@],
                None => match home {
                    Some(h) => seq![h, ".cache"@, "esmeril"@],
                    None => seq!["."@],
                },
            },
        },
    }
}

fn text(s: &str) -> (res: String)
    ensures
        res@ == s@,
{
    string_of(&chars_of(s))
}

/// The cache directory as path components, from the environment variables that were set;
/// `local_app_data` counts only on Windows.
pub fn cache_dir_parts(
    esmeril: Option<String>,
    local_app_data: Option<String>,
    xdg: Option<String>,
    home: Option<String>,
) -> (res: Vec<String>)
    ensures
        res@.map_values(|s: String| s@) == cache_dir_spec(
            opt_text(esmeril),
            opt_text(local_app_data),
            opt_text(xdg),
            opt_text(home),
        ),
{
    let mut out: Vec<String> = Vec::new();
    match esmeril {
        Some(d) => {
            out.push(d);
        },
        None => match local_app_data {
            Some(l) => {
                out.push(l);
                out.push(text("esmeril"));
                out.push(text("cache"));
            },
            None => match xdg {
                Some(x) => {
                    out.push(x);
                    out.push(text("esmeril"));
                },
                None => match home {
                    Some(h) => {
                        out.push(h);
                        out.push(text(".cache"));
                        out.push(text("esmeril"));
                    },
                    None => {
                        out.push(text("."));
                    },
                },
            },
        },
    }
    assert(out@.map_values(|s: String| s@) =~= cache_dir_spec(
        opt_text(esmeril),
        opt_text(local_app_data),
        opt_text(xdg),
        opt_text(home),
    ));
    out
}

} // verus!
