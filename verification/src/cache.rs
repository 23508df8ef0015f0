//! Cache-Control header parsing, cache entries, and cache key derivation.

use vstd::prelude::*;

use crate::text::{
    canon, dec_str, is_digit, is_space, lemma_dec_str_val, lemma_find_is, lemma_lower_skip,
    lemma_parse_ignores_case, lower, parse_uint_region, parses_as_uint, region_eq_lower,
    region_starts_lower, split_on, to_lower, trim, trim_region, uint_val,
    unsigned_body, upper, upper_string,
};
use sha2::{Digest, Sha256};
use std::time::{SystemTime, UNIX_EPOCH};
use vstd::string::{StrSliceExecFns, StringExecFns};

verus! {

/// Parsed Cache-Control header directives.
#[derive(Debug, Clone, Copy)]
pub struct CacheControlDirectives {
    /// Don't cache at all.
    pub no_store: bool,
    /// Revalidate before serving.
    pub no_cache: bool,
    /// Only cache for the authenticated user.
    pub private: bool,
    /// Maximum age in seconds.
    pub max_age: Option<u64>,
    /// Serve stale while revalidating.
    pub stale_while_revalidate: Option<u64>,
}

/// The directive set with nothing set: what an absent header parses to.
pub open spec fn empty_directives() -> CacheControlDirectives {
    CacheControlDirectives {
        no_store: false,
        no_cache: false,
        private: false,
        max_age: None,
        stale_while_revalidate: None,
    }
}

impl Default for CacheControlDirectives {
    /// The empty directive set.
    fn default() -> (d: Self)
        ensures
            d == empty_directives(),
    {
        CacheControlDirectives {
            no_store: false,
            no_cache: false,
            private: false,
            max_age: None,
            stale_while_revalidate: None,
        }
    }
}

/// The effect of one comma-separated header token on the directive set:
/// the token is trimmed and lowercased, literal tokens set their flag,
/// `key=value` tokens with a well-formed decimal value set their field,
/// and anything else (unknown tokens, unparseable values) is ignored.
pub open spec fn apply_token(d: CacheControlDirectives, raw: Seq<char>) -> CacheControlDirectives {
    let t = canon(raw);
    if t == "no-store"@ {
        CacheControlDirectives { no_store: true, ..d }
    } else if t == "no-cache"@ {
        CacheControlDirectives { no_cache: true, ..d }
    } else if t == "private"@ {
        CacheControlDirectives { private: true, ..d }
    } else if t.len() >= "max-age="@.len() && t.take("max-age="@.len() as int) == "max-age="@
        && parses_as_uint(t.skip("max-age="@.len() as int), u64::MAX as int) {
        CacheControlDirectives {
            max_age: Some(uint_val(t.skip("max-age="@.len() as int)) as u64),
            ..d
        }
    } else if t.len() >= "stale-while-revalidate="@.len() && t.take(
        "stale-while-revalidate="@.len() as int,
    ) == "stale-while-revalidate="@ && parses_as_uint(
        t.skip("stale-while-revalidate="@.len() as int),
        u64::MAX as int,
    ) {
        CacheControlDirectives {
            stale_while_revalidate: Some(
                uint_val(t.skip("stale-while-revalidate="@.len() as int)) as u64,
            ),
            ..d
        }
    } else {
        d
    }
}

/// The directive set after applying each token in order.
pub open spec fn directives_after(
    d: CacheControlDirectives,
    tokens: Seq<Seq<char>>,
) -> CacheControlDirectives
    decreases tokens.len(),
{
    if tokens.len() == 0 {
        d
    } else {
        directives_after(apply_token(d, tokens[0]), tokens.drop_first())
    }
}

/// What a Cache-Control header denotes: the empty set for an absent
/// header, otherwise the effect of its comma-separated tokens in order.
pub open spec fn spec_parse_cache_control(header: Seq<char>) -> CacheControlDirectives {
    directives_after(empty_directives(), split_on(header, ','))
}

proof fn lemma_directives_after_step(
    d: CacheControlDirectives,
    head: Seq<char>,
    tail: Seq<Seq<char>>,
)
    ensures
        directives_after(d, seq![head] + tail) == directives_after(apply_token(d, head), tail),
{
    let ts = seq![head] + tail;
    assert(ts[0] == head);
    assert(ts.drop_first() =~= tail);
}

/// Apply the token in the region `[lo, hi)` of `s` to the directive set.
fn apply_token_region(
    d: CacheControlDirectives,
    s: &str,
    lo: usize,
    hi: usize,
) -> (r: CacheControlDirectives)
    requires
        lo <= hi <= s@.len(),
    ensures
        r == apply_token(d, s@.subrange(lo as int, hi as int)),
{
    let ghost raw = s@.subrange(lo as int, hi as int);
    let (a, b) = trim_region(s, lo, hi);
    let ghost t = canon(raw);
    proof {
        assert(t == lower(s@.subrange(a as int, b as int)));
    }
    if region_eq_lower(s, a, b, "no-store") {
        CacheControlDirectives { no_store: true, ..d }
    } else if region_eq_lower(s, a, b, "no-cache") {
        CacheControlDirectives { no_cache: true, ..d }
    } else if region_eq_lower(s, a, b, "private") {
        CacheControlDirectives { private: true, ..d }
    } else if region_starts_lower(s, a, b, "max-age=") {
        proof {
            reveal_strlit("max-age=");
        }
        let v = parse_uint_region(s, a + 8, b, u64::MAX);
        proof {
            let inner = s@.subrange(a as int, b as int);
            assert(inner.skip(8) =~= s@.subrange(a + 8, b as int));
            lemma_lower_skip(inner, 8);
            lemma_parse_ignores_case(s@.subrange(a + 8, b as int), u64::MAX as int);
            if v is None {
                // the token starts with `max-age=`, so it is not one of the
                // other directives: `stale-while-revalidate=` starts otherwise
                reveal_strlit("stale-while-revalidate=");
                assert(t.take(8)[0] == t[0]);
                assert(t[0] == 'm');
                if t.len() >= "stale-while-revalidate="@.len() && t.take(
                    "stale-while-revalidate="@.len() as int,
                ) == "stale-while-revalidate="@ {
                    assert(t.take(23)[0] == t[0]);
                    assert(false);
                }
            }
        }
        match v {
            Some(age) => CacheControlDirectives { max_age: Some(age), ..d },
            None => d,
        }
    } else if region_starts_lower(s, a, b, "stale-while-revalidate=") {
        proof {
            reveal_strlit("stale-while-revalidate=");
        }
        let v = parse_uint_region(s, a + 23, b, u64::MAX);
        proof {
            let inner = s@.subrange(a as int, b as int);
            assert(inner.skip(23) =~= s@.subrange(a + 23, b as int));
            lemma_lower_skip(inner, 23);
            lemma_parse_ignores_case(s@.subrange(a + 23, b as int), u64::MAX as int);
        }
        match v {
            Some(swr) => CacheControlDirectives { stale_while_revalidate: Some(swr), ..d },
            None => d,
        }
    } else {
        d
    }
}

/// Parse a Cache-Control header into directives.
///
/// Parsing is total: the header is split on commas, each token is trimmed
/// and matched case-insensitively, and unknown tokens or unparseable
/// values are silently ignored.
pub fn parse_cache_control(header: Option<&str>) -> (d: CacheControlDirectives)
    ensures
        header is None ==> d == empty_directives(),
        header matches Some(h) ==> d == spec_parse_cache_control(h@),
{
    let s = match header {
        Some(h) => h,
        None => {
            return CacheControlDirectives::default();
        },
    };
    let n = s.unicode_len();
    let mut d = CacheControlDirectives::default();
    let mut pos: usize = 0;
    proof {
        assert(s@.skip(0) =~= s@);
    }
    loop
        invariant
            header == Some(s),
            n == s@.len(),
            pos <= n,
            directives_after(d, split_on(s@.skip(pos as int), ',')) == spec_parse_cache_control(
                s@,
            ),
        decreases n - pos,
    {
        let mut j = pos;
        while j < n && s.get_char(j) != ','
            invariant
                pos <= j <= n,
                n == s@.len(),
                forall|k: int| pos <= k < j ==> s@[k] != ',',
            decreases n - j,
        {
            j = j + 1;
        }
        let ghost rest = s@.skip(pos as int);
        proof {
            assert forall|k: int| 0 <= k < j - pos implies rest[k] != ',' by {
                assert(rest[k] == s@[pos + k]);
            }
            if j < n {
                assert(rest[j - pos] == s@[j as int]);
            }
            lemma_find_is(rest, ',', j - pos);
            assert(rest.take(j - pos) =~= s@.subrange(pos as int, j as int));
        }
        let ghost d0 = d;
        d = apply_token_region(d, s, pos, j);
        if j == n {
            proof {
                assert(split_on(rest, ',') == seq![rest]);
                assert(rest =~= s@.subrange(pos as int, j as int));
                assert(seq![rest].drop_first() =~= Seq::<Seq<char>>::empty());
                assert(directives_after(apply_token(d0, rest), Seq::<Seq<char>>::empty())
                    == apply_token(d0, rest));
            }
            return d;
        }
        proof {
            assert(split_on(rest, ',') == seq![rest.take(j - pos)] + split_on(
                rest.skip(j - pos + 1),
                ',',
            ));
            assert(rest.skip(j - pos + 1) =~= s@.skip(j + 1));
            lemma_directives_after_step(
                d0,
                rest.take(j - pos),
                split_on(rest.skip(j - pos + 1), ','),
            );
        }
        pos = j + 1;
    }
}

/// A header consisting of exactly `max-age=N` parses to the directive set
/// that is empty but for `max_age = N`. Together with the contract of
/// `create_cache_entry_at`, an entry created from such a header at time
/// `now` expires exactly at `now + N`.
pub proof fn lemma_max_age_only_header(n: u64)
    ensures
        spec_parse_cache_control("max-age="@ + dec_str(n as int)) == (CacheControlDirectives {
            no_store: false,
            no_cache: false,
            private: false,
            max_age: Some(n),
            stale_while_revalidate: None,
        }),
{
    reveal_strlit("max-age=");
    reveal_strlit("no-store");
    reveal_strlit("no-cache");
    reveal_strlit("private");
    lemma_dec_str_val(n as int);
    let p = "max-age="@;
    let d = dec_str(n as int);
    let h = p + d;
    assert forall|i: int| 0 <= i < h.len() implies h[i] != ',' by {
        if i < 8 {
            assert(h[i] == p[i]);
        } else {
            assert(h[i] == d[i - 8]);
            assert(is_digit(d[i - 8]));
        }
    }
    lemma_find_is(h, ',', h.len() as int);
    assert(split_on(h, ',') == seq![h]);
    let e0 = empty_directives();
    assert(seq![h][0] == h);
    assert(seq![h].drop_first() =~= Seq::<Seq<char>>::empty());
    assert(directives_after(e0, seq![h]) == directives_after(
        apply_token(e0, h),
        Seq::<Seq<char>>::empty(),
    ));
    assert(directives_after(apply_token(e0, h), Seq::<Seq<char>>::empty()) == apply_token(e0, h));
    // the token is already trimmed and lowercase
    assert(h[0] == 'm');
    assert(is_digit(h[h.len() - 1]));
    assert(!is_space(h[0]));
    assert(!is_space(h[h.len() - 1]));
    assert(trim(h) == h);
    assert(lower(h) =~= h) by {
        assert forall|i: int| 0 <= i < h.len() implies to_lower(#[trigger] h[i]) == h[i] by {
            if i < 8 {
                assert(h[i] == p[i]);
            } else {
                assert(h[i] == d[i - 8]);
                assert(is_digit(d[i - 8]));
            }
        }
    }
    let t = canon(h);
    assert(t == h);
    // it is none of the literal directives
    if t == "no-store"@ {
        assert(h[0] == 'n');
        assert(false);
    }
    if t == "no-cache"@ {
        assert(h[0] == 'n');
        assert(false);
    }
    if t == "private"@ {
        assert(h[0] == 'p');
        assert(false);
    }
    // it is `max-age=` followed by the digits of n
    assert(h.len() >= 8);
    assert(h.take(8) =~= p);
    assert(h.skip(8) =~= d);
    assert(d[0] != '+') by {
        assert(is_digit(d[0]));
    }
    assert(unsigned_body(d) == d);
    assert(parses_as_uint(d, u64::MAX as int));
    assert(uint_val(d) == n as int);
}

/// For a header of exactly `max-age=N`, received at a time where
/// `now + N` is representable: the directives parse to `max-age = N`
/// alone, and the expiry of an entry made then is exactly `now + N`.
/// Together with the contract of `create_cache_entry_at`, the entry
/// created from such a header is `Some`, carries the value, and expires
/// at `now + N`.
pub proof fn lemma_max_age_entry_expires_on_time(n: u64, now: u64)
    requires
        now + n <= u64::MAX,
    ensures
        ({
            let d = spec_parse_cache_control("max-age="@ + dec_str(n as int));
            &&& !d.no_store
            &&& d.max_age == Some(n)
            &&& spec_expiry(now, n) == now + n
        }),
{
    lemma_max_age_only_header(n);
}

/// A cached entry: the response payload as serialized text, the absolute
/// expiry time, and the directives it was stored under. Entries are
/// immutable once created; a re-insertion replaces them wholesale.
#[derive(Debug)]
pub struct CacheEntry {
    /// The cached value, as the serialized response body.
    pub value: String,
    /// Unix timestamp (seconds) when the entry expires.
    pub expires_at: u64,
    /// Parsed Cache-Control directives.
    pub cache_control: CacheControlDirectives,
}

impl Clone for CacheEntry {
    /// An equal copy of the entry.
    fn clone(&self) -> (r: Self)
        ensures
            r == *self,
    {
        CacheEntry {
            value: self.value.clone(),
            expires_at: self.expires_at,
            cache_control: self.cache_control,
        }
    }
}

/// Whether the entry is fresh at `now`: not yet past its expiry.
pub open spec fn entry_fresh(e: CacheEntry, now: u64) -> bool {
    now <= e.expires_at
}

/// Whether the entry may be served at `now`: fresh, or expired but still
/// inside its stale-while-revalidate window.
pub open spec fn entry_usable(e: CacheEntry, now: u64) -> bool {
    entry_fresh(e, now) || (e.cache_control.stale_while_revalidate matches Some(swr) && now
        < e.expires_at + swr)
}

/// Whether the entry may be served at `now`, as `entry_usable` says.
pub fn is_entry_usable(e: &CacheEntry, now: u64) -> (b: bool)
    ensures
        b == entry_usable(*e, now),
{
    if now <= e.expires_at {
        true
    } else {
        match e.cache_control.stale_while_revalidate {
            Some(swr) => now - e.expires_at < swr,
            None => false,
        }
    }
}

/// Stale-while-revalidate: an entry past its expiry is still served
/// exactly while `now` lies inside its stale window, and is a miss from
/// the end of the window on. Looking it up does not remove it: deletion
/// of a fully stale entry is the caller's.
pub proof fn lemma_stale_window(e: CacheEntry, now: u64)
    requires
        e.cache_control.stale_while_revalidate is Some,
        now > e.expires_at,
    ensures
        entry_usable(e, now) <==> now < e.expires_at
            + e.cache_control.stale_while_revalidate->0,
{
}

/// The expiry timestamp of a fresh entry: `now + max_age`, clamped to the
/// largest representable time.
pub open spec fn spec_expiry(now: u64, max_age: u64) -> u64 {
    if now + max_age <= u64::MAX {
        (now + max_age) as u64
    } else {
        u64::MAX
    }
}

/// Create a cache entry from a response received at time `now`.
///
/// Returns `None` exactly when the response must not be cached: the
/// header carries `no-store`, or carries no `max-age` (a response is
/// cacheable only with an explicit TTL).
pub fn create_cache_entry_at(
    value: String,
    cache_control_header: Option<&str>,
    now: u64,
) -> (r: Option<CacheEntry>)
    ensures
        ({
            let d = match cache_control_header {
                Some(h) => spec_parse_cache_control(h@),
                None => empty_directives(),
            };
            match r {
                Some(e) => !d.no_store && d.max_age is Some && e.value == value
                    && e.cache_control == d && e.expires_at == spec_expiry(now, d.max_age->0),
                None => d.no_store || d.max_age is None,
            }
        }),
{
    let cache_control = parse_cache_control(cache_control_header);
    if cache_control.no_store {
        return None;
    }
    match cache_control.max_age {
        None => None,
        Some(max_age) => {
            let expires_at = if max_age <= u64::MAX - now {
                now + max_age
            } else {
                u64::MAX
            };
            Some(CacheEntry { value, expires_at, cache_control })
        },
    }
}

/// Create a cache entry from a response, stamped with the current time.
///
/// Returns `None` exactly when the response must not be cached.
pub fn create_cache_entry(
    value: String,
    cache_control_header: Option<&str>,
) -> (r: Option<CacheEntry>)
    ensures
        ({
            let d = match cache_control_header {
                Some(h) => spec_parse_cache_control(h@),
                None => empty_directives(),
            };
            match r {
                Some(e) => !d.no_store && d.max_age is Some && e.value == value
                    && e.cache_control == d,
                None => d.no_store || d.max_age is None,
            }
        }),
{
    let now = now_unix_secs();
    create_cache_entry_at(value, cache_control_header, now)
}

/// Relies on std::time::SystemTime: the wall clock, read as whole seconds
/// since the Unix epoch (zero if the clock reads before the epoch).
#[verifier::external_body]
pub(crate) fn now_unix_secs() -> u64 {
    SystemTime::now().duration_since(UNIX_EPOCH).map(|d| d.as_secs()).unwrap_or(0)
}

/// The cache key text: `UPPERCASE_METHOD:URL`, and `:credential_hash` when
/// a credential hash is given.
pub open spec fn spec_cache_key(method: Seq<char>, url: Seq<char>, auth_hash: Option<Seq<char>>) -> Seq<char> {
    let base = upper(method) + seq![':'] + url;
    match auth_hash {
        Some(h) => base + seq![':'] + h,
        None => base,
    }
}

/// Generate a cache key from request details. The URL is taken verbatim:
/// textually different URLs key different entries.
pub fn generate_cache_key(method: &str, url: &str, auth_hash: Option<&str>) -> (key: String)
    ensures
        auth_hash is None ==> key@ == spec_cache_key(method@, url@, None),
        auth_hash matches Some(h) ==> key@ == spec_cache_key(method@, url@, Some(h@)),
{
    let mut key = upper_string(method);
    key.append(":");
    key.append(url);
    if let Some(h) = auth_hash {
        key.append(":");
        key.append(h);
    }
    proof {
        reveal_strlit(":");
        assert(":"@ =~= seq![':']);
        if auth_hash is Some {
            assert(key@ =~= spec_cache_key(method@, url@, Some((auth_hash->0)@)));
        } else {
            assert(key@ =~= spec_cache_key(method@, url@, None));
        }
    }
    key
}

/// Two cache keys for the same method and URL agree exactly when their
/// credential hashes agree: callers with different credentials never
/// share an entry.
pub proof fn lemma_cache_key_isolates_credentials(
    method: Seq<char>,
    url: Seq<char>,
    h1: Seq<char>,
    h2: Seq<char>,
)
    ensures
        spec_cache_key(method, url, Some(h1)) == spec_cache_key(method, url, Some(h2)) <==> h1
            == h2,
{
    let base = upper(method) + seq![':'] + url;
    let k1 = base + seq![':'] + h1;
    let k2 = base + seq![':'] + h2;
    if k1 == k2 {
        assert(k1.len() == k2.len());
        assert(h1.len() == h2.len());
        assert forall|i: int| 0 <= i < h1.len() implies h1[i] == h2[i] by {
            assert(k1[base.len() + 1 + i] == h1[i]);
            assert(k2[base.len() + 1 + i] == h2[i]);
        }
        assert(h1 =~= h2);
    }
}

/// The hex text of the first eight bytes of the SHA-256 digest of a
/// string: sixteen characters, a function of the input alone.
pub uninterp spec fn credential_hash_of(s: Seq<char>) -> Seq<char>;

/// Hash a string to a short credential fingerprint.
///
/// Relies on sha2::Sha256 (through its Digest interface) and hex::encode:
/// the digest is a function of the input bytes alone, and hex encoding
/// yields two characters per byte, so the eight digest bytes kept here
/// give sixteen characters.
#[verifier::external_body]
pub fn hash_string(s: &str) -> (r: String)
    ensures
        r@ == credential_hash_of(s@),
        r@.len() == 16,
{
    let mut hasher = Sha256::new();
    hasher.update(s.as_bytes());
    let result = hasher.finalize();
    hex::encode(&result[..8])
}

} // verus!
