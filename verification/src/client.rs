//! Client configuration and the request-path decisions: building a
//! client, deriving cache keys, and the read/write integration between
//! requests and the cache. The transport and the retry loop around it
//! live outside the library; they drive `crate::retry::retry_decision`
//! and call back into these functions.

use vstd::prelude::*;

use crate::cache::{
    create_cache_entry, credential_hash_of, entry_usable, generate_cache_key, hash_string,
    now_unix_secs, spec_cache_key, CacheEntry,
};
use crate::error::Error;
use crate::store::MemoryCache;
use crate::text::{dec_str, str_eq, trim_end_matching, trim_end_string, u64_to_string};
use vstd::string::StringExecFns;

verus! {

/// The API base URL used when none is configured.
pub const DEFAULT_BASE_URL: &'static str = "https://api.refyne.uk";

/// The request timeout used when none is configured, in seconds.
pub const DEFAULT_TIMEOUT_SECS: u64 = 30;

/// The maximum number of retries used when none is configured.
pub const DEFAULT_MAX_RETRIES: u32 = 3;

/// The media type every request declares, as its Content-Type and its
/// Accept header.
pub const JSON_MEDIA_TYPE: &'static str = "application/json";

/// Builder for constructing a [`Client`].
pub struct ClientBuilder {
    /// The caller's API credential.
    pub api_key: String,
    /// The API base URL, without a trailing slash.
    pub base_url: String,
    /// The request timeout, in seconds.
    pub timeout_secs: u64,
    /// The maximum retry attempts.
    pub max_retries: u32,
    /// A custom cache, where the default is not wanted.
    pub cache: Option<MemoryCache>,
    /// Whether responses are cached at all.
    pub cache_enabled: bool,
    /// Extra text for the User-Agent header.
    pub user_agent_suffix: Option<String>,
}

impl ClientBuilder {
    /// Create a new client builder with the given API key and the
    /// default configuration.
    pub fn new(api_key: &str) -> (b: Self)
        ensures
            b.api_key@ == api_key@,
            b.base_url@ == DEFAULT_BASE_URL@,
            b.timeout_secs == DEFAULT_TIMEOUT_SECS,
            b.max_retries == DEFAULT_MAX_RETRIES,
            b.cache is None,
            b.cache_enabled,
            b.user_agent_suffix is None,
    {
        ClientBuilder {
            api_key: api_key.to_owned(),
            base_url: String::from_str(DEFAULT_BASE_URL),
            timeout_secs: DEFAULT_TIMEOUT_SECS,
            max_retries: DEFAULT_MAX_RETRIES,
            cache: None,
            cache_enabled: true,
            user_agent_suffix: None,
        }
    }

    /// Set the API base URL; trailing slashes are stripped.
    pub fn base_url(self, url: &str) -> (b: Self)
        ensures
            b.base_url@ == trim_end_matching(url@, '/'),
            b.api_key == self.api_key,
            b.timeout_secs == self.timeout_secs,
            b.max_retries == self.max_retries,
            b.cache == self.cache,
            b.cache_enabled == self.cache_enabled,
            b.user_agent_suffix == self.user_agent_suffix,
    {
        ClientBuilder { base_url: trim_end_string(url, '/'), ..self }
    }

    /// Set the request timeout, in seconds.
    pub fn timeout(self, timeout_secs: u64) -> (b: Self)
        ensures
            b.timeout_secs == timeout_secs,
            b.api_key == self.api_key,
            b.base_url == self.base_url,
            b.max_retries == self.max_retries,
            b.cache == self.cache,
            b.cache_enabled == self.cache_enabled,
            b.user_agent_suffix == self.user_agent_suffix,
    {
        ClientBuilder { timeout_secs, ..self }
    }

    /// Set the maximum retry attempts.
    pub fn max_retries(self, retries: u32) -> (b: Self)
        ensures
            b.max_retries == retries,
            b.api_key == self.api_key,
            b.base_url == self.base_url,
            b.timeout_secs == self.timeout_secs,
            b.cache == self.cache,
            b.cache_enabled == self.cache_enabled,
            b.user_agent_suffix == self.user_agent_suffix,
    {
        ClientBuilder { max_retries: retries, ..self }
    }

    /// Set a custom cache.
    pub fn cache(self, cache: MemoryCache) -> (b: Self)
        ensures
            b.cache is Some,
            b.api_key == self.api_key,
            b.base_url == self.base_url,
            b.timeout_secs == self.timeout_secs,
            b.max_retries == self.max_retries,
            b.cache_enabled == self.cache_enabled,
            b.user_agent_suffix == self.user_agent_suffix,
    {
        ClientBuilder { cache: Some(cache), ..self }
    }

    /// Enable or disable caching.
    pub fn cache_enabled(self, enabled: bool) -> (b: Self)
        ensures
            b.cache_enabled == enabled,
            b.api_key == self.api_key,
            b.base_url == self.base_url,
            b.timeout_secs == self.timeout_secs,
            b.max_retries == self.max_retries,
            b.cache == self.cache,
            b.user_agent_suffix == self.user_agent_suffix,
    {
        ClientBuilder { cache_enabled: enabled, ..self }
    }

    /// Set a custom User-Agent suffix.
    pub fn user_agent_suffix(self, suffix: &str) -> (b: Self)
        ensures
            b.user_agent_suffix matches Some(s) && s@ == suffix@,
            b.api_key == self.api_key,
            b.base_url == self.base_url,
            b.timeout_secs == self.timeout_secs,
            b.max_retries == self.max_retries,
            b.cache == self.cache,
            b.cache_enabled == self.cache_enabled,
    {
        ClientBuilder { user_agent_suffix: Some(suffix.to_owned()), ..self }
    }

    /// Build the client.
    ///
    /// Fails with the configuration error exactly when the API key is
    /// empty. Otherwise the client keeps the configured options, derives
    /// its credential hash from the API key, and uses the given cache or
    /// a default-sized one.
    pub fn build(self) -> (r: Result<Client, Error>)
        ensures
            self.api_key@.len() == 0 ==> (r matches Err(e) && e matches Error::Config(m) && m@
                == "API key is required"@),
            self.api_key@.len() > 0 ==> (r matches Ok(c) && c.api_key == self.api_key
                && c.base_url == self.base_url && c.timeout_secs == self.timeout_secs
                && c.max_retries == self.max_retries && c.cache_enabled == self.cache_enabled
                && c.user_agent_suffix == self.user_agent_suffix && c.auth_hash@
                == credential_hash_of(self.api_key@) && (self.cache matches Some(given)
                ==> c.cache == given) && (self.cache is None ==> c.cache.capacity() == 100)),
    {
        let ClientBuilder {
            api_key,
            base_url,
            timeout_secs,
            max_retries,
            cache,
            cache_enabled,
            user_agent_suffix,
        } = self;
        if api_key.as_str().is_empty() {
            return Err(Error::Config(String::from_str("API key is required")));
        }
        let cache = match cache {
            Some(c) => c,
            None => MemoryCache::default(),
        };
        let auth_hash = hash_string(api_key.as_str());
        Ok(
            Client {
                api_key,
                base_url,
                timeout_secs,
                max_retries,
                cache,
                cache_enabled,
                user_agent_suffix,
                auth_hash,
            },
        )
    }
}

/// The client's verified core: its configuration, its cache, and the
/// request-path decisions. The transport collaborator sends the actual
/// requests and drives the retry policy.
pub struct Client {
    /// The caller's API credential.
    pub api_key: String,
    /// The API base URL, without a trailing slash.
    pub base_url: String,
    /// The request timeout, in seconds.
    pub timeout_secs: u64,
    /// The maximum retry attempts.
    pub max_retries: u32,
    /// The response cache.
    pub cache: MemoryCache,
    /// Whether responses are cached at all.
    pub cache_enabled: bool,
    /// Extra text for the User-Agent header.
    pub user_agent_suffix: Option<String>,
    /// The credential hash that keys this client's cache entries.
    pub auth_hash: String,
}

impl Client {
    /// Create a new client builder.
    pub fn builder(api_key: &str) -> (b: ClientBuilder)
        ensures
            b.api_key@ == api_key@,
            b.base_url@ == DEFAULT_BASE_URL@,
            b.timeout_secs == DEFAULT_TIMEOUT_SECS,
            b.max_retries == DEFAULT_MAX_RETRIES,
            b.cache is None,
            b.cache_enabled,
            b.user_agent_suffix is None,
    {
        ClientBuilder::new(api_key)
    }

    /// The absolute URL of a request path.
    pub fn request_url(&self, path: &str) -> (url: String)
        ensures
            url@ == self.base_url@ + path@,
    {
        let mut url = self.base_url.clone();
        url.append(path);
        url
    }

    /// The cache key of a request: its method, its URL, and this
    /// client's credential hash, so callers with different credentials
    /// never share entries.
    pub fn cache_key(&self, method: &str, url: &str) -> (key: String)
        ensures
            key@ == spec_cache_key(method@, url@, Some(self.auth_hash@)),
    {
        generate_cache_key(method, url, Some(self.auth_hash.as_str()))
    }

    /// Whether a request may be served from the cache: a GET, with
    /// caching enabled, and not explicitly told to skip it.
    pub open spec fn spec_reads_cache(&self, method: Seq<char>, skip_cache: bool) -> bool {
        method == "GET"@ && self.cache_enabled && !skip_cache
    }

    /// Whether a request may be served from the cache, as
    /// `spec_reads_cache` says.
    pub fn reads_cache(&self, method: &str, skip_cache: bool) -> (b: bool)
        ensures
            b == self.spec_reads_cache(method@, skip_cache),
    {
        self.cache_enabled && !skip_cache && str_eq(method, "GET")
    }

    /// Whether a response may populate the cache: the same gate as the
    /// read path, since a request that must not consult the cache must
    /// not populate it either.
    pub open spec fn spec_writes_cache(&self, method: Seq<char>, skip_cache: bool) -> bool {
        self.spec_reads_cache(method, skip_cache)
    }

    /// Whether a response may populate the cache, as `spec_writes_cache`
    /// says.
    pub fn writes_cache(&self, method: &str, skip_cache: bool) -> (b: bool)
        ensures
            b == self.spec_writes_cache(method@, skip_cache),
    {
        self.reads_cache(method, skip_cache)
    }

    /// The read path at an explicit time: consult the cache before any
    /// network attempt. A hit short-circuits the whole retry state
    /// machine, and is always servable at `now`: fresh, or inside its
    /// stale window. Methods that must not read the cache never get a
    /// hit.
    pub fn cached_response_at(
        &self,
        method: &str,
        path: &str,
        skip_cache: bool,
        now: u64,
    ) -> (r: Option<CacheEntry>)
        ensures
            !self.spec_reads_cache(method@, skip_cache) ==> r is None,
            r matches Some(e) ==> self.spec_reads_cache(method@, skip_cache) && entry_usable(
                e,
                now,
            ),
    {
        if self.reads_cache(method, skip_cache) {
            let url = self.request_url(path);
            let key = self.cache_key(method, url.as_str());
            self.cache.get_at(&key, now)
        } else {
            None
        }
    }

    /// The read path at the current time, as `cached_response_at` does.
    pub fn cached_response(&self, method: &str, path: &str, skip_cache: bool) -> (r: Option<
        CacheEntry,
    >)
        ensures
            !self.spec_reads_cache(method@, skip_cache) ==> r is None,
            r is Some ==> self.spec_reads_cache(method@, skip_cache),
    {
        self.cached_response_at(method, path, skip_cache, now_unix_secs())
    }

    /// The write path: after a successful response, store its body under
    /// the request's key when the request may populate the cache (a
    /// cacheable read, caching enabled, not flagged to skip the cache)
    /// and the response's Cache-Control allows it. A request that
    /// skipped the cache on the way in stores nothing on the way out.
    pub fn store_response(
        &self,
        method: &str,
        path: &str,
        body: String,
        cache_control: Option<&str>,
        skip_cache: bool,
    ) {
        if self.writes_cache(method, skip_cache) {
            let url = self.request_url(path);
            let key = self.cache_key(method, url.as_str());
            if let Some(entry) = create_cache_entry(body, cache_control) {
                self.cache.set(key, entry);
            }
        }
    }

    /// The Authorization header value of this client's requests:
    /// `Bearer ` followed by the credential.
    pub fn authorization_header(&self) -> (v: String)
        ensures
            v@ == "Bearer "@ + self.api_key@,
    {
        let mut v = String::from_str("Bearer ");
        v.append(self.api_key.as_str());
        v
    }
}

/// The query path for listing jobs, with the optional paging parameters.
pub open spec fn spec_jobs_path(limit: Option<u32>, offset: Option<u32>) -> Seq<char> {
    let base = "/api/v1/jobs"@;
    match (limit, offset) {
        (None, None) => base,
        (Some(l), None) => base + "?limit="@ + dec_str(l as int),
        (None, Some(o)) => base + "?offset="@ + dec_str(o as int),
        (Some(l), Some(o)) => base + "?limit="@ + dec_str(l as int) + "&offset="@ + dec_str(
            o as int,
        ),
    }
}

/// Build the path for listing jobs.
pub fn jobs_path(limit: Option<u32>, offset: Option<u32>) -> (path: String)
    ensures
        path@ == spec_jobs_path(limit, offset),
{
    let mut path = String::from_str("/api/v1/jobs");
    match (limit, offset) {
        (None, None) => {},
        (Some(l), None) => {
            path.append("?limit=");
            path.append(u64_to_string(l as u64).as_str());
        },
        (None, Some(o)) => {
            path.append("?offset=");
            path.append(u64_to_string(o as u64).as_str());
        },
        (Some(l), Some(o)) => {
            path.append("?limit=");
            path.append(u64_to_string(l as u64).as_str());
            path.append("&offset=");
            path.append(u64_to_string(o as u64).as_str());
        },
    }
    path
}

/// The path for one job's results, with the optional merge flag.
pub open spec fn spec_job_results_path(id: Seq<char>, merge: bool) -> Seq<char> {
    if merge {
        "/api/v1/jobs/"@ + id + "/results?merge=true"@
    } else {
        "/api/v1/jobs/"@ + id + "/results"@
    }
}

/// Build the path for one job's results.
pub fn job_results_path(id: &str, merge: bool) -> (path: String)
    ensures
        path@ == spec_job_results_path(id@, merge),
{
    let mut path = String::from_str("/api/v1/jobs/");
    path.append(id);
    if merge {
        path.append("/results?merge=true");
    } else {
        path.append("/results");
    }
    path
}

} // verus!
