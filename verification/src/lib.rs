//! Reliability layer of an HTTP API client.
//!
//! The crate provides the pieces of an SDK that carry real design
//! decisions: a `Cache-Control`-aware response cache with FIFO eviction,
//! stable cache-key derivation, a retry policy with exponential backoff
//! and rate-limit handling, typed error translation, and API version
//! compatibility checks. The transport itself (HTTP, TLS, async
//! plumbing) lives outside the verified library and drives these pieces.

pub mod cache;
pub mod client;
pub mod error;
pub mod retry;
pub mod store;
pub mod text;
pub mod types;
pub mod version;

pub use cache::{create_cache_entry, generate_cache_key, hash_string, parse_cache_control,
    CacheControlDirectives, CacheEntry};
pub use client::{Client, ClientBuilder};
pub use error::{Error, Result};
pub use retry::{backoff_base_secs, calculate_backoff, retry_decision, AttemptOutcome, RetryStep};
pub use store::{Cache, CacheTable, MemoryCache};
pub use types::{AnalyzeRequest, ApiKey, ApiKeyCreated, ApiKeyList, CrawlJobCreated,
    CrawlOptions, CreateSchemaRequest, CreateSiteRequest, ExtractionMetadata, FetchMode,
    JobStatus, LlmChain, LlmChainEntry, LlmConfig, LlmKey, LlmKeyList, Model, ModelList,
    ProvidersResponse, Schema, SchemaList, Site, SiteList, UpsertLlmKeyRequest};
pub use version::{
    build_user_agent, check_api_version_compatibility, compare_versions, parse_version,
    MAX_KNOWN_API_VERSION, MIN_API_VERSION, SDK_VERSION,
};
