//! API data types: the request and response shapes the client exchanges.
//!
//! These are plain values; the endpoint payloads that carry free-form
//! JSON or floating-point amounts live with the transport, outside the
//! verified library, and convert to and from these where both exist.

use vstd::prelude::*;

verus! {

/// Fetch mode for extraction.
#[derive(Debug, Clone, Copy, PartialEq, Eq)]
pub enum FetchMode {
    /// Automatic detection.
    Auto,
    /// Static HTML fetch.
    Static,
    /// Dynamic JavaScript rendering.
    Dynamic,
}

/// Extraction metadata.
#[derive(Debug, Clone)]
pub struct ExtractionMetadata {
    /// Time to fetch the page in milliseconds.
    pub fetch_duration_ms: u64,
    /// Time to extract data in milliseconds.
    pub extract_duration_ms: u64,
    /// Model used for extraction.
    pub model: String,
    /// LLM provider used.
    pub provider: String,
}

/// LLM provider configuration.
#[derive(Debug, Clone)]
pub struct LlmConfig {
    /// LLM provider name.
    pub provider: Option<String>,
    /// API key for the provider.
    pub api_key: Option<String>,
    /// Custom base URL.
    pub base_url: Option<String>,
    /// Model to use.
    pub model: Option<String>,
}

/// Options for crawl jobs.
#[derive(Debug, Clone)]
pub struct CrawlOptions {
    /// CSS selector for links to follow.
    pub follow_selector: Option<String>,
    /// Regex pattern for URLs to follow.
    pub follow_pattern: Option<String>,
    /// Maximum crawl depth.
    pub max_depth: Option<u32>,
    /// CSS selector for pagination.
    pub next_selector: Option<String>,
    /// Maximum pages to crawl.
    pub max_pages: Option<u32>,
    /// Maximum total URLs to process.
    pub max_urls: Option<u32>,
    /// Delay between requests.
    pub delay: Option<String>,
    /// Concurrent requests.
    pub concurrency: Option<u32>,
    /// Only follow same-domain links.
    pub same_domain_only: Option<bool>,
    /// Extract data from seed URLs.
    pub extract_from_seeds: Option<bool>,
}

/// Job status.
#[derive(Debug, Clone, Copy, PartialEq, Eq)]
pub enum JobStatus {
    /// Job is pending.
    Pending,
    /// Job is running.
    Running,
    /// Job completed successfully.
    Completed,
    /// Job failed.
    Failed,
}

/// Response when a crawl job is created.
#[derive(Debug, Clone)]
pub struct CrawlJobCreated {
    /// Unique job identifier.
    pub job_id: String,
    /// Initial job status.
    pub status: JobStatus,
    /// URL to check job status.
    pub status_url: String,
}

/// Request for website analysis.
#[derive(Debug, Clone)]
pub struct AnalyzeRequest {
    /// URL to analyze.
    pub url: String,
    /// Analysis depth.
    pub depth: Option<u32>,
}

/// Schema definition.
#[derive(Debug, Clone)]
pub struct Schema {
    /// Schema ID.
    pub id: String,
    /// Schema name.
    pub name: String,
    /// Schema description.
    pub description: Option<String>,
    /// Schema definition in YAML.
    pub schema_yaml: String,
    /// Category.
    pub category: Option<String>,
    /// Creation timestamp.
    pub created_at: String,
    /// Last update timestamp.
    pub updated_at: String,
}

/// List of schemas.
#[derive(Debug, Clone)]
pub struct SchemaList {
    /// List of schemas.
    pub schemas: Vec<Schema>,
}

/// Request to create a schema.
#[derive(Debug, Clone)]
pub struct CreateSchemaRequest {
    /// Schema name.
    pub name: String,
    /// Schema definition in YAML.
    pub schema_yaml: String,
    /// Schema description.
    pub description: Option<String>,
    /// Category.
    pub category: Option<String>,
}

/// Saved site configuration.
#[derive(Debug, Clone)]
pub struct Site {
    /// Site ID.
    pub id: String,
    /// Site name.
    pub name: String,
    /// Site URL.
    pub url: String,
    /// Associated schema ID.
    pub schema_id: Option<String>,
    /// Default crawl options.
    pub crawl_options: Option<CrawlOptions>,
    /// Creation timestamp.
    pub created_at: String,
}

/// List of sites.
#[derive(Debug, Clone)]
pub struct SiteList {
    /// List of sites.
    pub sites: Vec<Site>,
}

/// Request to create a site.
#[derive(Debug, Clone)]
pub struct CreateSiteRequest {
    /// Site name.
    pub name: String,
    /// Site URL.
    pub url: String,
    /// Associated schema ID.
    pub schema_id: Option<String>,
    /// Default crawl options.
    pub crawl_options: Option<CrawlOptions>,
}

/// API key (without the secret).
#[derive(Debug, Clone)]
pub struct ApiKey {
    /// Key ID.
    pub id: String,
    /// Key name.
    pub name: String,
    /// Key prefix.
    pub prefix: String,
    /// Creation timestamp.
    pub created_at: String,
    /// Last used timestamp.
    pub last_used_at: Option<String>,
}

/// List of API keys.
#[derive(Debug, Clone)]
pub struct ApiKeyList {
    /// List of keys.
    pub keys: Vec<ApiKey>,
}

/// Newly created API key.
#[derive(Debug, Clone)]
pub struct ApiKeyCreated {
    /// Key ID.
    pub id: String,
    /// Key name.
    pub name: String,
    /// Full API key (only shown once).
    pub key: String,
}

/// LLM provider key.
#[derive(Debug, Clone)]
pub struct LlmKey {
    /// Key ID.
    pub id: String,
    /// Provider name.
    pub provider: String,
    /// Default model.
    pub default_model: String,
    /// Custom base URL.
    pub base_url: Option<String>,
    /// Whether enabled.
    pub is_enabled: bool,
    /// Creation timestamp.
    pub created_at: String,
}

/// List of LLM keys.
#[derive(Debug, Clone)]
pub struct LlmKeyList {
    /// List of keys.
    pub keys: Vec<LlmKey>,
}

/// Request to upsert an LLM key.
#[derive(Debug, Clone)]
pub struct UpsertLlmKeyRequest {
    /// Provider name.
    pub provider: String,
    /// API key.
    pub api_key: String,
    /// Default model.
    pub default_model: String,
    /// Custom base URL.
    pub base_url: Option<String>,
    /// Whether enabled.
    pub is_enabled: Option<bool>,
}

/// Entry in the LLM fallback chain.
#[derive(Debug, Clone)]
pub struct LlmChainEntry {
    /// Entry ID.
    pub id: Option<String>,
    /// Position in chain.
    pub position: Option<u32>,
    /// Provider name.
    pub provider: String,
    /// Model name.
    pub model: String,
    /// Whether enabled.
    pub is_enabled: Option<bool>,
}

/// LLM fallback chain.
#[derive(Debug, Clone)]
pub struct LlmChain {
    /// Chain entries.
    pub chain: Vec<LlmChainEntry>,
}

/// Available model.
#[derive(Debug, Clone)]
pub struct Model {
    /// Model ID.
    pub id: String,
    /// Display name.
    pub name: String,
}

/// List of models.
#[derive(Debug, Clone)]
pub struct ModelList {
    /// List of models.
    pub models: Vec<Model>,
}

/// Available providers.
#[derive(Debug, Clone)]
pub struct ProvidersResponse {
    /// List of providers.
    pub providers: Vec<String>,
}

} // verus!
