use refyne::client::{
    job_results_path, jobs_path, Client, ClientBuilder, DEFAULT_BASE_URL, DEFAULT_MAX_RETRIES,
    DEFAULT_TIMEOUT_SECS,
};
use refyne::error::Error;

#[test]
fn test_constants() {
    assert_eq!(DEFAULT_BASE_URL, "https://api.refyne.uk");
    assert_eq!(DEFAULT_TIMEOUT_SECS, 30);
    assert_eq!(DEFAULT_MAX_RETRIES, 3);
}

#[test]
fn test_client_builder_requires_api_key() {
    let result = ClientBuilder::new("").build();
    assert!(result.is_err());
    if let Err(Error::Config(msg)) = result {
        assert!(msg.contains("API key is required"));
    } else {
        panic!("Expected Config error");
    }
}

#[test]
fn test_client_builder_default_values() {
    let builder = ClientBuilder::new("test-key");
    assert_eq!(builder.base_url, DEFAULT_BASE_URL);
    assert_eq!(builder.timeout_secs, DEFAULT_TIMEOUT_SECS);
    assert_eq!(builder.max_retries, DEFAULT_MAX_RETRIES);
    assert!(builder.cache_enabled);
}

#[test]
fn test_client_builder_custom_base_url() {
    let result = ClientBuilder::new("test-key").base_url("https://custom.api.com/").build();
    assert!(result.is_ok());
    let client = result.unwrap();
    assert_eq!(client.base_url, "https://custom.api.com");
}

#[test]
fn test_client_builder_strips_trailing_slash() {
    let result = ClientBuilder::new("test-key").base_url("https://api.example.com/").build();
    assert!(result.is_ok());
    let client = result.unwrap();
    assert!(!client.base_url.ends_with('/'));
}

#[test]
fn test_client_builder_custom_timeout() {
    let builder = ClientBuilder::new("test-key").timeout(60);
    assert_eq!(builder.timeout_secs, 60);
}

#[test]
fn test_client_builder_custom_max_retries() {
    let builder = ClientBuilder::new("test-key").max_retries(5);
    assert_eq!(builder.max_retries, 5);
}

#[test]
fn test_client_builder_cache_disabled() {
    let result = ClientBuilder::new("test-key").cache_enabled(false).build();
    assert!(result.is_ok());
    let client = result.unwrap();
    assert!(!client.cache_enabled);
}

#[test]
fn test_client_builder_custom_user_agent_suffix() {
    let result = ClientBuilder::new("test-key").user_agent_suffix("MyApp/1.0").build();
    assert!(result.is_ok());
    let client = result.unwrap();
    assert_eq!(client.user_agent_suffix, Some(String::from("MyApp/1.0")));
}

#[test]
fn test_client_builder_static_method() {
    let result = Client::builder("test-key").build();
    assert!(result.is_ok());
}

#[test]
fn test_client_cache_key_isolates_credentials() {
    let c1 = Client::builder("key-one").build().unwrap();
    let c2 = Client::builder("key-two").build().unwrap();
    let k1 = c1.cache_key("GET", "https://api.refyne.uk/api/v1/jobs");
    let k2 = c2.cache_key("GET", "https://api.refyne.uk/api/v1/jobs");
    assert_ne!(k1, k2);
    let k1_again = c1.cache_key("GET", "https://api.refyne.uk/api/v1/jobs");
    assert_eq!(k1, k1_again);
}

#[test]
fn test_client_read_and_write_paths() {
    let client = Client::builder("test-key").build().unwrap();
    // nothing cached yet
    assert!(client.cached_response("GET", "/api/v1/jobs", false).is_none());
    // a cacheable response is stored and then served
    client.store_response(
        "GET",
        "/api/v1/jobs",
        String::from("{\"jobs\":[]}"),
        Some("max-age=60"),
        false,
    );
    let hit = client.cached_response("GET", "/api/v1/jobs", false).unwrap();
    assert_eq!(hit.value, "{\"jobs\":[]}");
    // skip-cache reads and non-GET methods never consult the cache
    assert!(client.cached_response("GET", "/api/v1/jobs", true).is_none());
    assert!(client.cached_response("POST", "/api/v1/jobs", false).is_none());
}

#[test]
fn test_client_cache_disabled_never_stores() {
    let client = Client::builder("test-key").cache_enabled(false).build().unwrap();
    client.store_response("GET", "/x", String::from("v"), Some("max-age=60"), false);
    assert!(client.cached_response("GET", "/x", false).is_none());
}

#[test]
fn test_skip_cache_requests_never_populate() {
    let client = Client::builder("test-key").build().unwrap();
    // a response fetched with the skip-cache flag must not be stored
    client.store_response("GET", "/x", String::from("v"), Some("max-age=60"), true);
    assert!(client.cached_response("GET", "/x", false).is_none());
    // nor do non-GET responses populate the cache
    client.store_response("POST", "/x", String::from("v"), Some("max-age=60"), false);
    assert!(client.cached_response("GET", "/x", false).is_none());
}

#[test]
fn test_authorization_header() {
    let client = Client::builder("test-key").build().unwrap();
    assert_eq!(client.authorization_header(), "Bearer test-key");
    assert_eq!(refyne::client::JSON_MEDIA_TYPE, "application/json");
}

#[test]
fn test_jobs_path() {
    assert_eq!(jobs_path(None, None), "/api/v1/jobs");
    assert_eq!(jobs_path(Some(5), None), "/api/v1/jobs?limit=5");
    assert_eq!(jobs_path(None, Some(10)), "/api/v1/jobs?offset=10");
    assert_eq!(jobs_path(Some(5), Some(10)), "/api/v1/jobs?limit=5&offset=10");
}

#[test]
fn test_job_results_path() {
    assert_eq!(job_results_path("abc", false), "/api/v1/jobs/abc/results");
    assert_eq!(job_results_path("abc", true), "/api/v1/jobs/abc/results?merge=true");
}
