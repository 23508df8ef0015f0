use refyne::cache::{
    create_cache_entry, create_cache_entry_at, generate_cache_key, hash_string,
    parse_cache_control,
};

#[test]
fn test_parse_cache_control() {
    let d = parse_cache_control(None);
    assert!(!d.no_store);
    assert!(d.max_age.is_none());

    let d = parse_cache_control(Some("no-store"));
    assert!(d.no_store);

    let d = parse_cache_control(Some("max-age=3600"));
    assert_eq!(d.max_age, Some(3600));

    let d = parse_cache_control(Some("private, max-age=300, stale-while-revalidate=60"));
    assert!(d.private);
    assert_eq!(d.max_age, Some(300));
    assert_eq!(d.stale_while_revalidate, Some(60));
}

#[test]
fn test_parse_cache_control_case_and_padding() {
    let d = parse_cache_control(Some("  MAX-AGE=10 , No-Store"));
    assert_eq!(d.max_age, Some(10));
    assert!(d.no_store);

    let d = parse_cache_control(Some(""));
    assert!(!d.no_store && !d.no_cache && !d.private);
    assert!(d.max_age.is_none());
    assert!(d.stale_while_revalidate.is_none());
}

#[test]
fn test_parse_cache_control_bad_values_ignored() {
    // an unparseable number leaves the directive unset
    let d = parse_cache_control(Some("max-age=ten"));
    assert!(d.max_age.is_none());

    // a value too large for u64 is ignored too
    let d = parse_cache_control(Some("max-age=99999999999999999999999999"));
    assert!(d.max_age.is_none());

    // a spurious space before `=` makes the token unknown
    let d = parse_cache_control(Some("max-age =10"));
    assert!(d.max_age.is_none());

    // a leading plus sign is accepted, as integer parsing accepts it
    let d = parse_cache_control(Some("max-age=+5"));
    assert_eq!(d.max_age, Some(5));

    // unknown tokens are ignored
    let d = parse_cache_control(Some("public, immutable, max-age=7"));
    assert_eq!(d.max_age, Some(7));
}

#[test]
fn test_create_cache_entry() {
    assert!(create_cache_entry(String::from("{}"), Some("no-store")).is_none());
    assert!(create_cache_entry(String::from("{}"), Some("private")).is_none());

    let entry = create_cache_entry(String::from("{\"test\":true}"), Some("max-age=3600"));
    assert!(entry.is_some());
    let entry = entry.unwrap();
    assert_eq!(entry.value, "{\"test\":true}");
}

#[test]
fn test_create_cache_entry_no_store_wins() {
    // no-store blocks caching regardless of the other directives
    assert!(create_cache_entry(String::from("x"), Some("no-store, max-age=100")).is_none());
    // without an explicit max-age nothing is cacheable
    assert!(create_cache_entry(String::from("x"), None).is_none());
    assert!(create_cache_entry(String::from("x"), Some("no-cache")).is_none());
}

#[test]
fn test_create_cache_entry_at_expiry() {
    let e = create_cache_entry_at(String::from("body"), Some("max-age=60"), 1000).unwrap();
    assert_eq!(e.expires_at, 1060);
    assert_eq!(e.value, "body");
    assert_eq!(e.cache_control.max_age, Some(60));

    let e = create_cache_entry_at(String::from("body"), Some("max-age=1"), u64::MAX).unwrap();
    assert_eq!(e.expires_at, u64::MAX);
}

#[test]
fn test_generate_cache_key() {
    let k = generate_cache_key("get", "https://api.example.com/x", None);
    assert_eq!(k, "GET:https://api.example.com/x");

    let k1 = generate_cache_key("GET", "https://api.example.com/x", Some("h1"));
    assert_eq!(k1, "GET:https://api.example.com/x:h1");

    // same method and URL, different credential hashes: different keys
    let k2 = generate_cache_key("GET", "https://api.example.com/x", Some("h2"));
    assert_ne!(k1, k2);

    // identical inputs: identical keys
    let k3 = generate_cache_key("GET", "https://api.example.com/x", Some("h1"));
    assert_eq!(k1, k3);
}

#[test]
fn test_hash_string() {
    let h1 = hash_string("test");
    let h2 = hash_string("test");
    assert_eq!(h1, h2);

    let h3 = hash_string("other");
    assert_ne!(h1, h3);
}

#[test]
fn test_hash_string_length() {
    assert_eq!(hash_string("test").len(), 16);
    assert_eq!(hash_string("").len(), 16);
}
