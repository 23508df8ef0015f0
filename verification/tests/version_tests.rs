use refyne::version::{
    build_user_agent, check_api_version_compatibility, compare_versions, parse_version,
    MAX_KNOWN_API_VERSION, MIN_API_VERSION, SDK_VERSION,
};

#[test]
fn test_parse_version() {
    assert_eq!(parse_version("1.2.3"), (1, 2, 3, None));
    assert_eq!(parse_version("0.0.0"), (0, 0, 0, None));
    assert_eq!(parse_version("1.2.3-beta"), (1, 2, 3, Some("beta")));
}

#[test]
fn test_parse_version_oddities() {
    // unparseable pieces are skipped, the rest shift up
    assert_eq!(parse_version("1.x.3"), (1, 3, 0, None));
    // missing pieces read as zero
    assert_eq!(parse_version("2"), (2, 0, 0, None));
    assert_eq!(parse_version(""), (0, 0, 0, None));
    // only the part between the first and second dash is the prerelease
    assert_eq!(parse_version("1.2.3-beta-x"), (1, 2, 3, Some("beta")));
    assert_eq!(parse_version("1.2.3-"), (1, 2, 3, Some("")));
}

#[test]
fn test_compare_versions() {
    assert_eq!(compare_versions("1.2.3", "1.2.3"), 0);
    assert_eq!(compare_versions("2.0.0", "1.0.0"), 1);
    assert_eq!(compare_versions("1.0.0", "2.0.0"), -1);
    assert_eq!(compare_versions("1.2.0", "1.1.0"), 1);
    assert_eq!(compare_versions("1.1.2", "1.1.1"), 1);
}

#[test]
fn test_version_constants() {
    // Min should be <= Max
    assert!(compare_versions(MIN_API_VERSION, MAX_KNOWN_API_VERSION) <= 0);
}

#[test]
fn test_check_api_version_compatibility() {
    assert!(check_api_version_compatibility(MIN_API_VERSION).is_ok());
    assert!(check_api_version_compatibility("999.0.0").is_ok());
}

#[test]
fn test_build_user_agent() {
    let ua = build_user_agent("linux", "x86_64", None);
    assert!(ua.contains("Refyne-SDK-Rust"));
    assert!(ua.contains(SDK_VERSION));
    assert!(ua.contains("(linux; x86_64)"));

    let ua_with_suffix = build_user_agent("linux", "x86_64", Some("MyApp/1.0"));
    assert!(ua_with_suffix.contains("MyApp/1.0"));
}
