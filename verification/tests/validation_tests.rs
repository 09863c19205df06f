use figma_extract::filter::Pattern;
use figma_extract::retry::{parse_retry_after, RetryConfig};
use figma_extract::validate::{
    parse_file_and_nodes_from_url, parse_file_key_from_url, parse_node_id_from_url,
    parse_page_list, validate_file_key, validate_token,
};

#[test]
fn test_validate_file_key() {
    // Valid keys
    assert!(validate_file_key("abcdefghij1234567890AB").is_ok());
    assert!(validate_file_key("X".repeat(22).as_str()).is_ok());

    // Invalid keys
    assert!(validate_file_key("").is_err());
    assert!(validate_file_key("short").is_err());
    assert!(validate_file_key("special-chars!").is_err());
    assert!(validate_file_key("with spaces").is_err());
}

#[test]
fn test_parse_file_key_from_url() {
    // From URL
    let url = "https://www.figma.com/file/ABC123XYZ456789012345678/Design";
    assert_eq!(
        parse_file_key_from_url(url).unwrap(),
        "ABC123XYZ456789012345678"
    );

    // Direct key
    assert_eq!(
        parse_file_key_from_url("ABC123XYZ456789012345678").unwrap(),
        "ABC123XYZ456789012345678"
    );

    // Invalid
    assert!(parse_file_key_from_url("https://figma.com/file/short").is_err());
}

#[test]
fn test_validate_token() {
    // Valid
    assert!(validate_token("figd_1234567890").is_ok());

    // Invalid
    assert!(validate_token("").is_err());
    assert!(validate_token("invalid").is_err());
    assert!(validate_token("figd_").is_err());
}

#[test]
fn test_parse_page_list() {
    assert_eq!(
        parse_page_list("Page 1, Page 2, Page 3"),
        vec!["Page 1", "Page 2", "Page 3"]
    );
    assert_eq!(parse_page_list("Single"), vec!["Single"]);
    assert_eq!(parse_page_list(""), Vec::<String>::new());
    assert_eq!(parse_page_list("  ,  ,  "), Vec::<String>::new());
}

#[test]
fn test_validate_regex_pattern() {
    assert!(Pattern::compile(r"^\d+$").is_some());
    assert!(Pattern::compile(r"[a-z]+").is_some());
    assert!(Pattern::compile(r"[unclosed").is_none());
}

#[test]
fn test_parse_node_id_from_url() {
    // From URL parameter
    assert_eq!(
        parse_node_id_from_url("https://figma.com/file/ABC?node-id=123-456"),
        Some("123:456".to_string())
    );

    // Direct node ID with hyphen
    assert_eq!(
        parse_node_id_from_url("123-456"),
        Some("123:456".to_string())
    );

    // Direct node ID with colon
    assert_eq!(
        parse_node_id_from_url("123:456"),
        Some("123:456".to_string())
    );

    // No node ID
    assert_eq!(parse_node_id_from_url("https://figma.com/file/ABC"), None);
}

#[test]
fn test_parse_file_and_nodes_from_url() {
    let url = "https://www.figma.com/file/ABC123XYZ456789012345678/Design?node-id=123-456";
    let (file_key, node_ids) = parse_file_and_nodes_from_url(url).unwrap();

    assert_eq!(file_key, "ABC123XYZ456789012345678");
    assert_eq!(node_ids, vec!["123:456"]);
}

#[test]
fn test_parse_retry_after() {
    assert_eq!(parse_retry_after("60"), Some(60));
    assert_eq!(parse_retry_after("invalid"), None);
    assert_eq!(parse_retry_after("3600"), Some(3600));
}

#[test]
fn test_parse_retry_after_edges() {
    assert_eq!(parse_retry_after("+60"), Some(60));
    assert_eq!(parse_retry_after(""), None);
    assert_eq!(parse_retry_after("+"), None);
    assert_eq!(parse_retry_after("18446744073709551615"), Some(u64::MAX));
    assert_eq!(parse_retry_after("18446744073709551616"), None);
    assert_eq!(parse_retry_after("6 0"), None);
}

#[test]
fn test_retry_config_builders() {
    let config = RetryConfig::new();
    assert_eq!(config.max_retries, 3);
    assert_eq!(config.base_delay_ms, 1000);
    assert_eq!(config.max_delay_ms, 32000);

    let custom = RetryConfig::new().with_max_retries(5).with_base_delay(500);
    assert_eq!(custom.max_retries, 5);
    assert_eq!(custom.base_delay_ms, 500);
    assert_eq!(custom.max_delay_ms, 32000);
}
