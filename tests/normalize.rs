use sumi_ripple::weburl::{normalize_url, UrlError};
    #[test]
    fn test_http_to_https() {
        // http is kept: it is promoted only when a request is sent.
        let result = normalize_url("http://example.com/page").unwrap();
        assert_eq!(result.as_str(), "http://example.com/page");
    }

    #[test]
    fn test_remove_www() {
        let result = normalize_url("https://www.example.com/").unwrap();
        assert_eq!(result.as_str(), "https://example.com/");
    }

    #[test]
    fn test_remove_trailing_slash() {
        let result = normalize_url("https://example.com/page/").unwrap();
        assert_eq!(result.as_str(), "https://example.com/page");
    }

    #[test]
    fn test_keep_root_slash() {
        let result = normalize_url("https://example.com/").unwrap();
        assert_eq!(result.as_str(), "https://example.com/");
    }

    #[test]
    fn test_remove_fragment() {
        let result = normalize_url("https://example.com/page#section").unwrap();
        assert_eq!(result.as_str(), "https://example.com/page");
    }

    #[test]
    fn test_remove_tracking_params() {
        let result = normalize_url("https://example.com/page?utm_source=twitter").unwrap();
        assert_eq!(result.as_str(), "https://example.com/page");
    }

    #[test]
    fn test_sort_query_params() {
        let result = normalize_url("https://example.com/page?b=2&a=1").unwrap();
        assert_eq!(result.as_str(), "https://example.com/page?a=1&b=2");
    }

    #[test]
    fn test_normalize_path_with_dots() {
        let result = normalize_url("https://example.com/a/../b/./c").unwrap();
        assert_eq!(result.as_str(), "https://example.com/b/c");
    }

    #[test]
    fn test_lowercase_domain() {
        let result = normalize_url("https://EXAMPLE.COM/Page").unwrap();
        assert_eq!(result.as_str(), "https://example.com/Page");
    }

    #[test]
    fn test_mixed_query_params() {
        let result = normalize_url(
            "https://example.com/page?keep=yes&utm_medium=email&another=value&fbclid=123",
        )
        .unwrap();
        assert_eq!(
            result.as_str(),
            "https://example.com/page?another=value&keep=yes"
        );
    }

    #[test]
    fn test_all_tracking_params_removed() {
        let result =
            normalize_url("https://example.com/page?utm_source=a&fbclid=b&gclid=c").unwrap();
        assert_eq!(result.as_str(), "https://example.com/page");
    }

    #[test]
    fn test_complex_normalization() {
        let result =
            normalize_url("http://WWW.EXAMPLE.COM/a/../b/?utm_source=test#fragment").unwrap();
        assert_eq!(result.as_str(), "http://example.com/b");
    }

    #[test]
    fn test_invalid_scheme() {
        let result = normalize_url("ftp://example.com/page");
        assert!(result.is_err());
        assert!(matches!(result.unwrap_err(), UrlError::InvalidScheme(_)));
    }

    #[test]
    fn test_malformed_url() {
        let result = normalize_url("not a url");
        assert!(result.is_err());
    }

    #[test]
    fn test_empty_path_becomes_root() {
        let result = normalize_url("https://example.com").unwrap();
        assert_eq!(result.as_str(), "https://example.com/");
    }

    #[test]
    fn test_multiple_slashes() {
        let result = normalize_url("https://example.com///path//to///page").unwrap();
        assert_eq!(result.as_str(), "https://example.com/path/to/page");
    }

    #[test]
    fn test_parent_directory_at_root() {
        let result = normalize_url("https://example.com/../page").unwrap();
        assert_eq!(result.as_str(), "https://example.com/page");
    }

    #[test]
    fn test_all_tracking_params() {
        let params = vec![
            "utm_source",
            "utm_medium",
            "utm_campaign",
            "utm_term",
            "utm_content",
            "fbclid",
            "gclid",
            "mc_eid",
            "ref",
            "source",
        ];

        for param in params {
            let url = format!("https://example.com/page?{}=value", param);
            let result = normalize_url(&url).unwrap();
            assert_eq!(
                result.as_str(),
                "https://example.com/page",
                "Failed to remove {}",
                param
            );
        }
    }

    #[test]
    fn test_custom_utm_param() {
        let result = normalize_url("https://example.com/page?utm_custom=value").unwrap();
        assert_eq!(result.as_str(), "https://example.com/page");
    }
