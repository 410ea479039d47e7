use sumi_ripple::html::parse_html;
    fn base_url() -> &'static str {
        "https://example.com/page"
    }

    #[test]
    fn test_extract_title() {
        let html = r#"<html><head><title>Test Page</title></head><body></body></html>"#;
        let parsed = parse_html(html, base_url()).unwrap();
        assert_eq!(parsed.title, Some("Test Page".to_string()));
    }

    #[test]
    fn test_extract_title_with_whitespace() {
        let html = r#"<html><head><title>  Test Page  </title></head><body></body></html>"#;
        let parsed = parse_html(html, base_url()).unwrap();
        assert_eq!(parsed.title, Some("Test Page".to_string()));
    }

    #[test]
    fn test_no_title() {
        let html = r#"<html><head></head><body></body></html>"#;
        let parsed = parse_html(html, base_url()).unwrap();
        assert_eq!(parsed.title, None);
    }

    #[test]
    fn test_extract_absolute_link() {
        let html = r#"<html><body><a href="https://other.com/page">Link</a></body></html>"#;
        let parsed = parse_html(html, base_url()).unwrap();
        assert_eq!(parsed.links.len(), 1);
        assert_eq!(parsed.links[0], "https://other.com/page");
    }

    #[test]
    fn test_extract_relative_link() {
        let html = r#"<html><body><a href="/other">Link</a></body></html>"#;
        let parsed = parse_html(html, base_url()).unwrap();
        assert_eq!(parsed.links.len(), 1);
        assert_eq!(parsed.links[0], "https://example.com/other");
    }

    #[test]
    fn test_extract_relative_path_link() {
        let html = r#"<html><body><a href="other">Link</a></body></html>"#;
        let parsed = parse_html(html, base_url()).unwrap();
        assert_eq!(parsed.links.len(), 1);
        assert_eq!(parsed.links[0], "https://example.com/other");
    }

    #[test]
    fn test_skip_javascript_link() {
        let html = r#"<html><body><a href="javascript:void(0)">Link</a></body></html>"#;
        let parsed = parse_html(html, base_url()).unwrap();
        assert_eq!(parsed.links.len(), 0);
    }

    #[test]
    fn test_skip_mailto_link() {
        let html = r#"<html><body><a href="mailto:test@example.com">Email</a></body></html>"#;
        let parsed = parse_html(html, base_url()).unwrap();
        assert_eq!(parsed.links.len(), 0);
    }

    #[test]
    fn test_skip_tel_link() {
        let html = r#"<html><body><a href="tel:+1234567890">Call</a></body></html>"#;
        let parsed = parse_html(html, base_url()).unwrap();
        assert_eq!(parsed.links.len(), 0);
    }

    #[test]
    fn test_skip_data_uri() {
        let html = r#"<html><body><a href="data:text/html,<h1>Test</h1>">Data</a></body></html>"#;
        let parsed = parse_html(html, base_url()).unwrap();
        assert_eq!(parsed.links.len(), 0);
    }

    #[test]
    fn test_skip_download_link() {
        let html = r#"<html><body><a href="/file.pdf" download>Download</a></body></html>"#;
        let parsed = parse_html(html, base_url()).unwrap();
        assert_eq!(parsed.links.len(), 0);
    }

    #[test]
    fn test_skip_fragment_only() {
        let html = r##"<html><body><a href="#section">Jump</a></body></html>"##;
        let parsed = parse_html(html, base_url()).unwrap();
        assert_eq!(parsed.links.len(), 0);
    }

    #[test]
    fn test_follow_nofollow_links() {
        let html = r#"<html><body><a href="/page" rel="nofollow">Link</a></body></html>"#;
        let parsed = parse_html(html, base_url()).unwrap();
        assert_eq!(parsed.links.len(), 1);
        assert_eq!(parsed.links[0], "https://example.com/page");
    }

    #[test]
    fn test_extract_canonical_link() {
        let html = r#"<html><head><link rel="canonical" href="https://example.com/canonical" /></head><body></body></html>"#;
        let parsed = parse_html(html, base_url()).unwrap();
        assert!(parsed
            .links
            .contains(&"https://example.com/canonical".to_string()));
    }

    #[test]
    fn test_multiple_links() {
        let html = r#"
            <html>
            <body>
                <a href="/page1">Link 1</a>
                <a href="/page2">Link 2</a>
                <a href="https://other.com/page3">Link 3</a>
            </body>
            </html>
        "#;
        let parsed = parse_html(html, base_url()).unwrap();
        assert_eq!(parsed.links.len(), 3);
    }

    #[test]
    fn test_mixed_valid_and_invalid_links() {
        let html = r#"
            <html>
            <body>
                <a href="/valid">Valid</a>
                <a href="javascript:alert('no')">Invalid</a>
                <a href="mailto:test@example.com">Invalid</a>
                <a href="/another-valid">Valid</a>
            </body>
            </html>
        "#;
        let parsed = parse_html(html, base_url()).unwrap();
        assert_eq!(parsed.links.len(), 2);
    }
