use sumi_ripple::validation::{validate_domain_pattern, validate_email};
    #[test]
    fn test_validate_domain_pattern() {
        assert!(validate_domain_pattern("example.com").is_ok());
        assert!(validate_domain_pattern("*.example.com").is_ok());
        assert!(validate_domain_pattern("sub.example.com").is_ok());

        assert!(validate_domain_pattern("").is_err());
        assert!(validate_domain_pattern("*.").is_err());
        assert!(validate_domain_pattern("example").is_err());
        assert!(validate_domain_pattern(".example.com").is_err());
        assert!(validate_domain_pattern("example.com.").is_err());
    }

    #[test]
    fn test_validate_email() {
        assert!(validate_email("user@example.com").is_ok());
        assert!(validate_email("admin@sub.example.com").is_ok());

        assert!(validate_email("").is_err());
        assert!(validate_email("invalid").is_err());
        assert!(validate_email("@example.com").is_err());
        assert!(validate_email("user@").is_err());
        assert!(validate_email("user@domain").is_err());
    }
