use sumi_ripple::page_state::PageState;
use sumi_ripple::store::RunStatus;
    #[test]
    fn page_state_test_is_terminal() {
        // Active states are not terminal
        assert!(!PageState::Discovered.is_terminal());
        assert!(!PageState::Queued.is_terminal());
        assert!(!PageState::Fetching.is_terminal());

        // All other states are terminal
        assert!(PageState::Processed.is_terminal());
        assert!(PageState::Blacklisted.is_terminal());
        assert!(PageState::Stubbed.is_terminal());
        assert!(PageState::DeadLink.is_terminal());
        assert!(PageState::Unreachable.is_terminal());
        assert!(PageState::RateLimited.is_terminal());
        assert!(PageState::Failed.is_terminal());
        assert!(PageState::DepthExceeded.is_terminal());
        assert!(PageState::RequestLimitHit.is_terminal());
        assert!(PageState::ContentMismatch.is_terminal());
    }

    #[test]
    fn test_is_active() {
        assert!(PageState::Discovered.is_active());
        assert!(PageState::Queued.is_active());
        assert!(PageState::Fetching.is_active());

        assert!(!PageState::Processed.is_active());
        assert!(!PageState::Failed.is_active());
    }

    #[test]
    fn test_is_success() {
        assert!(PageState::Processed.is_success());

        assert!(!PageState::Discovered.is_success());
        assert!(!PageState::Failed.is_success());
        assert!(!PageState::Blacklisted.is_success());
    }

    #[test]
    fn test_is_skipped() {
        assert!(PageState::Blacklisted.is_skipped());
        assert!(PageState::Stubbed.is_skipped());

        assert!(!PageState::Processed.is_skipped());
        assert!(!PageState::Failed.is_skipped());
    }

    #[test]
    fn test_is_error() {
        assert!(PageState::DeadLink.is_error());
        assert!(PageState::Unreachable.is_error());
        assert!(PageState::RateLimited.is_error());
        assert!(PageState::Failed.is_error());
        assert!(PageState::DepthExceeded.is_error());
        assert!(PageState::RequestLimitHit.is_error());
        assert!(PageState::ContentMismatch.is_error());

        assert!(!PageState::Processed.is_error());
        assert!(!PageState::Blacklisted.is_error());
        assert!(!PageState::Discovered.is_error());
    }

    #[test]
    fn test_to_db_string() {
        assert_eq!(PageState::Discovered.to_db_string(), "discovered");
        assert_eq!(PageState::Queued.to_db_string(), "queued");
        assert_eq!(PageState::Fetching.to_db_string(), "fetching");
        assert_eq!(PageState::Processed.to_db_string(), "processed");
        assert_eq!(PageState::Blacklisted.to_db_string(), "blacklisted");
        assert_eq!(PageState::Stubbed.to_db_string(), "stubbed");
        assert_eq!(PageState::DeadLink.to_db_string(), "dead_link");
        assert_eq!(PageState::Unreachable.to_db_string(), "unreachable");
        assert_eq!(PageState::RateLimited.to_db_string(), "rate_limited");
        assert_eq!(PageState::Failed.to_db_string(), "failed");
        assert_eq!(PageState::DepthExceeded.to_db_string(), "depth_exceeded");
        assert_eq!(
            PageState::RequestLimitHit.to_db_string(),
            "request_limit_hit"
        );
        assert_eq!(
            PageState::ContentMismatch.to_db_string(),
            "content_mismatch"
        );
    }

    #[test]
    fn test_from_db_string() {
        assert_eq!(
            PageState::from_db_string("discovered"),
            Some(PageState::Discovered)
        );
        assert_eq!(PageState::from_db_string("queued"), Some(PageState::Queued));
        assert_eq!(
            PageState::from_db_string("fetching"),
            Some(PageState::Fetching)
        );
        assert_eq!(
            PageState::from_db_string("processed"),
            Some(PageState::Processed)
        );
        assert_eq!(
            PageState::from_db_string("blacklisted"),
            Some(PageState::Blacklisted)
        );
        assert_eq!(
            PageState::from_db_string("stubbed"),
            Some(PageState::Stubbed)
        );
        assert_eq!(
            PageState::from_db_string("dead_link"),
            Some(PageState::DeadLink)
        );
        assert_eq!(
            PageState::from_db_string("unreachable"),
            Some(PageState::Unreachable)
        );
        assert_eq!(
            PageState::from_db_string("rate_limited"),
            Some(PageState::RateLimited)
        );
        assert_eq!(PageState::from_db_string("failed"), Some(PageState::Failed));
        assert_eq!(
            PageState::from_db_string("depth_exceeded"),
            Some(PageState::DepthExceeded)
        );
        assert_eq!(
            PageState::from_db_string("request_limit_hit"),
            Some(PageState::RequestLimitHit)
        );
        assert_eq!(
            PageState::from_db_string("content_mismatch"),
            Some(PageState::ContentMismatch)
        );
        assert_eq!(PageState::from_db_string("invalid"), None);
    }

    #[test]
    fn test_roundtrip_db_string() {
        for state in PageState::all_states() {
            let db_str = state.to_db_string();
            let parsed = PageState::from_db_string(db_str);
            assert_eq!(Some(state), parsed, "Failed roundtrip for {:?}", state);
        }
    }

    #[test]
    fn test_display() {
        assert_eq!(PageState::Discovered.to_string(), "discovered");
        assert_eq!(PageState::Processed.to_string(), "processed");
        assert_eq!(PageState::DeadLink.to_string(), "dead_link");
    }

    #[test]
    fn test_all_states_complete() {
        let all = PageState::all_states();
        assert_eq!(all.len(), 13);

        // Verify no duplicates
        for i in 0..all.len() {
            for j in (i + 1)..all.len() {
                assert_ne!(all[i], all[j], "Duplicate state found");
            }
        }
    }
    #[test]
    fn test_run_status_roundtrip() {
        for status in &[
            RunStatus::Running,
            RunStatus::Completed,
            RunStatus::Interrupted,
            RunStatus::Failed,
        ] {
            let db_str = status.to_db_string();
            let parsed = RunStatus::from_db_string(db_str);
            assert_eq!(Some(*status), parsed);
        }
    }

    #[test]
    fn test_run_status_invalid() {
        assert_eq!(RunStatus::from_db_string("invalid"), None);
    }
