//! A polite, resumable web crawler engine: URL normalization, domain
//! classification, page lifecycle, robots rules, per-domain pacing and the
//! storage contract that binds them.
pub mod page_state;
pub mod text;
pub mod config;
pub mod classify;
pub mod weburl;
pub mod path;
pub mod query;
pub mod robots;
pub mod domain_state;
pub mod store;
pub mod validation;
pub mod fetch;
pub mod html;
pub mod summary;
pub mod scheduler;
pub mod coordinator;
