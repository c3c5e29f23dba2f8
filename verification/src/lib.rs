//! Verified core of the Chola CI controller: the ChQL query language (lexer,
//! parser, SQL compiler), the stage dependency graph, metrics rendering,
//! request validation and date parsing.
pub mod api;
pub mod auth;
pub mod crypto;
pub mod csrf;
pub mod dag;
pub mod job_group_registry;
pub mod job_registry;
pub mod log_aggregator;
pub mod monitoring;
pub mod openapi;
pub mod query;
pub mod rate_limit;
pub mod reaper;
pub mod redis_store;
pub mod reporting;
pub mod reservation;
pub mod retention;
pub mod scheduler;
pub mod stages;
pub mod text;
pub mod time;
