//! Request handling logic of the HTTP API: errors, request bodies and the
//! checks made on them.
pub mod blacklist;
pub mod error;
pub mod job_groups;
pub mod settings;
pub mod repos;
pub mod users;
pub mod scripts;
pub mod notifications;
pub mod dto;
pub mod date_parse;
pub mod analytics;
pub mod webhooks;
pub mod badge;
