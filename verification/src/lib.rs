//! Necrometer: how dead a GitHub account's repos are. The necro-metrics
//! (fates, the necrosis index, titles), the SVG card's parts, the JSON
//! and RFC 3339 readers, the GitHub client's and the web service's
//! decisions, HTTP parsing, and the browser bridge's JSON.

pub mod escape;
pub mod text;
pub mod error;
pub mod json;
pub mod time;
pub mod github;
pub mod metrics;
pub mod http;
pub mod http_server;
pub mod web;
pub mod card;
pub mod wasm;
pub mod cli;

pub use metrics::{analyze, Fate, Reading, SubjectKind};
pub use github::client::FetchError;
pub use github::Repo;
