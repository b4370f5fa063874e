//! The rules of the HTTP API.

pub mod access;
pub mod access_laws;
pub mod exec;
pub mod exec_laws;
pub mod headers;
pub mod metrics;
pub mod metrics_laws;
pub mod millis;
pub mod output_laws;
pub mod rate_limit;
pub mod service;
pub mod service_laws;
