//! Household electricity from energy monitors whose cloud keeps a week of
//! minutes, planned, read and answered so that a week becomes a permanent record.

pub mod agent;
pub mod answer;
pub mod cognito;
pub mod config;
pub mod emporia;
pub mod http;
pub mod json;
pub mod plan;
pub mod scale;
pub mod service;
pub mod sort;
pub mod store;
pub mod tables;
pub mod text;
pub mod time;
