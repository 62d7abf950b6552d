pub mod access;
pub mod agent;
pub mod cache;
pub mod config;
pub mod diag;
pub mod ignition;
pub mod imds;
pub mod json;
pub mod keyed;
pub mod model;
pub mod netcfg;
pub mod order;
pub mod provision;
pub mod resolution;
pub mod resolve;
pub mod templates;
pub mod text;
pub mod user_merge;
