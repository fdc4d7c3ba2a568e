//! Real-time execution service: the decisions behind broker ingestion, the
//! hydrated execution document, grant-based authorization and live fan-out.
pub mod access;
pub mod config;
pub mod consumer;
pub mod document;
pub mod document_store;
pub mod grant_store;
pub mod grants;
pub mod json;
pub mod keyed;
pub mod lineage;
pub mod models;
pub mod normalize;
pub mod payload;
pub mod retry;
pub mod ws;
