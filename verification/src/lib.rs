//! Verified core of a firmware flashing tool for Allwinner SoCs: GPT parsing,
//! raw-image layout, FES logical-sector compensation, chunked raw writes with
//! read-back classification, and bootstrap firmware repacking.

pub mod bytes;
pub mod config;
pub mod error;
pub mod flash;
pub mod firmware;
