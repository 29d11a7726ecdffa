//! A verified session catalog: per-session metadata and message logs keyed by
//! a session identifier, with read/list/update operations and cross-session
//! analytics (usage insights, activity heatmap) derived from the catalog.

pub mod error;
pub mod model;
pub mod strorder;
pub mod resolve;
pub mod store;
pub mod listing;
pub mod timeparse;
pub mod fmtdate;
pub mod insights;
pub mod heatmap;
