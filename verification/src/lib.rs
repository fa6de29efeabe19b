//! Diagnostics for a message streaming benchmark.

pub mod banner;
pub mod binary64;
pub mod clock;
pub mod histogram;
pub mod layout_laws;
pub mod lines;
pub mod payload;
pub mod report;
pub mod report_laws;
pub mod report_text;
pub mod results;
pub mod rounding;
pub mod session;
pub mod stats;
pub mod text;
pub mod topology;
pub mod tracker;
