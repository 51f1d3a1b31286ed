//! Read-only companion tools for an ad-supported editor extension: a local
//! archive of the ads that were shown, a status feed, reports over both, and
//! the state of a terminal dashboard.
//!
//! Everything here is a computation on plain values. Reading files, talking to
//! the network and drawing on a terminal are left to the program around it.

pub mod archive;
pub mod capture;
pub mod chart;
pub mod clock;
pub mod config;
pub mod digest;
pub mod feed;
pub mod json;
pub mod links;
pub mod listing;
pub mod model;
pub mod numbers;
pub mod order;
pub mod render;
pub mod report;
pub mod sources;
pub mod statusline;
pub mod style;
pub mod text;
pub mod text_laws;
pub mod theme;
pub mod top;
pub mod util;
