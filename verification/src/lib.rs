//! Incremental, resumable, windowed crawl engine for a Matrix account:
//! which rooms to paginate, how far each room has been covered, how events
//! fold into per-room statistics, and how those collapse into one document.

pub mod account_selector;
pub mod calendar;
pub mod crawl;
pub mod crawl_db;
pub mod login;
pub mod report;
pub mod secrets;
pub mod stats;
pub mod stats_builder;
pub mod window;
pub mod text;
pub mod timefmt;
