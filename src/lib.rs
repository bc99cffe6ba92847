//! Change detection over scraped chat snapshots, and the relay that fans
//! detected messages out to subscribers and routes their commands back.

pub mod cache;
pub mod config;
pub mod dispatch;
pub mod framing;
pub mod message;
pub mod registry;
pub mod scrape;
pub mod text;
pub mod typing;
