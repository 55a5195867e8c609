//! Verified core of an iCloud CalDAV calendar client and its REST front end.
pub mod caldav;
pub mod client;
pub mod export;
pub mod external;
pub mod laws;
pub mod service;
pub mod text;
