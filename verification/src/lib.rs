//! Verified core of djdrop: routing of dropped input, download planning,
//! gate-page scraping, credential references, tempo and key notation, and
//! the drawing, mouse handling and placement of the floating circle.

pub mod analyzer;
pub mod binaries;
pub mod config;
pub mod credentials;
pub mod downloader;
pub mod gate;
pub mod hypeddit;
pub mod native_circle;
pub mod router;
pub mod url_parts;
pub mod text;
