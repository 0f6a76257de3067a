//! What a compositor is handed: pictures this side makes, and the names and
//! shapes things have on it.
pub mod blend;
pub mod captures;
pub mod drawing;
pub mod encode;
pub mod memory;
pub mod nv12;
pub mod preview;
pub mod start;
