//! The per-bank source adapters and what they share.

pub mod postbank;
pub mod sparda;
pub mod util;
