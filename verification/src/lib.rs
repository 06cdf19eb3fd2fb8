//! Verified core of a desktop web-view shell: URL policy, start-up argument
//! handling, single-instance naming and messaging, and toast notification
//! content.

pub mod text;
pub mod encode;
pub mod pattern;
pub mod urls;
pub mod instance;
pub mod toast;
pub mod shell;
