//! A virtual-filesystem library: named byte blobs behind uniform capability
//! traits, with a layered overlay engine that composes read-only layers over
//! one writable root.

pub mod client;
pub mod fs;
pub mod proxy;
pub mod shell;
pub mod ssr;
pub mod text;

