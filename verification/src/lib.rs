//! The core of an image-transformation proxy.
//!
//! A request names a pipeline of pixel operations, as URL-safe text, and a
//! source image. The core decodes the pipeline, takes the source bytes from a
//! bounded cache or has them fetched, and has an image engine decode the bytes,
//! apply the operations in their order and encode the result.
//!
//! - [`operation`], [`wire`], [`text`], [`codec`]: the pipeline and its codec;
//! - [`recency`], [`cache`]: the cache of source bytes and its model;
//! - [`source`]: source identifiers, their origins and their fingerprints;
//! - [`engine`]: what the core asks of an image engine;
//! - [`orchestrator`], [`proxy`], [`path`]: the request protocol, the handler
//!   that follows it, and request paths.
//!
//! Beside the proxy stands [`dialect`], the identifier rules of a query dialect
//! that names its tables by URL.

pub mod cache;
pub mod codec;
pub mod dialect;
pub mod engine;
pub mod operation;
pub mod orchestrator;
pub mod path;
pub mod proxy;
pub mod recency;
pub mod source;
pub mod text;
pub mod wire;
