//! The decision logic of the relay's two endpoint families: the
//! authenticated management surface over the registry, and the
//! ingestion endpoint with its background delivery.
pub mod api;
pub mod hooks;
