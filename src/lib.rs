//! Marshalling bridge between a host runtime and a reverse-search engine over
//! polytopes: decoding of flat coordinate buffers, encoding of search results
//! into fixed-width host buffers, and the per-result session that relays them
//! to a host callback.
pub mod decode;
pub mod encode;
pub mod error;
pub mod session;
