//! Content-addressable object storage core.
//!
//! Raw bytes are wrapped in a typed, length-prefixed envelope
//! (`"<kind> <length>\0<content>"`), addressed by the lowercase hex rendering
//! of the SHA-1 digest of the envelope, and kept in a store that maps
//! identifiers to envelope bytes.

pub mod bytes;
pub mod codec;
pub mod decimal;
pub mod errors;
pub mod ident;
pub mod store;
