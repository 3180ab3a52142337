//! Core of a session-credential backend: a signed-credential codec, a
//! TTL-based session registry with sliding expiration, request trust guards,
//! validating input extractors, and a closed error taxonomy mapping every
//! failure to one HTTP status and one JSON error shape.

pub mod base64url;
pub mod bytesutil;
pub mod codec;
pub mod cookies;
pub mod errors;
pub mod extract;
pub mod guards;
pub mod numdec;
pub mod registry;
pub mod routes;
pub mod validate;
