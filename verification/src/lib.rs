//! Alias management core of a URL-shortening service.
//!
//! A long URL is given a short alphanumeric alias; the mapping is kept in a
//! store that enforces alias uniqueness, and an alias resolves back to its
//! long URL. The pieces are:
//!
//! - [`model`]: the persisted `Mapping` entity, the error taxonomy, and the
//!   outcome of a store insertion;
//! - [`generator`]: candidate alias generation from a long URL, an injected
//!   salt and an attempt number;
//! - [`store`]: an in-memory mapping store with an atomic
//!   insert-if-absent primitive;
//! - [`manager`]: `create` / `lookup` orchestration with a bounded
//!   collision-retry policy;
//! - [`resolve`]: the redirect-resolution policy that tolerates stored URLs
//!   lacking a scheme.

pub mod generator;
pub mod manager;
pub mod model;
pub mod resolve;
pub mod store;

pub use generator::AliasGenerator;
pub use manager::UrlManager;
pub use model::InsertOutcome;
pub use model::Mapping;
pub use model::UrlError;
pub use resolve::resolve_redirect;
pub use store::MemStore;
