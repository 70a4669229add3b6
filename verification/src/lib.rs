//! A compiler from declarative entity descriptors to a CRUD REST resource:
//! dialect-correct parametrized SQL statements, role-gated request handlers,
//! partial-update semantics, and parent/child nested routing.
//!
//! The compiler is pure: it consumes a normalized annotation set, builds an
//! immutable [`descriptor::EntityDescriptor`] once per entity, and from it
//! derives SQL templates, route tables and handler decision logic. Hosting,
//! identity issuance and the database driver are external collaborators; the
//! in-memory [`store::EntityStore`] gives the storage semantics the emitted
//! statements are held to.

pub mod auth;
pub mod descriptor;
pub mod extract;
pub mod handlers;
pub mod partial;
pub mod routes;
pub mod sqlgen;
pub mod store;
pub mod values;
