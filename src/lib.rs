//! Consistency logic for a writing project's store: the relational catalog of
//! folders, documents and characters, the markdown mirror of document bodies,
//! character asset directories and timestamped backup archives.
//!
//! Everything here is pure: it computes paths, identifiers, deletion plans,
//! write plans and archive entry lists, and states over abstract models what
//! performing them does. Opening the database, touching the disk and writing
//! archives is left to the caller.

pub mod text;
pub mod model;
pub mod closure;
pub mod plan;
pub mod tree_deletion;
pub mod paths;
pub mod fsplan;
pub mod profile;
pub mod backup;
pub mod workspace;
pub mod assets;
pub mod run;
