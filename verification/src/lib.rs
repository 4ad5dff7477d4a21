//! The core of a package runtime: identifiers of packages and their
//! orders, and what is decided about the packages that are installed on a
//! host.
//!
//! `ident`, `version` and `order` are about identifiers: how they are
//! written and read, which of two is the newer, and which package answers
//! which request. `store`, `metadata`, `paths` and `install` are about
//! installed packages: which of them a request stands for, what their
//! metafiles say, and what `PATH` they run with. Nothing here reads a file:
//! what is on disk comes in as a `store::PackageStore`.

pub mod each;
pub mod env;
pub mod error;
pub mod fs;
pub mod ident;
pub mod install;
pub mod keyvalue;
pub mod metadata;
pub mod order;
pub mod paths;
pub mod signals;
pub mod store;
pub mod target;
pub mod text;
pub mod version;
