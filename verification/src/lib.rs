//! Consistency checking for Debian-style package repositories.
//!
//! The crate validates that every package listed by a repository index
//! resolves in that index, that declared dependencies are satisfiable,
//! that each binary package's declared source exists at the matching
//! version, and (optionally) that referenced artifacts are reachable.
//! Index fetching and URL probing are collaborators outside this crate;
//! the checking logic here is verified.

pub mod arch;
pub mod check;
pub mod laws;
pub mod model;
pub mod version;
