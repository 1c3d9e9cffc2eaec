//! Audits the resolved packages of a lockfile against a database of security
//! advisories and reports which pinned versions are vulnerable.
pub mod text;
pub mod version;
pub mod range;
pub mod advisory;
pub mod scan;
pub mod render;
