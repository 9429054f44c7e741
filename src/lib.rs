//! Opening a file at a line and column in an editor server that belongs to
//! a project: parsing of `PATH[:LINE[:COLUMN]]`, discovery of the project
//! root, derivation of the server's endpoint, and the decisions of the
//! find-or-start protocol.
pub mod dispatch;
pub mod error;
pub mod goto;
pub mod paths;
pub mod session;
