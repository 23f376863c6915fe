//! Server: what is stored, what is read back, and what the API answers.
//!
//! These modules decide; running the queries and answering the requests is the
//! caller's part.

pub mod db;
pub mod routes;
