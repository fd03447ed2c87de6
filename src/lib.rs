//! A small client library for a remote spreadsheet service.
//!
//! `address` converts between column numbers, column letters and A1-style
//! cell addresses. `requests` turns the client's operations into plain
//! request descriptions and reads plain values back out of the service's
//! responses; sending them is left to the caller.
pub mod address;
pub mod error;
pub mod requests;
mod text;
