//! Verified core of a small client/server file hosting service: the wire
//! format of its requests and replies, the accounts file and its password
//! checks, the search over a directory listing, and the decisions that the
//! client and the server take on each command.

pub mod text;
pub mod numbers;
pub mod paths;
pub mod passwords;
pub mod accounts;
pub mod protocol;
pub mod server;
pub mod client;
pub mod laws;
pub mod encoding;
pub mod framing;
