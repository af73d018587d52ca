//! What the server does with a request once it has been read.
pub mod handlers;
