//! Work the server does between commands.
pub mod expire_type;
