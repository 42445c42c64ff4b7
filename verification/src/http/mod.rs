//! Control-plane requests over HTTP.

pub mod plain;
pub mod response;
pub mod secure;
pub mod status;
pub mod text;
pub mod url;
