//! A minimal HTTP URL decomposer: validates that raw text names the
//! `http://` scheme and splits the remainder into host, port, path and
//! searchpart.

pub mod text;
pub mod url;
