//! Request handling, page selection and session bookkeeping for a small
//! personal web server.

pub mod text;
pub mod number;
pub mod http;
pub mod headers;
pub mod tokens;
pub mod pages;
pub mod content;
