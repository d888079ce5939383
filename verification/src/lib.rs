//! The decisions of a small HTTP server: reading a request header, choosing the
//! response, and driving one connection.
// Much of what is imported is used in contracts and proofs alone.
#![allow(unused_imports)]

pub mod answer_laws;
pub mod context;
pub mod error;
pub mod exchange_laws;
pub mod field_laws;
pub mod handler;
pub mod handler_laws;
pub mod page_laws;
pub mod path;
pub mod path_laws;
pub mod request;
pub mod request_laws;
pub mod response;
pub mod response_laws;
pub mod status;
pub mod stream_laws;
pub mod text;
pub mod text_laws;
pub mod view_laws;
