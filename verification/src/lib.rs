//! An in-memory key/value database driven by a small command language,
//! with optional Lua extensions that validate and format values.

pub mod text;
pub mod error;
pub mod parser;
pub mod storage;
pub mod extension_manager;
mod lua;
pub mod session;
pub mod laws;
