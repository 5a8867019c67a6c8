//! Placeholder-based secret substitution, end-to-end encrypted model calls
//! and their event streams, and a browser tool's input rules.

use vstd::prelude::*;

pub mod text;
pub mod password_store;
pub mod password_utils;
pub mod password_store_ripasso;
pub mod e2ee;
pub mod chat_stream;
pub mod chunk_json;
pub mod chutes;
pub mod e2ee_stream;
pub mod playwright;

verus! {

} // verus!
