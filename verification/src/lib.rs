//! A verified model of the Lockbook client core: the local file tree with its
//! file service, the local change log, symmetric document encryption, the
//! chat-poll decisions of the CLI, the billing model of the server and the
//! macOS key mapping of the editor.
use vstd::prelude::*;

pub mod keyed;
pub mod model;
pub mod db;
pub mod account_repo;
pub mod file_service;
pub mod path_walk;
pub mod keyboard;
pub mod billing;
pub mod chat_poll;
pub mod api;
pub mod laws;
pub mod symkey;
pub mod text;

verus! {

} // verus!
