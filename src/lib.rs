//! A personal task tracker whose every mutation can be undone and redone.

use vstd::prelude::*;

pub mod task;
pub mod store;
pub mod history;
pub mod db_handler;
pub mod laws;
pub mod args;
pub mod listing;

verus! {

} // verus!
