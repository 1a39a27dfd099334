//! Command-line argument resolution for a tree of commands, with a typed
//! key/value store shared by flag handlers and the command handler.
use vstd::prelude::*;

pub mod command;
pub mod flag;
pub mod state;

pub use command::{Call, Command, Dispatch, Ending};
pub use state::{Kind, StateBox, StateError, StateValue, Stored};
pub use flag::Flag;


verus! {

} // verus!
