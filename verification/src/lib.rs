//! Typed game-session state over a replicated document, with peer
//! synchronisation, snapshots and a text transport encoding; and the parts
//! of a game that the state describes: tokens, a deck, zones, a pool,
//! agents and the course of the game.

use vstd::prelude::*;

pub mod actions;
pub mod agent;
pub mod base64;
pub mod batch;
pub mod chronicle;
pub mod engine;
pub mod gamestate;
pub mod json;
pub mod keys;
pub mod laws;
pub mod named;
pub mod parallel;
pub mod reader;
pub mod source;
pub mod space;
pub mod stack;
pub mod token;
pub mod token_ops;
pub mod types;
pub mod utils;
pub mod writer;

pub use actions::ActionDispatcher;
pub use agent::AgentManager;
pub use batch::BatchOps;
pub use chronicle::Chronicle;
pub use gamestate::GameStateManager;
pub use source::Source;
pub use space::Space;
pub use stack::Stack;
pub use token::Token;
pub use token_ops::TokenOps;

verus! {

/// The version of this library.
pub fn version() -> (r: String)
    ensures
        r@ == "0.1.0"@,
{
    "0.1.0".to_owned()
}

/// Whether the library is there to be called: it is.
pub fn health_check() -> (r: bool)
    ensures
        r,
{
    true
}

} // verus!
