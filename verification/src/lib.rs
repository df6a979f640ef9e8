//! Patching logic of the Renegade X patcher: the decisions that turn a
//! release's list of instructions and the state of an installation into downloads,
//! patches and deletions.
pub mod error;
pub mod text;
pub mod instruction;
pub mod action;
pub mod parts;
pub mod tracker;
pub mod hash;
pub mod mirrors;
pub mod json;
pub mod parse;
pub mod version;
pub mod fetch;
pub mod patching;
pub mod bytesize;
pub mod paths;
pub mod directory;
pub mod state;
pub mod progress;
pub mod planner;
pub mod builder;
pub mod pausable;
pub mod game_state;
pub mod bufwriter;
pub mod laws;
