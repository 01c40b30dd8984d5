//! Verified core of a role-play chat engine: the conversion of a game's
//! dialogue lines into the message list an LLM receives for one character,
//! the bookkeeping of which entity the player possesses, the player
//! identities, and the AI dialogue script event.

pub mod text;
pub mod types;
pub mod memory_builder;
pub mod tool_result;
pub mod memory_laws;
pub mod identity;
pub mod possession;
pub mod dialogue;
