//! The decision core of an agent framework: what the model sees and at what price, what an agent may
//! reach, what is recorded and replayed, and what is said over each protocol.
//!
//! Nothing here does I/O. Whatever asks a model, runs a tool or sends a message hands plain values in
//! and takes plain values back.

pub mod agui;
pub mod audit;
pub mod budget;
pub mod cache;
pub mod capability;
pub mod card;
pub mod commands;
pub mod doctor;
pub mod error;
pub mod event;
pub mod hash;
pub mod ids;
pub mod item;
pub mod journal;
pub mod json;
pub mod macros;
pub mod mcp;
pub mod multi;
pub mod order;
pub mod profiles;
pub mod prompt;
pub mod provider;
pub mod provider_caps;
pub mod run;
pub mod sandbox;
pub mod search;
mod sealed;
pub mod segment;
pub mod session;
pub mod skills;
pub mod taint;
pub mod task;
pub mod text;
pub mod tool;
pub mod tool_def;
pub mod usage;
