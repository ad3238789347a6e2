//! Conversation requests for the Anthropic messages API, the events that come back from it, and
//! a small probe that counts and times the hot paths around them.

pub mod anthropic;
pub mod cache;
pub mod completion;
pub mod cpu_probe;
pub mod echo_agent;
pub mod event_mapper;
pub mod json;
pub mod language_model;
pub mod laws;
pub mod number;
pub mod text;
