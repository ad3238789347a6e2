//! What holds of the library as a whole.

pub mod agent;
pub mod breakpoints;
pub mod calls;
pub mod content;
pub mod conversation;
pub mod echo;
pub mod events;
pub mod numbers;
pub mod placement;
pub mod probe;
pub mod request;
pub mod streams;
pub mod text;
pub mod views;
