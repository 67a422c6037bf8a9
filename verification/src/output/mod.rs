//! What is shown to the user: messages and progress, as text.

pub mod display;
pub mod formatter;
pub mod progress;
