//! The user's settings.
pub mod bot;
pub mod general;
