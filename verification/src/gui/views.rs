//! The pages of the user interface.

pub mod about;
