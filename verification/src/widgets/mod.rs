//! The built-in widgets.
pub mod button;
pub mod flex;
pub mod sized_box;
pub mod empty_holder;
pub mod sliver;
