//! Style values and the parsers of their textual forms.
pub mod utils;
pub mod alignment;
pub mod text;
pub mod layout;
pub mod error;
pub mod draw;
