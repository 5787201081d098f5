//! Verified core of the `rui` immediate-mode UI toolkit: keyed
//! reconciliation of the widget tree across UI passes, event routing and
//! layout bookkeeping of its elements, state cells and their subscribers,
//! commands, menus and windows, the live style registry, the parsers of
//! style values, and the decisions of the built-in widgets.

pub mod app_state;
pub mod key;
pub mod tree;
pub mod ui;
pub mod live_style;
pub mod style;
pub mod state;
pub mod constraints;
pub mod id;
pub mod command;
pub mod menu;
pub mod object;
pub mod widgets;
pub mod mixin;
pub mod memo_attr;
pub mod debug_state;
pub mod debug_text;
pub mod window;
