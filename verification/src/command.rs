//! Commands: requests that travel through the application to a window, a
//! widget, or every window.
use vstd::prelude::*;

use crate::id::WindowId;

verus! {

/// What a command asks for.
#[derive(Clone, Copy, Debug, PartialEq, Eq, Structural)]
pub enum Selector {
    QuitApp,
    HideApplication,
    HideOthers,
    CloseAllWindows,
    InvalidateIme,
    CloseWindow,
    ShowWindow,
    Paste,
    ShowOpenPanel,
    ShowContextMenu,
    ShowAbout,
    ShowPreferences,
    ShowAll,
    /// A command of the application, by its number.
    Custom(u64),
}

/// Where a command goes.
#[derive(Clone, Copy, Debug, PartialEq, Eq, Structural)]
pub enum Target {
    /// Every window, until one handles it.
    Global,
    /// One window.
    Window(WindowId),
    /// One widget, by its number.
    Widget(u64),
    /// Wherever it is sent from: resolved with `default_to` before it is
    /// handled.
    Auto,
}

/// A command and its target.
#[derive(Clone, Copy, Debug, PartialEq, Eq, Structural)]
pub struct Command {
    pub selector: Selector,
    pub target: Target,
}

impl Command {
    /// A command for the given target.
    pub fn new(selector: Selector, target: Target) -> (c: Command)
        ensures
            c == (Command { selector, target }),
    {
        Command { selector, target }
    }

    /// The target of the command.
    pub fn target(&self) -> (t: Target)
        ensures
            t == self.target,
    {
        self.target
    }

    /// Whether the command asks for `selector`.
    pub fn is(&self, selector: Selector) -> (b: bool)
        ensures
            b == (self.selector == selector),
    {
        self.selector == selector
    }

    /// The command sent to `target` where its target is `Auto`; any other
    /// target stays.
    pub fn default_to(self, target: Target) -> (c: Command)
        ensures
            c == defaulted(self, target),
    {
        match self.target {
            Target::Auto => Command { selector: self.selector, target },
            _ => self,
        }
    }

    /// The same command sent to a window.
    pub fn to(self, window: WindowId) -> (c: Command)
        ensures
            c == (Command { target: Target::Window(window), ..self }),
    {
        Command { selector: self.selector, target: Target::Window(window) }
    }
}

/// The command with an `Auto` target sent to `target`; any other target
/// stays.
pub open spec fn defaulted(c: Command, target: Target) -> Command {
    if c.target is Auto {
        Command { target, ..c }
    } else {
        c
    }
}

/// Resolving an `Auto` target twice gives what resolving it once gives: the
/// first resolution wins, unless it was `Auto` itself.
pub proof fn lemma_default_to_first_wins(c: Command, first: Target, second: Target)
    requires
        !(first is Auto),
    ensures
        defaulted(defaulted(c, first), second) == defaulted(c, first),
{
}

} // verus!
