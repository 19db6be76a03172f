//! Small interaction-state types shared with the widget layer.

use vstd::prelude::*;

verus! {

/// How a text widget reacts to the pointer and the keyboard.
#[derive(Debug, PartialEq, Eq, Structural, Copy, Clone)]
pub enum Interactivity {
    /// The widget will respond to input and text selection.
    Enabled,
    /// Widget will only respond to text selection.
    Selection,
    /// Widget is completely disabled and won't react to anything.
    Disabled,
}

impl Interactivity {
    /// Whether keyboard input is accepted.
    pub fn input(&self) -> (r: bool)
        ensures
            r == (*self == Interactivity::Enabled),
    {
        matches!(self, Interactivity::Enabled)
    }

    /// Whether text selection is accepted.
    pub fn selection(&self) -> (r: bool)
        ensures
            r == (*self == Interactivity::Enabled || *self == Interactivity::Selection),
    {
        matches!(self, Interactivity::Enabled | Interactivity::Selection)
    }
}

/// A pointer click in a repeated-click sequence.
#[derive(Debug, PartialEq, Eq, Structural, Copy, Clone)]
pub enum ClickType {
    Single,
    Double,
    Triple,
}

impl ClickType {
    /// The click type one further repeat makes: single selects, double
    /// selects a word, triple selects a line, and a fourth starts over.
    pub fn promote(self) -> (r: ClickType)
        ensures
            self == ClickType::Single ==> r == ClickType::Double,
            self == ClickType::Double ==> r == ClickType::Triple,
            self == ClickType::Triple ==> r == ClickType::Single,
    {
        match self {
            ClickType::Single => ClickType::Double,
            ClickType::Double => ClickType::Triple,
            ClickType::Triple => ClickType::Single,
        }
    }
}

/// What a context menu asked the editor to do once it closed.
#[derive(Debug, PartialEq, Eq, Structural, Copy, Clone)]
pub struct EditorActions {
    pub scroll_to_cursor: bool,
    pub focus: bool,
}

impl Default for EditorActions {
    /// No action requested.
    fn default() -> (r: Self)
        ensures
            !r.scroll_to_cursor,
            !r.focus,
    {
        EditorActions { scroll_to_cursor: false, focus: false }
    }
}

/// A context menu that never opens.
pub struct NoContextMenu;

} // verus!
