//! The plain input events the core interprets, the two keymaps, the
//! input-mode machine's state, and the terminal actions a dispatch step can
//! yield.
//!
//! The unverified front end translates whatever its event source delivers
//! into these types; the core never sees the source itself.

use vstd::prelude::*;

use crate::selection::all_digits;
use crate::selection::JumpDirection;

verus! {

/// The keys the core distinguishes; everything else is `Other`.
#[derive(Clone, Copy, PartialEq, Eq, Structural, Debug)]
pub enum KeyCode {
    Char(char),
    Left,
    Right,
    Home,
    End,
    Enter,
    Esc,
    Other,
}

/// Whether a key event is a press, a release, or an auto-repeat.
#[derive(Clone, Copy, PartialEq, Eq, Structural, Debug)]
pub enum KeyEventKind {
    Press,
    Release,
    Repeat,
}

/// One keyboard event: the key, the held modifiers, and the event kind.
#[derive(Clone, Copy, PartialEq, Eq, Structural, Debug)]
pub struct KeyInput {
    pub code: KeyCode,
    pub ctrl: bool,
    pub alt: bool,
    pub kind: KeyEventKind,
}

/// The mouse events the core interprets; everything else is `Other`.
#[derive(Clone, Copy, PartialEq, Eq, Structural, Debug)]
pub enum MouseEventKind {
    Moved,
    LeftDown,
    RightDown,
    ScrollUp,
    ScrollDown,
    ScrollLeft,
    ScrollRight,
    Other,
}

/// One mouse event: its kind and the display column it happened at.
#[derive(Clone, Copy, PartialEq, Eq, Structural, Debug)]
pub struct MouseInput {
    pub kind: MouseEventKind,
    pub column: u16,
}

/// One external input event.
#[derive(Clone, Copy, PartialEq, Eq, Structural, Debug)]
pub enum InputEvent {
    Key(KeyInput),
    Mouse(MouseInput),
    Other,
}

/// The keybinding scheme, fixed for the whole session.
#[derive(Clone, Copy, PartialEq, Eq, Structural, Debug)]
pub enum Keymap {
    Vim,
    Emacs,
}

/// The input-mode machine: either every key stands alone, or a two-key
/// command has been armed and waits for its follow-up key, carrying the
/// jump direction and the numeric prefix captured when it was armed.
#[derive(Debug)]
pub enum InputMode {
    Idle,
    AwaitingJumpChar { direction: JumpDirection, count: Vec<char> },
}

/// Mathematical model of the input mode.
#[verifier::ext_equal]
pub enum ModeView {
    Idle,
    AwaitingJumpChar(JumpDirection, Seq<char>),
}

impl View for InputMode {
    type V = ModeView;

    open spec fn view(&self) -> ModeView {
        match self {
            InputMode::Idle => ModeView::Idle,
            InputMode::AwaitingJumpChar { direction, count } => ModeView::AwaitingJumpChar(
                *direction,
                count@,
            ),
        }
    }
}

impl ModeView {
    /// A captured numeric prefix holds only digits.
    pub open spec fn wf(self) -> bool {
        match self {
            ModeView::Idle => true,
            ModeView::AwaitingJumpChar(_, count) => all_digits(count),
        }
    }
}

impl InputMode {
    /// Takes the mode out, leaving `Idle` behind.
    pub fn take(&mut self) -> (m: InputMode)
        ensures
            m == *old(self),
            final(self)@ == ModeView::Idle,
    {
        let mut taken = InputMode::Idle;
        core::mem::swap(self, &mut taken);
        taken
    }
}

/// What the event loop does after one dispatch step: keep going, hand the
/// chosen path up, leave without a choice, or perform one of the two
/// platform signals and keep going.
#[derive(Debug)]
pub enum EventAction {
    Continue,
    Confirm(String),
    Quit,
    Interrupt,
    Suspend,
}

/// Mathematical model of a terminal action.
#[verifier::ext_equal]
pub enum ActionView {
    Continue,
    Confirm(Seq<char>),
    Quit,
    Interrupt,
    Suspend,
}

impl View for EventAction {
    type V = ActionView;

    open spec fn view(&self) -> ActionView {
        match self {
            EventAction::Continue => ActionView::Continue,
            EventAction::Confirm(path) => ActionView::Confirm(path@),
            EventAction::Quit => ActionView::Quit,
            EventAction::Interrupt => ActionView::Interrupt,
            EventAction::Suspend => ActionView::Suspend,
        }
    }
}

} // verus!
