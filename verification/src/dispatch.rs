//! Dispatch of input events to selection operations.
//!
//! A key-press event first goes through the active keymap (Vim-like or
//! Emacs-like), which may move the selection, accumulate a count, or arm
//! the input-mode machine for a two-key character jump; the shared keys
//! (arrows, Enter, quit and the two signal keys) are then interpreted
//! whatever the keymap.  When a two-key command is armed, the very next
//! interpreted event is consumed by it: a character key performs the jump,
//! anything else cancels it.  Mouse events move, confirm, quit or scroll.

use vstd::prelude::*;

use crate::events::ActionView;
use crate::events::EventAction;
use crate::events::InputEvent;
use crate::events::InputMode;
use crate::events::KeyCode;
use crate::events::KeyEventKind;
use crate::events::KeyInput;
use crate::events::Keymap;
use crate::events::ModeView;
use crate::events::MouseEventKind;
use crate::events::MouseInput;
use crate::selection::is_count_digit;
use crate::selection::JumpDirection;
use crate::selection::SelectionState;
use crate::selection::SelView;

verus! {

/// What one step of the Vim keymap does to the selection and the input
/// mode.
pub open spec fn vim_keys_spec(key: KeyInput, v: SelView, m: ModeView) -> (SelView, ModeView) {
    match key.code {
        KeyCode::Char(c) => {
            if c == 'f' || c == 'F' {
                let dir = if c == 'f' {
                    JumpDirection::Forward
                } else {
                    JumpDirection::Backward
                };
                (
                    SelView { count: Seq::empty(), ..v },
                    ModeView::AwaitingJumpChar(dir, v.count),
                )
            } else if c == ';' {
                (v.repeat(false), m)
            } else if c == ',' {
                (v.repeat(true), m)
            } else if c == 'h' || c == 'k' || c == 'b' {
                (v.move_by(-1), m)
            } else if c == 'l' || c == 'j' || c == 'w' {
                (v.move_by(1), m)
            } else if c == '^' || c == 'H' {
                (v.move_to_start(), m)
            } else if c == '$' || c == 'L' {
                (v.move_to_end(), m)
            } else if c == 'M' {
                (v.move_to_middle(), m)
            } else if is_count_digit(c) {
                if c == '0' && v.count.len() == 0 {
                    (v.move_to_start(), m)
                } else {
                    (v.push_digit(c), m)
                }
            } else {
                (v, m)
            }
        },
        _ => (v, m),
    }
}

/// What one step of the Emacs keymap does to the selection and the input
/// mode.
pub open spec fn emacs_keys_spec(key: KeyInput, v: SelView, m: ModeView) -> (SelView, ModeView) {
    match key.code {
        KeyCode::Char(c) => {
            if c == ']' && key.ctrl {
                (
                    SelView { count: Seq::empty(), ..v },
                    ModeView::AwaitingJumpChar(JumpDirection::Forward, v.count),
                )
            } else if c == 'b' && (key.ctrl || key.alt) {
                (v.move_by(-1), m)
            } else if c == 'f' && (key.ctrl || key.alt) {
                (v.move_by(1), m)
            } else if c == 'a' && key.ctrl {
                (v.move_to_start(), m)
            } else if c == 'e' && key.ctrl {
                (v.move_to_end(), m)
            } else {
                (v, m)
            }
        },
        _ => (v, m),
    }
}

/// What the keymap-independent shared keys do: arrows and Home/End move,
/// Enter confirms the selected path, `q` and Escape quit, and the two
/// control keys ask for the platform signals.
pub open spec fn shared_keys_spec(key: KeyInput, v: SelView) -> (SelView, ActionView) {
    match key.code {
        KeyCode::Left => (v.move_by(-1), ActionView::Continue),
        KeyCode::Right => (v.move_by(1), ActionView::Continue),
        KeyCode::Home => (v.move_to_start(), ActionView::Continue),
        KeyCode::End => (v.move_to_end(), ActionView::Continue),
        KeyCode::Enter => (v, ActionView::Confirm(v.selected_path())),
        KeyCode::Esc => (v, ActionView::Quit),
        KeyCode::Char(c) => {
            if c == 'q' {
                (v, ActionView::Quit)
            } else if c == 'c' && key.ctrl {
                (v, ActionView::Interrupt)
            } else if c == 'z' && key.ctrl {
                (v, ActionView::Suspend)
            } else {
                (v, ActionView::Continue)
            }
        },
        _ => (v, ActionView::Continue),
    }
}

/// One key-press step outside an armed two-key command: the active keymap
/// first, then the shared keys on the keymap's outcome.
pub open spec fn normal_inputmode_spec(key: KeyInput, v: SelView, m: ModeView, keymap: Keymap) -> (
    SelView,
    ModeView,
    ActionView,
) {
    let (v1, m1) = match keymap {
        Keymap::Vim => vim_keys_spec(key, v, m),
        Keymap::Emacs => emacs_keys_spec(key, v, m),
    };
    let (v2, a) = shared_keys_spec(key, v1);
    (v2, m1, a)
}

/// One keyboard step: releases and repeats are ignored; an armed two-key
/// command consumes the key, jumping on a character and cancelling on
/// anything else; otherwise the key goes through the keymap and the shared
/// keys.
pub open spec fn key_event_spec(key: KeyInput, v: SelView, m: ModeView, keymap: Keymap) -> (
    SelView,
    ModeView,
    ActionView,
) {
    if key.kind != KeyEventKind::Press {
        (v, m, ActionView::Continue)
    } else {
        match m {
            ModeView::AwaitingJumpChar(dir, count) => {
                match key.code {
                    KeyCode::Char(c) => (
                        (SelView { count, ..v }).jump_to(dir, c),
                        ModeView::Idle,
                        ActionView::Continue,
                    ),
                    _ => (v, ModeView::Idle, ActionView::Continue),
                }
            },
            ModeView::Idle => normal_inputmode_spec(key, v, ModeView::Idle, keymap),
        }
    }
}

/// One mouse step: motion selects by column, the primary button confirms,
/// the secondary quits, scrolling moves by one.
pub open spec fn mouse_event_spec(mouse: MouseInput, v: SelView) -> (SelView, ActionView) {
    match mouse.kind {
        MouseEventKind::Moved => (v.select_at(mouse.column as int), ActionView::Continue),
        MouseEventKind::LeftDown => (v, ActionView::Confirm(v.selected_path())),
        MouseEventKind::RightDown => (v, ActionView::Quit),
        MouseEventKind::ScrollUp => (v.move_by(-1), ActionView::Continue),
        MouseEventKind::ScrollLeft => (v.move_by(-1), ActionView::Continue),
        MouseEventKind::ScrollDown => (v.move_by(1), ActionView::Continue),
        MouseEventKind::ScrollRight => (v.move_by(1), ActionView::Continue),
        MouseEventKind::Other => (v, ActionView::Continue),
    }
}

/// One full step of the core: keyboard events go through the input-mode
/// machine and the keymaps; mouse events consume an armed two-key command
/// (cancelling it) and are then interpreted; other events are ignored.
pub open spec fn event_spec(event: InputEvent, v: SelView, m: ModeView, keymap: Keymap) -> (
    SelView,
    ModeView,
    ActionView,
) {
    match event {
        InputEvent::Key(key) => key_event_spec(key, v, m, keymap),
        InputEvent::Mouse(mouse) => {
            let (v2, a) = mouse_event_spec(mouse, v);
            (v2, ModeView::Idle, a)
        },
        InputEvent::Other => (v, m, ActionView::Continue),
    }
}

/// Runs one Vim keymap step on the state and the input mode.
pub fn handle_vim_keys(key: KeyInput, state: &mut SelectionState, mode: &mut InputMode)
    requires
        old(state)@.wf(),
    ensures
        (final(state)@, final(mode)@) == vim_keys_spec(key, old(state)@, old(mode)@),
        final(state)@.wf(),
        final(mode)@.wf() || final(mode)@ == old(mode)@,
{
    match key.code {
        KeyCode::Char(c) => {
            if c == 'f' || c == 'F' {
                let direction = if c == 'f' {
                    JumpDirection::Forward
                } else {
                    JumpDirection::Backward
                };
                let mut captured: Vec<char> = Vec::new();
                core::mem::swap(&mut captured, &mut state.count_input);
                *mode = InputMode::AwaitingJumpChar { direction, count: captured };
                proof {
                    assert(state@ =~= (SelView { count: Seq::empty(), ..old(state)@ }));
                }
            } else if c == ';' {
                state.repeat_jump(false);
            } else if c == ',' {
                state.repeat_jump(true);
            } else if c == 'h' || c == 'k' || c == 'b' {
                state.move_by(-1);
            } else if c == 'l' || c == 'j' || c == 'w' {
                state.move_by(1);
            } else if c == '^' || c == 'H' {
                state.move_to_start();
            } else if c == '$' || c == 'L' {
                state.move_to_end();
            } else if c == 'M' {
                state.move_to_middle();
            } else {
                let u: u32 = c as u32;
                if 48 <= u && u <= 57 {
                    if c == '0' && state.count_input.len() == 0 {
                        state.move_to_start();
                    } else {
                        state.push_digit(c);
                    }
                }
            }
        },
        _ => {},
    }
}

/// Runs one Emacs keymap step on the state and the input mode.
pub fn handle_emacs_keys(key: KeyInput, state: &mut SelectionState, mode: &mut InputMode)
    requires
        old(state)@.wf(),
    ensures
        (final(state)@, final(mode)@) == emacs_keys_spec(key, old(state)@, old(mode)@),
        final(state)@.wf(),
        final(mode)@.wf() || final(mode)@ == old(mode)@,
{
    match key.code {
        KeyCode::Char(c) => {
            if c == ']' && key.ctrl {
                let mut captured: Vec<char> = Vec::new();
                core::mem::swap(&mut captured, &mut state.count_input);
                *mode = InputMode::AwaitingJumpChar {
                    direction: JumpDirection::Forward,
                    count: captured,
                };
                proof {
                    assert(state@ =~= (SelView { count: Seq::empty(), ..old(state)@ }));
                }
            } else if c == 'b' && (key.ctrl || key.alt) {
                state.move_by(-1);
            } else if c == 'f' && (key.ctrl || key.alt) {
                state.move_by(1);
            } else if c == 'a' && key.ctrl {
                state.move_to_start();
            } else if c == 'e' && key.ctrl {
                state.move_to_end();
            }
        },
        _ => {},
    }
}

/// Handles a key press outside an armed two-key command: the active keymap
/// first, then the shared keys.
pub fn handle_normal_inputmode(
    key: KeyInput,
    state: &mut SelectionState,
    mode: &mut InputMode,
    keymap: Keymap,
) -> (r: EventAction)
    requires
        old(state)@.wf(),
    ensures
        (final(state)@, final(mode)@, r@) == normal_inputmode_spec(
            key,
            old(state)@,
            old(mode)@,
            keymap,
        ),
        final(state)@.wf(),
        final(mode)@.wf() || final(mode)@ == old(mode)@,
{
    match keymap {
        Keymap::Vim => handle_vim_keys(key, state, mode),
        Keymap::Emacs => handle_emacs_keys(key, state, mode),
    }
    match key.code {
        KeyCode::Left => {
            state.move_by(-1);
            EventAction::Continue
        },
        KeyCode::Right => {
            state.move_by(1);
            EventAction::Continue
        },
        KeyCode::Home => {
            state.move_to_start();
            EventAction::Continue
        },
        KeyCode::End => {
            state.move_to_end();
            EventAction::Continue
        },
        KeyCode::Enter => EventAction::Confirm(state.selected_path()),
        KeyCode::Esc => EventAction::Quit,
        KeyCode::Char(c) => {
            if c == 'q' {
                EventAction::Quit
            } else if c == 'c' && key.ctrl {
                EventAction::Interrupt
            } else if c == 'z' && key.ctrl {
                EventAction::Suspend
            } else {
                EventAction::Continue
            }
        },
        _ => EventAction::Continue,
    }
}

/// Handles one keyboard event through the input-mode machine: releases and
/// repeats are ignored; an armed two-key command consumes the key.
pub fn handle_key_event(
    key: KeyInput,
    state: &mut SelectionState,
    mode: &mut InputMode,
    keymap: Keymap,
) -> (r: EventAction)
    requires
        old(state)@.wf(),
        old(mode)@.wf(),
    ensures
        (final(state)@, final(mode)@, r@) == key_event_spec(key, old(state)@, old(mode)@, keymap),
        final(state)@.wf(),
        final(mode)@.wf(),
{
    if !matches!(key.kind, KeyEventKind::Press) {
        return EventAction::Continue;
    }
    let taken = mode.take();
    match taken {
        InputMode::AwaitingJumpChar { direction, count } => {
            if let KeyCode::Char(c) = key.code {
                state.count_input = count;
                state.jump_to_char(direction, c);
            }
            EventAction::Continue
        },
        InputMode::Idle => handle_normal_inputmode(key, state, mode, keymap),
    }
}

/// Handles one mouse event: motion selects by column, the buttons confirm
/// or quit, scrolling moves by one.
pub fn handle_mouse_event(mouse: MouseInput, state: &mut SelectionState) -> (r: EventAction)
    requires
        old(state)@.wf(),
    ensures
        (final(state)@, r@) == mouse_event_spec(mouse, old(state)@),
        final(state)@.wf(),
{
    match mouse.kind {
        MouseEventKind::Moved => {
            state.select_part_at_column(mouse.column);
            EventAction::Continue
        },
        MouseEventKind::LeftDown => EventAction::Confirm(state.selected_path()),
        MouseEventKind::RightDown => EventAction::Quit,
        MouseEventKind::ScrollUp | MouseEventKind::ScrollLeft => {
            state.move_by(-1);
            EventAction::Continue
        },
        MouseEventKind::ScrollDown | MouseEventKind::ScrollRight => {
            state.move_by(1);
            EventAction::Continue
        },
        MouseEventKind::Other => EventAction::Continue,
    }
}

/// Handles one external event: the single dispatch step of the session's
/// event loop.
pub fn handle_event(
    event: InputEvent,
    state: &mut SelectionState,
    mode: &mut InputMode,
    keymap: Keymap,
) -> (r: EventAction)
    requires
        old(state)@.wf(),
        old(mode)@.wf(),
    ensures
        (final(state)@, final(mode)@, r@) == event_spec(event, old(state)@, old(mode)@, keymap),
        final(state)@.wf(),
        final(mode)@.wf(),
{
    match event {
        InputEvent::Key(key) => handle_key_event(key, state, mode, keymap),
        InputEvent::Mouse(mouse) => {
            *mode = InputMode::Idle;
            handle_mouse_event(mouse, state)
        },
        InputEvent::Other => EventAction::Continue,
    }
}

} // verus!
