use pd::dispatch::handle_event;
use pd::dispatch::handle_key_event;
use pd::dispatch::handle_mouse_event;
use pd::events::EventAction;
use pd::events::InputEvent;
use pd::events::InputMode;
use pd::events::KeyCode;
use pd::events::KeyEventKind;
use pd::events::KeyInput;
use pd::events::Keymap;
use pd::events::MouseEventKind;
use pd::events::MouseInput;
use pd::selection::JumpDirection;
use pd::selection::SelectionState;

fn segs(names: &[&str]) -> Vec<String> {
    names.iter().map(|s| s.to_string()).collect()
}

fn example_state() -> SelectionState {
    SelectionState::new(segs(&["/", "home/", "user/", "project"]))
}

fn press(code: KeyCode) -> KeyInput {
    KeyInput { code, ctrl: false, alt: false, kind: KeyEventKind::Press }
}

fn ctrl(c: char) -> KeyInput {
    KeyInput { code: KeyCode::Char(c), ctrl: true, alt: false, kind: KeyEventKind::Press }
}

fn alt(c: char) -> KeyInput {
    KeyInput { code: KeyCode::Char(c), ctrl: false, alt: true, kind: KeyEventKind::Press }
}

fn key(state: &mut SelectionState, mode: &mut InputMode, keymap: Keymap, k: KeyInput) -> EventAction {
    handle_key_event(k, state, mode, keymap)
}

#[test]
fn vim_h_and_l_move_by_one() {
    let mut state = example_state();
    let mut mode = InputMode::Idle;
    key(&mut state, &mut mode, Keymap::Vim, press(KeyCode::Char('h')));
    assert_eq!(state.current_index, 2);
    key(&mut state, &mut mode, Keymap::Vim, press(KeyCode::Char('l')));
    assert_eq!(state.current_index, 3);
}

#[test]
fn vim_caret_and_dollar_jump_to_the_ends() {
    let mut state = example_state();
    let mut mode = InputMode::Idle;
    key(&mut state, &mut mode, Keymap::Vim, press(KeyCode::Char('^')));
    assert_eq!(state.current_index, 0);
    key(&mut state, &mut mode, Keymap::Vim, press(KeyCode::Char('$')));
    assert_eq!(state.current_index, 3);
    key(&mut state, &mut mode, Keymap::Vim, press(KeyCode::Char('M')));
    assert_eq!(state.current_index, 2);
}

#[test]
fn vim_digits_accumulate_into_a_count() {
    let mut state = example_state();
    let mut mode = InputMode::Idle;
    key(&mut state, &mut mode, Keymap::Vim, press(KeyCode::Char('1')));
    key(&mut state, &mut mode, Keymap::Vim, press(KeyCode::Char('0')));
    assert_eq!(state.count_input, vec!['1', '0']);
    key(&mut state, &mut mode, Keymap::Vim, press(KeyCode::Char('h')));
    assert_eq!(state.current_index, 0);
    assert!(state.count_input.is_empty());
}

#[test]
fn vim_leading_zero_jumps_to_the_start() {
    let mut state = example_state();
    let mut mode = InputMode::Idle;
    key(&mut state, &mut mode, Keymap::Vim, press(KeyCode::Char('0')));
    assert_eq!(state.current_index, 0);
    assert!(state.count_input.is_empty());
}

#[test]
fn vim_f_waits_for_the_jump_character() {
    let mut state = example_state();
    let mut mode = InputMode::Idle;
    key(&mut state, &mut mode, Keymap::Vim, press(KeyCode::Char('^')));
    key(&mut state, &mut mode, Keymap::Vim, press(KeyCode::Char('f')));
    assert!(matches!(mode, InputMode::AwaitingJumpChar { .. }));
    assert_eq!(state.current_index, 0);
    key(&mut state, &mut mode, Keymap::Vim, press(KeyCode::Char('r')));
    assert!(matches!(mode, InputMode::Idle));
    assert_eq!(state.current_index, 2);
    let jump = state.last_jump.expect("jump memory should be set");
    assert_eq!(jump.target, 'r');
    assert_eq!(jump.direction, JumpDirection::Forward);
}

#[test]
fn vim_count_is_captured_before_the_follow_up_key() {
    let mut state = SelectionState::new(segs(&["a/", "ab/", "ab/", "abc"]));
    let mut mode = InputMode::Idle;
    key(&mut state, &mut mode, Keymap::Vim, press(KeyCode::Char('^')));
    key(&mut state, &mut mode, Keymap::Vim, press(KeyCode::Char('2')));
    key(&mut state, &mut mode, Keymap::Vim, press(KeyCode::Char('f')));
    assert!(state.count_input.is_empty());
    key(&mut state, &mut mode, Keymap::Vim, press(KeyCode::Char('b')));
    assert_eq!(state.current_index, 2);
}

#[test]
fn escape_cancels_a_pending_jump() {
    let mut state = example_state();
    let mut mode = InputMode::Idle;
    key(&mut state, &mut mode, Keymap::Vim, press(KeyCode::Char('f')));
    let action = key(&mut state, &mut mode, Keymap::Vim, press(KeyCode::Esc));
    assert!(matches!(action, EventAction::Continue));
    assert!(matches!(mode, InputMode::Idle));
    assert_eq!(state.current_index, 3);
}

#[test]
fn vim_semicolon_and_comma_repeat_jumps() {
    let mut state = SelectionState::new(segs(&["x/", "ax/", "b/", "ax/", "end"]));
    let mut mode = InputMode::Idle;
    key(&mut state, &mut mode, Keymap::Vim, press(KeyCode::Char('^')));
    key(&mut state, &mut mode, Keymap::Vim, press(KeyCode::Char('f')));
    key(&mut state, &mut mode, Keymap::Vim, press(KeyCode::Char('a')));
    assert_eq!(state.current_index, 1);
    key(&mut state, &mut mode, Keymap::Vim, press(KeyCode::Char(';')));
    assert_eq!(state.current_index, 3);
    key(&mut state, &mut mode, Keymap::Vim, press(KeyCode::Char(',')));
    assert_eq!(state.current_index, 1);
}

#[test]
fn release_and_repeat_events_are_ignored() {
    let mut state = example_state();
    let mut mode = InputMode::Idle;
    let mut released = press(KeyCode::Char('h'));
    released.kind = KeyEventKind::Release;
    key(&mut state, &mut mode, Keymap::Vim, released);
    assert_eq!(state.current_index, 3);
    let mut repeated = press(KeyCode::Char('h'));
    repeated.kind = KeyEventKind::Repeat;
    key(&mut state, &mut mode, Keymap::Vim, repeated);
    assert_eq!(state.current_index, 3);
}

#[test]
fn emacs_control_and_alt_keys_move() {
    let mut state = example_state();
    let mut mode = InputMode::Idle;
    key(&mut state, &mut mode, Keymap::Emacs, ctrl('b'));
    assert_eq!(state.current_index, 2);
    key(&mut state, &mut mode, Keymap::Emacs, ctrl('f'));
    assert_eq!(state.current_index, 3);
    key(&mut state, &mut mode, Keymap::Emacs, alt('b'));
    assert_eq!(state.current_index, 2);
    key(&mut state, &mut mode, Keymap::Emacs, alt('f'));
    assert_eq!(state.current_index, 3);
    key(&mut state, &mut mode, Keymap::Emacs, ctrl('a'));
    assert_eq!(state.current_index, 0);
    key(&mut state, &mut mode, Keymap::Emacs, ctrl('e'));
    assert_eq!(state.current_index, 3);
}

#[test]
fn emacs_plain_letters_do_not_move() {
    let mut state = example_state();
    let mut mode = InputMode::Idle;
    key(&mut state, &mut mode, Keymap::Emacs, press(KeyCode::Char('b')));
    key(&mut state, &mut mode, Keymap::Emacs, press(KeyCode::Char('h')));
    assert_eq!(state.current_index, 3);
}

#[test]
fn emacs_control_bracket_arms_a_forward_jump() {
    let mut state = example_state();
    let mut mode = InputMode::Idle;
    key(&mut state, &mut mode, Keymap::Emacs, ctrl('a'));
    key(&mut state, &mut mode, Keymap::Emacs, ctrl(']'));
    assert!(matches!(mode, InputMode::AwaitingJumpChar { .. }));
    key(&mut state, &mut mode, Keymap::Emacs, press(KeyCode::Char('r')));
    assert_eq!(state.current_index, 2);
}

#[test]
fn shared_arrows_and_home_end_work_in_both_keymaps() {
    for keymap in [Keymap::Vim, Keymap::Emacs] {
        let mut state = example_state();
        let mut mode = InputMode::Idle;
        key(&mut state, &mut mode, keymap, press(KeyCode::Left));
        assert_eq!(state.current_index, 2);
        key(&mut state, &mut mode, keymap, press(KeyCode::Right));
        assert_eq!(state.current_index, 3);
        key(&mut state, &mut mode, keymap, press(KeyCode::Home));
        assert_eq!(state.current_index, 0);
        key(&mut state, &mut mode, keymap, press(KeyCode::End));
        assert_eq!(state.current_index, 3);
    }
}

#[test]
fn enter_confirms_the_selected_path() {
    let mut state = example_state();
    let mut mode = InputMode::Idle;
    key(&mut state, &mut mode, Keymap::Vim, press(KeyCode::Left));
    key(&mut state, &mut mode, Keymap::Vim, press(KeyCode::Left));
    let action = key(&mut state, &mut mode, Keymap::Vim, press(KeyCode::Enter));
    match action {
        EventAction::Confirm(path) => assert_eq!(path, "/home/"),
        other => panic!("expected a confirmation, got {other:?}"),
    }
}

#[test]
fn q_and_escape_quit() {
    let mut state = example_state();
    let mut mode = InputMode::Idle;
    let action = key(&mut state, &mut mode, Keymap::Vim, press(KeyCode::Char('q')));
    assert!(matches!(action, EventAction::Quit));
    let action = key(&mut state, &mut mode, Keymap::Vim, press(KeyCode::Esc));
    assert!(matches!(action, EventAction::Quit));
}

#[test]
fn control_c_interrupts_and_control_z_suspends() {
    let mut state = example_state();
    let mut mode = InputMode::Idle;
    let action = key(&mut state, &mut mode, Keymap::Vim, ctrl('c'));
    assert!(matches!(action, EventAction::Interrupt));
    let action = key(&mut state, &mut mode, Keymap::Emacs, ctrl('z'));
    assert!(matches!(action, EventAction::Suspend));
}

#[test]
fn mouse_motion_selects_by_column() {
    let mut state = example_state();
    let action = handle_mouse_event(
        MouseInput { kind: MouseEventKind::Moved, column: 3 },
        &mut state,
    );
    assert!(matches!(action, EventAction::Continue));
    assert_eq!(state.current_index, 1);
}

#[test]
fn mouse_buttons_confirm_and_quit() {
    let mut state = example_state();
    let action = handle_mouse_event(
        MouseInput { kind: MouseEventKind::LeftDown, column: 0 },
        &mut state,
    );
    match action {
        EventAction::Confirm(path) => assert_eq!(path, "/home/user/project"),
        other => panic!("expected a confirmation, got {other:?}"),
    }
    let action = handle_mouse_event(
        MouseInput { kind: MouseEventKind::RightDown, column: 0 },
        &mut state,
    );
    assert!(matches!(action, EventAction::Quit));
}

#[test]
fn scrolling_moves_by_one() {
    let mut state = example_state();
    for kind in [MouseEventKind::ScrollUp, MouseEventKind::ScrollLeft] {
        handle_mouse_event(MouseInput { kind, column: 0 }, &mut state);
    }
    assert_eq!(state.current_index, 1);
    for kind in [MouseEventKind::ScrollDown, MouseEventKind::ScrollRight] {
        handle_mouse_event(MouseInput { kind, column: 0 }, &mut state);
    }
    assert_eq!(state.current_index, 3);
}

#[test]
fn a_mouse_event_cancels_a_pending_jump() {
    let mut state = example_state();
    let mut mode = InputMode::Idle;
    key(&mut state, &mut mode, Keymap::Vim, press(KeyCode::Char('f')));
    assert!(matches!(mode, InputMode::AwaitingJumpChar { .. }));
    let event = InputEvent::Mouse(MouseInput { kind: MouseEventKind::Other, column: 0 });
    let action = handle_event(event, &mut state, &mut mode, Keymap::Vim);
    assert!(matches!(action, EventAction::Continue));
    assert!(matches!(mode, InputMode::Idle));
    assert_eq!(state.current_index, 3);
}

#[test]
fn other_events_are_ignored() {
    let mut state = example_state();
    let mut mode = InputMode::Idle;
    let action = handle_event(InputEvent::Other, &mut state, &mut mode, Keymap::Vim);
    assert!(matches!(action, EventAction::Continue));
    assert_eq!(state.current_index, 3);
}
