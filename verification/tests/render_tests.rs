use pd::events::Keymap;
use pd::render::keymap_from_name;
use pd::render::render_line;
use pd::selection::SelectionState;

fn segs(names: &[&str]) -> Vec<String> {
    names.iter().map(|s| s.to_string()).collect()
}

#[test]
fn render_line_marks_only_the_selected_segment() {
    let mut state = SelectionState::new(segs(&["/", "home/", "user/", "project"]));
    state.move_by(-2);
    let line = render_line(&state);
    let texts: Vec<&str> = line.iter().map(|(t, _)| t.as_str()).collect();
    assert_eq!(texts, vec!["/", "home/", "user/", "project"]);
    let flags: Vec<bool> = line.iter().map(|(_, sel)| *sel).collect();
    assert_eq!(flags, vec![false, true, false, false]);
}

#[test]
fn emacs_value_selects_the_emacs_keymap() {
    let (keymap, recognized) = keymap_from_name(Some("emacs"));
    assert_eq!(keymap, Keymap::Emacs);
    assert!(recognized);
}

#[test]
fn vim_value_selects_the_vim_keymap() {
    let (keymap, recognized) = keymap_from_name(Some("vim"));
    assert_eq!(keymap, Keymap::Vim);
    assert!(recognized);
}

#[test]
fn unknown_value_defaults_to_vim_with_a_warning() {
    let (keymap, recognized) = keymap_from_name(Some("nano"));
    assert_eq!(keymap, Keymap::Vim);
    assert!(!recognized);
}

#[test]
fn missing_value_defaults_to_vim_silently() {
    let (keymap, recognized) = keymap_from_name(None);
    assert_eq!(keymap, Keymap::Vim);
    assert!(recognized);
}
