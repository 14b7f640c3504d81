//! The pure side of rendering and of configuration.
//!
//! The render step turns the selection state into an ordered list of
//! (text, is-selected) pairs; how those pairs reach the screen is the
//! front end's business.  The keymap choice is likewise computed here from
//! a plain optional string, while reading the configuration value is left
//! to the front end.

use vstd::prelude::*;

use crate::events::Keymap;
use crate::selection::SelectionState;

verus! {

/// One line of the display: every segment in order, the selected one
/// marked.
#[verifier::loop_isolation(false)]
pub fn render_line(state: &SelectionState) -> (r: Vec<(String, bool)>)
    requires
        state@.wf(),
    ensures
        r@.len() == state@.parts.len(),
        forall|i: int|
            0 <= i < r@.len() ==> (#[trigger] r@[i]).0@ == state@.parts[i] && (r@[i].1 <==> i
                == state@.index),
{
    let n: usize = state.path_parts.len();
    let mut r: Vec<(String, bool)> = Vec::new();
    let mut i: usize = 0;
    while i < n
        invariant
            n == state@.parts.len(),
            state@.parts == state.path_parts.deep_view(),
            i <= n,
            r@.len() == i,
            forall|j: int|
                0 <= j < i ==> (#[trigger] r@[j]).0@ == state@.parts[j] && (r@[j].1 <==> j
                    == state@.index),
        decreases n - i,
    {
        let text = state.path_parts[i].clone();
        let selected = i == state.current_index;
        r.push((text, selected));
        i += 1;
    }
    r
}

/// The spec-level view of an optional configuration string.
pub open spec fn name_view(name: Option<&str>) -> Option<Seq<char>> {
    match name {
        Option::Some(s) => Option::Some(s@),
        Option::None => Option::None,
    }
}

/// The keymap a configuration value selects: `emacs` selects the Emacs
/// keymap, everything else (the value `vim`, an unknown value, or none at
/// all) the Vim keymap.
pub open spec fn keymap_for_name(name: Option<Seq<char>>) -> Keymap {
    match name {
        Option::Some(s) => if s == "emacs"@ {
            Keymap::Emacs
        } else {
            Keymap::Vim
        },
        Option::None => Keymap::Vim,
    }
}

/// Whether a configuration value is recognized; an unrecognized one still
/// selects the Vim keymap, but deserves a warning.
pub open spec fn name_recognized(name: Option<Seq<char>>) -> bool {
    match name {
        Option::Some(s) => s == "emacs"@ || s == "vim"@,
        Option::None => true,
    }
}

/// Character-wise string equality.
#[verifier::loop_isolation(false)]
fn str_eq(a: &str, b: &str) -> (r: bool)
    ensures
        r == (a@ == b@),
{
    let n: usize = a.unicode_len();
    if n != b.unicode_len() {
        return false;
    }
    let mut i: usize = 0;
    while i < n
        invariant
            n == a@.len(),
            n == b@.len(),
            i <= n,
            forall|j: int| 0 <= j < i ==> a@[j] == b@[j],
        decreases n - i,
    {
        if a.get_char(i) != b.get_char(i) {
            return false;
        }
        i += 1;
    }
    proof {
        assert(a@ =~= b@);
    }
    true
}

/// The keymap the configuration value selects, and whether the value was
/// recognized.
pub fn keymap_from_name(name: Option<&str>) -> (r: (Keymap, bool))
    ensures
        r.0 == keymap_for_name(name_view(name)),
        r.1 == name_recognized(name_view(name)),
{
    match name {
        Option::None => (Keymap::Vim, true),
        Option::Some(s) => {
            if str_eq(s, "emacs") {
                (Keymap::Emacs, true)
            } else if str_eq(s, "vim") {
                (Keymap::Vim, true)
            } else {
                (Keymap::Vim, false)
            }
        },
    }
}

} // verus!
