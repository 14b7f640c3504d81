//! Interactive parent-directory picker: the verified core.
//!
//! The crate decomposes an absolute path into displayable segments, keeps a
//! selection index driven by keyboard and mouse input, dispatches two
//! keybinding schemes (Vim-like and Emacs-like) through a shared input
//! pipeline, and supports two-key commands (character jumps) via an explicit
//! input-mode state machine.  A thin unverified front end owns the terminal
//! and feeds plain input events into this library.

pub mod dispatch;
pub mod events;
pub mod path_split;
pub mod render;
pub mod selection;
