//! Core of a multi-document edit-session manager: tab lifecycle and
//! selection, confirmation-gated destructive actions, an embedded command
//! shell with sandbox rules around directory changes, and persistence of the
//! session shape (open paths and theme index) across restarts.
//!
//! Rendering, window layout and input binding are external collaborators:
//! this crate only consumes the intents they raise and exposes read-only
//! state for them to draw.

pub mod text;
pub mod session;
pub mod confirm;
pub mod shell;
pub mod persist;
pub mod editor;
pub mod files;
pub mod icon;
