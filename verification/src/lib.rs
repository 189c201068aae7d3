//! Helpers for small desktop dialogs: selection menus, geometry for
//! centering and sizing widgets, a text-buffer editor model, and parsing
//! of user-typed input.
//!
//! The windowing toolkit itself (widget construction, drawing, the event
//! loop) is an opaque collaborator: the logic here works on plain values
//! that a thin driver hands in and reads back.

pub mod editor;
pub mod error;
pub mod geometry;
pub mod input;
pub mod selection;
