//! In-memory data model for a PMX character model editor.
//!
//! The crate holds the pure core of the editor: the flat, parent-indexed
//! bone list with its derived tree view ([`hierarchy`]), the five-way
//! skinning-weight encoding with its uniform four-slot projection
//! ([`weights`]), and the record types and edit-tracking view state that
//! the hosting user interface drives ([`model`], [`views`]).
//!
//! Windowing, rendering and file parsing are external collaborators: the
//! hosting application converts loader output into the record types here,
//! calls into the core, and writes edits back through the view methods.

pub mod hierarchy;
pub mod model;
pub mod views;
pub mod weights;
