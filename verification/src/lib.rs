//! An interactive editor for the managed block of a hosts file.
//!
//! The crate is organised leaf-first:
//! - `text`: character-level helpers shared by the codec (lines, tokens).
//! - `domain`: the domain entries and their well-formedness.
//! - `list`: pure operations on an ordered list of domains.
//! - `codec`: locating, parsing and regenerating the managed region of a
//!   hosts document.
//! - `pass`: the random confirmation phrase.
//! - `editor`: the key-driven state machine of the interactive session.
//! - `render`: the abstract render plan that a terminal front end paints.
//! - `session`: the start-up decisions taken from command-line flags.

pub mod domain;

pub mod text;

pub mod codec;

pub mod list;

pub mod pass;

pub mod editor;

pub mod render;

pub mod session;
