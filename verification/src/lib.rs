//! A compiler front end for a small slide-description language: a lexer, a
//! recursive-descent content parser, and a style-resolution engine that merges
//! per-slide style directives against built-in defaults.

use vstd::prelude::*;

pub mod assoc;
pub mod ast;
pub mod error;
pub mod interpreter;
pub mod layout;
pub mod lexer;
pub mod style;
pub mod text;

verus! {

/// Default slide width in pixels, used when no explicit `width` style is given.
pub const SLIDE_WIDTH: u32 = 1920;

/// Default slide height in pixels, used when no explicit `height` style is given.
pub const SLIDE_HEIGHT: u32 = 1080;

} // verus!
