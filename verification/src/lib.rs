//! A small engine for the layout of documents.
//!
//! From a document tree and a list of stylesheets it computes which
//! properties reach every element, a box with its place and its size for
//! every element that is shown, and from the boxes the rectangles to fill,
//! in the order in which to fill them.
//!
//! The steps, each in a module of its own:
//! - `dom` holds the document tree and `css` the parsed style rules;
//! - `style` runs the cascade and builds the style tree, and `cascade` says
//!   what the cascade comes to;
//! - `layout` holds the geometry of boxes and builds the box tree, `block`
//!   lays the blocks out, and `render` holds the outcome;
//! - `paint` builds the display list and fills the pixels of a canvas;
//! - `window`, `document` and `net` hold what a program around the engine
//!   has to decide: what a window shows and does, where the style rules of a
//!   document are found, and whether a document is fetched or read.
//!
//! All lengths are whole pixels, held in `i64`.  Layout keeps every length
//! and coordinate within `-MAX_LENGTH ..= MAX_LENGTH` and fails where one
//! would leave that range.

pub mod alike;
pub mod block;
pub mod cascade;
pub mod css;
pub mod document;
pub mod dom;
pub mod error;
pub mod layout;
pub mod net;
pub mod paint;
pub mod render;
pub mod style;
pub mod window;
