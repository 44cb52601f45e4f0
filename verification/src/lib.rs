//! A private writing desk: the text, the shelves, the vault and the screens of
//! the QuietWrite editor, as verified state machines over plain values.
use vstd::prelude::*;

pub mod app;
pub mod arguments;
pub mod book;
pub mod conduct;
pub mod config;
pub mod document;
pub mod framebuffer;
pub mod handle;
pub mod hex;
pub mod html;
pub mod keys;
pub mod laws;
pub mod order;
pub mod outline;
pub mod page;
pub mod path;
pub mod scene;
pub mod session;
pub mod shelf;
pub mod status;
pub mod terminal;
pub mod text;
pub mod theme;
pub mod tui;
pub mod vault;
pub mod web_request;
pub mod web_share;
pub mod wrap;

verus! {

} // verus!
