//! A small text browser engine: markup is split into tokens, words are shaped
//! and wrapped into lines, and the visible part of the result is composited
//! into a pixel buffer that the caller owns.

pub mod browser;
pub mod font;
pub mod http;
pub mod layout;
pub mod render;
pub mod shape;
pub mod style;
pub mod text;
pub mod token;
pub mod url;
