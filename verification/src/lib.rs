//! Projection of a stream of highlight events into styled text chunks and
//! into a framed raster image.
//!
//! The pipeline is: [`events::resolve`] assigns the active colour to each
//! text span, [`lines::split_lines`] cuts the spans at newlines, and then
//! either [`ansi`] serialises the lines into size-bounded chunks or
//! [`font`], [`metrics`], [`frame`] and [`compose`] lay them out on a
//! canvas, which [`render`] puts together for glyphs that spell the lines
//! (see [`utf8`]). [`highlight`] runs the
//! highlighter in front of the pipeline, [`gate`] admits one render at a
//! time for each identity, and [`message`], [`text_lines`] and
//! [`parse_tree`] read and write what the chat client exchanges with its
//! users.

pub mod palette;
pub mod error;
pub mod stack;
pub mod events;
pub mod lines;
pub mod ansi;
pub mod metrics;
pub mod font;
pub mod utf8;
pub mod canvas;
pub mod frame;
pub mod compose;
pub mod render;
pub mod highlight;
pub mod gate;
pub mod message;
pub mod text_lines;
pub mod parse_tree;
