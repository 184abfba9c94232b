//! Chess studies as printable sheets of diagrams.
//!
//! A study arrives as tagged text. The library reads the positions out of
//! it, decodes each board, plans the cells of each diagram, decodes the
//! images of the pieces, and lays the diagrams out on pages, nine to a page,
//! with captions and coordinates. Painting the pixels and writing the file
//! are left to the program that uses it.

pub mod board;
pub mod diagram;
pub mod glyph;
pub mod layout;
pub mod pieces;
pub mod study;
pub mod study_laws;
pub mod text;
