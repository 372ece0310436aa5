//! A reader for book chapters in a fixed-width viewport: chapter markup is
//! turned into styled plain text, and the reading position is tracked across
//! chapters and sessions.

pub mod bookmark;
pub mod clean;
pub mod entities;
pub mod markup;
pub mod paragraphs;
pub mod pattern;
pub mod plain;
pub mod progress;
pub mod reader;
pub mod style;
pub mod text;
pub mod thin;
pub mod tidy;
pub mod whitespace;
