//! Styled terminal text: a bracket-tag markup lexer that turns style tags
//! into ANSI escape sequences, and a table renderer that lays styled rows
//! out in a bordered, column-aligned grid.
//!
//! Markup is best effort: a tag that does not resolve is reproduced
//! verbatim, and `apply_styles` never fails. The table sizes its columns by
//! visible width, so escape bytes never count toward alignment.

pub mod lexer;
pub mod table;
pub mod text;
