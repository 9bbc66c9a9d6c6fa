//! Duckvert: a local file converter.
//!
//! The library holds the decisions of the converter: which extensions are
//! understood and to which family of formats they belong, how a conversion
//! from one format to another is routed (directly, or through an
//! intermediate format), how output files are named so that nothing is
//! overwritten, how text is laid out on PDF pages and how the text of the
//! pages of a PDF document is assembled. The work on files, on external
//! programs and on the drawing of PDF pages is done by the program around it.
pub mod text;
pub mod category;

pub mod paths;
pub mod route;
pub mod conversion;
pub mod search;
pub mod layout;
pub mod pdf_text;
pub mod image_conv;
pub mod session;
