//! Inline colour markup for terminal text.
//!
//! A text may carry styled spans written as `{<styles> <content>}`, where
//! `<styles>` is one style name or several joined by `.`. The crate turns
//! such a text into one in which every span opener is an ANSI SGR escape
//! sequence and every `}` is the reset sequence. `$$` and `${` stand for a
//! literal `$` and a literal `{`.
//!
//! The work is done in one pass over the bytes of the text. Styling is flat:
//! a `}` resets all attributes, however many spans were opened before it.
//! The pass is not meant to be repeated on its own output.
//!
//! ```
//! use ansi_markup::scan_markup;
//!
//! let coloured = scan_markup(b"{bold.red Alert}");
//! assert_eq!(coloured, Ok(b"\x1b[1;31mAlert\x1b[0m".to_vec()));
//! ```

pub mod bytes;
pub mod composer;
pub mod error;
pub mod laws;
pub mod scanner;
pub mod style;
pub mod transform;

pub use bytes::index;
pub use composer::get_ansi_code_for_color_string;
pub use error::AnsiError;
pub use scanner::{scan_markup, ScanState, Scanner};
pub use style::lookup_style;
pub use transform::{ansi_string, transform_literal, Argument};
