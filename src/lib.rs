//! Flattening of LaTeX sources: `\input` and `\include` directives are
//! replaced, depth first, by the text of the files they name.
//!
//! The library does no I/O. What is known of the file system is handed to
//! it in a [`FileTable`]; where an expansion needs a path that the table
//! does not know yet, it says so, and the caller probes that path, records
//! what it found and asks again.

pub mod text;
pub mod directive;
pub mod paths;
pub mod files;
pub mod resolve;
pub mod expand;
pub mod laws;

pub use directive::{find_directive, Directive};
pub use expand::{expand_latex_content, expand_latex_file, ExpandError, Expansion};
pub use files::{FileState, FileTable};
pub use resolve::{resolve_latex_file_path, Resolution};
