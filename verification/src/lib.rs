//! Verified core of a terminal viewer for a vault of markdown notes: the
//! parsing of notes (frontmatter tags, image links, formula and image blocks),
//! markdown and inline TeX rendered to styled text, formulas prepared for
//! MathJax, and the viewer's state, key handling, tag search and preview
//! layout.

pub mod browser;
pub mod formula;
pub mod frontmatter;
pub mod markdown;
pub mod math;
pub mod note;
pub mod parser;
pub mod paths;
pub mod preview;
pub mod text;
pub mod vault;
pub mod viewer;

pub use note::{Note, NoteBlock, NoteImage};
pub use parser::{extract_images, parse_blocks, resolve_link};
pub use vault::{Vault, VaultError};
