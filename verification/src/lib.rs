//! A library for reading and editing markdown notes organised by headings.
//!
//! A note's text lives in a rope-backed buffer.  Sections of the note are
//! located by heading name and nesting level, and support body extraction,
//! appending rendered markdown, and trimming trailing whitespace.  A vault
//! groups notes on disk and resolves note names to paths; all file access
//! is left to the caller.

pub mod buffer;
pub mod casefold;
pub mod date;
pub mod headings;
pub mod markdown;
pub mod note;
pub mod section;
pub mod vault;

pub use note::Note;
pub use note::NoteError;
pub use section::Section;
pub use vault::Vault;
pub use vault::VaultError;
pub use date::Date;
