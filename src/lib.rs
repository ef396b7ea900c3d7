//! Streaming archive extraction and building: the decisions that turn a
//! forward-only sequence of archive entries into filesystem work, and the
//! naming rules used when a directory tree is packed into an archive; and the
//! translation tables and language settings of the interface.

pub mod error;
pub mod entry_path;
pub mod extract;
pub mod packing;
pub mod i18n;
pub mod settings;
