//! Construction of the execution environment for a pinned toolchain
//! selection: the ordered bin-directory list, the derived search-path
//! string, and provenance-aware resolution of companion-tool versions.

pub mod platform;
pub mod search_path;
pub mod version;

pub use platform::{Error, Image, LayoutDirs, Mode, Source, Sourced, ToolKind, ToolVersion};
pub use version::Version;
