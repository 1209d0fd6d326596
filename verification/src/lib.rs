//! Package-resolution and artifact-extraction pipeline: resolves a package
//! name against per-architecture repository indices, walks the package
//! archive's nested payload, and produces numbered native-library artifacts
//! together with a file-name mapping manifest and a symlink manifest for
//! every target architecture.

pub mod bytes;
pub mod errors;
pub mod index;
pub mod archive;
pub mod visitor;
pub mod plan;
