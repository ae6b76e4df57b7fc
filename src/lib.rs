//! A verified archive format for backing up a set of files: each file is
//! stored under its normalized relative path in a zstd-compressed tar stream,
//! followed by a YAML manifest of SHA-256 digests that restore checks every
//! file against.

pub mod bindings;

pub mod model;
pub mod paths;
pub mod manifest;
pub mod archive;
pub mod restore;
pub mod backup;
pub mod laws;
pub mod frontmatter;
