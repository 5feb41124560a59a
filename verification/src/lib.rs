//! Idempotent installation and removal of tool-owned text regions inside
//! files that are otherwise owned by the user: a marker-delimited block
//! patcher for line-oriented hook scripts, a header/footer section patcher
//! for a configuration file, and the policies around missing files, hook
//! path resolution, and the install/uninstall tables built on top of them.
//!
//! Documents are byte vectors; every function that computes new file
//! contents is specified against a sequence-level model of its input.

pub mod block;
pub mod bytes;
pub mod hooks;
pub mod lines;
pub mod section;
pub mod settings;
pub mod setup;
