//! Userspace chroot: confined path resolution below a root directory.
//!
//! The library holds the resolution engine as verified state machines. A
//! driver performs the file-system operations each machine asks for and
//! hands back what it observed.
pub mod path;
pub mod stat;
pub mod error;
pub mod dir;
pub mod link;
pub mod walk;
pub mod full_path;
pub mod chroot;
pub mod laws;
