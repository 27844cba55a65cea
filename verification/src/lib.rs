//! Deployment of a compiled service to a remote host: the paths it uses, the
//! remote requests it issues, the recursive mirroring of local files and the
//! fail-fast order of the steps of one run.

pub mod chroot;
pub mod crateinfo;
pub mod path;
pub mod sequence;
pub mod service;
pub mod session;
pub mod transfer;
pub mod tree;
