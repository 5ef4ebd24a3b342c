//! Utilities around the messaging layer: the toolchain auto-install model.

pub mod auto_install;
