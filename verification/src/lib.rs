//! Installs SSH public keys onto a remote host's authorized-keys list.
//!
//! The crate is organised around two concerns: resolving the identity (the
//! public-key material to install) from an explicit path, conventional key
//! files, or a running key agent; and preparing an idempotent installation
//! of that material over an external secure transport.

pub mod identity;
pub mod install;
pub mod remote;
pub mod text;
