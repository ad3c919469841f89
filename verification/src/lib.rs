//! Launcher core: the decisions, formats and path layouts of a Minecraft launcher.
use vstd::prelude::*;

pub mod client_zip;
pub mod commands;
pub mod digest;
pub mod fabric;
pub mod install;
pub mod launch;
pub mod paths;
pub mod ping;
pub mod profile;
pub mod remote;
pub mod text;

verus! {
} // verus!
