//! Decision and formatting logic of a desktop agent's native command layer:
//! shell routing, interpreter selection, working-directory confinement,
//! file-name search, mail rendering and the server registry.
use vstd::prelude::*;

pub mod text;
pub mod shell;
pub mod runner;
pub mod glob;
pub mod sorting;
pub mod mail;
pub mod email;
pub mod pathguard;
pub mod mcp;
pub mod http;
pub mod files;
pub mod laws;

verus! {

} // verus!
