//! Verified core of a translator for Factorio mod locale files: the `.cfg`
//! format, the glossary, vanilla matching, the planning of translation runs
//! and the rules of the translation engines.
use vstd::prelude::*;

pub mod commands;
pub mod models;
pub mod services;
pub mod string_map;
pub mod text;

verus! {
} // verus!
