use vstd::prelude::*;
use crate::models::cfg::CfgFile;
use crate::models::enums::ModSourceType;

verus! {

/// A loaded mod: its metadata from `info.json` and its parsed locale files.
#[derive(Debug, Clone)]
pub struct ModInfo {
    pub name: String,
    pub version: String,
    pub title: String,
    pub author: String,
    pub source_path: String,
    pub source_type: ModSourceType,
    pub factorio_version: Option<String>,
    pub locale_files: Vec<CfgFile>,
}

} // verus!
