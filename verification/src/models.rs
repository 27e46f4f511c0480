//! The data that the services read and produce.
pub mod cfg;
pub mod enums;
pub mod glossary;
pub mod mod_info;
pub mod settings;
pub mod translation;
