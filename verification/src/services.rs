//! The services of the translator.
pub mod cfg_parser;
pub mod cfg_roundtrip;
pub mod formatter;
pub mod glossary_service;
pub mod localization_service;
pub mod logging;
pub mod mod_loader;
pub mod orchestrator;
pub mod settings_service;
pub mod translation_engines;
pub mod translation_history_service;
pub mod vanilla_translation_service;
