//! Localisation, plugin-message and build-target logic of a small plugin host,
//! with the rules of its language files proved.

pub mod text;
pub mod lang_file;
pub mod table;
pub mod locale;
pub mod i18n;
pub mod plugin;
pub mod debug;
pub mod build_targets;
