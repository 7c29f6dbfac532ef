//! Desktop entries for installed AppImage applications: reading and writing
//! the `.desktop` text of an entry, and the decisions of a scan over the
//! applications directory, with their contracts proved.
pub mod text;
pub mod desktop_file_builder;
pub mod entry_laws;
pub mod desktop_file_helpers;
pub mod app_database;
