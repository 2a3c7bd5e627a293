//! Data model and persistence rules of a hat asset bundle: the typed elements
//! of a hat, their animations, the sprite-sheet layout of imported frames,
//! and the decisions behind loading, saving and exporting a project.
pub mod ids;
pub mod text;
pub mod path_utils;
pub mod ui_text;
pub mod animations;
pub mod hats_data;
pub mod image;
pub mod hats;
pub mod persistence;
pub mod archive;
pub mod file_watcher;
pub mod name_getter;
pub mod hat_name_getter;
pub mod console;
pub mod tabs;
