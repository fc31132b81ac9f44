//! Access control and text handling for the back end of a desktop editor.
//!
//! The front end asks for files and folders by path. Nothing it names is
//! touched before the path has been resolved by the operating system and the
//! resolved path has been found inside a folder that the user approved.

pub mod allowlist;
pub mod content;
pub mod encoding;
pub mod error;
pub mod language;
pub mod path;
pub mod text;
pub mod tree;
pub mod validate;
pub mod walk;
