//! The core of a music recogniser: the list of saved recordings and what is written to
//! their database, and what the main window shows.

pub mod db;
pub mod model;
pub mod recognizer;
pub mod window;
