//! Recordings that wait to be recognised, and the providers that recognise them.

pub mod entries;
pub mod index_map;
pub mod laws;
pub mod objects;
pub mod outcomes;
pub mod provider;
pub mod recording;
pub mod recordings;
