//! A compiler for GameMaker: Studio 1.4 projects, with its behaviour stated in
//! contracts and proved.

pub mod artifact;
pub mod assets;
pub mod audio;
pub mod builds;
pub mod bytes;
pub mod cache;
pub mod cache_laws;
pub mod chunk_laws;
pub mod compile;
pub mod config;
pub mod digest;
pub mod encoding;
pub mod extensions;
pub mod gml;
pub mod identifiers;
pub mod inspection;
pub mod layout;
pub mod loading;
pub mod masks;
pub mod names;
pub mod package;
pub mod path;
pub mod project;
pub mod references;
pub mod resource_chunks;
pub mod resources;
pub mod runner;
pub mod settings;
pub mod spelling_laws;
pub mod text;
pub mod textures;
pub mod wad;
pub mod wad_laws;
pub mod xml;
