//! Sets up a Gradle project that runs an installed version of Minecraft.
//!
//! The library reads the version's descriptor and its asset index, and plans
//! the copies that bring the game's assets and libraries into the project.
//! It touches no file: a caller reads the texts, finds out which libraries
//! the local store holds, and carries the plans out.

pub mod assets;
pub mod document;
pub mod error;
pub mod gradle;
pub mod json;
pub mod layout;
pub mod libraries;
pub mod path;
pub mod platform;
pub mod text;
pub mod version;
