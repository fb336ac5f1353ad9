//! A read-only, bounds-checked inspector for Portable Executable images.
//!
//! An [`image::Image`] is a validated view over a byte buffer, either as the
//! file lies on disk or as a loader has laid it out in memory. The directory
//! modules decode what the data directories point at, and [`scanner`] searches
//! the executable sections for byte signatures.

pub mod error;
pub mod bytes;
pub mod image;
pub mod view;
pub mod offsets;
pub mod relocs;
pub mod order;
pub mod exports;
pub mod imports;
pub mod delay;
pub mod resources;
pub mod tls;
pub mod exception;
pub mod debug;
pub mod load_config;
pub mod security;
pub mod rich;
pub mod mmap;
pub mod scanner;
pub mod pefile;
