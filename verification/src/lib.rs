//! Finds what a Dart project no longer uses: source files that nothing
//! imports, registered assets and declared dependencies that no source file
//! names, localised labels that no source file refers to, and types that are
//! registered with the service locator and never retrieved.
//!
//! The library reads no file. A [`walker::Walker`] asks for the files it has
//! to see, one at a time, starting at the entry file and following the
//! imports; [`tree::walk`] answers from a project held in memory. What the
//! walk comes to is stated in [`laws`].

pub mod assets;
pub mod cli;
pub mod laws;
pub mod localisation;
pub mod locator;
pub mod machine;
pub mod model;
pub mod parser;
pub mod paths;
pub mod pubspec;
pub mod reach;
pub mod registry;
pub mod report;
pub mod resolver;
pub mod sequences;
pub mod text;
pub mod tree;
pub mod util;
pub mod walker;
