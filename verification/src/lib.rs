//! Compilation core of a static-site asset pipeline.
//!
//! Given the script modules of a project and an import map, the crate
//! produces two variants of every module: one for a browser, in which every
//! module specifier is a concrete location, and one for a server-side
//! runtime, which resolves packages by itself.
//!
//! - [`cache`] and [`sources`]: the registry of the sources of one build.
//! - [`import_map`]: the mapping from bare specifier to resolved target.
//! - [`scan`]: a reader that finds the specifiers of a module and the
//!   errors of syntax it can see.
//! - [`compile`]: the dual-target compiler, which takes a parser's verdict.
//! - [`output`]: compiling the files of a project into artifacts.
//! - [`barrier`]: gathering route data until the end of registration.
//! - [`orchestrator`]: the order of a build, as a state machine.
//! - [`diagnostics`]: the text of error messages.
//! - [`path`], [`text`] and [`bytemap`]: paths, byte strings and the map
//!   that the registry and the import map are built on.
//!
//! The crate touches no file and no channel. Its caller reads and writes,
//! and hands the crate what it read. Module text, identifiers, specifiers
//! and paths are byte strings; route slugs and payloads, which the crate
//! only carries, are `String`s.

pub mod barrier;
pub mod bytemap;
pub mod cache;
pub mod compile;
pub mod diagnostics;
pub mod import_map;
pub mod orchestrator;
pub mod output;
pub mod path;
pub mod scan;
pub mod sources;
pub mod text;
