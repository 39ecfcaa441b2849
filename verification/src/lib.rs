//! One document for a whole codebase: which files of a directory tree go
//! into it, what is shown of each, and how the result is written out.
//!
//! The library decides and computes; it reads no file and writes none. A
//! program around it walks the directory, reads the files and hands over
//! what it found, and writes what the library renders.
//!
//! - [`discovery`] picks the files of a walk and sets up what the walk skips.
//! - [`transform`] turns the bytes of one file into its artifact.
//! - [`language`] and [`sanitize`] give a file its tag and redact secrets.
//! - [`tree`] draws the directory tree.
//! - [`aggregate`] gathers the artifacts of a run and their totals.
//! - [`render`] writes the result in each of the encodings.
//! - [`safety`] decides whether an existing output may be overwritten.
//! - [`path`], [`order`], [`sorting`] and [`text`] serve the others.

pub mod aggregate;
pub mod discovery;
pub mod language;
pub mod order;
pub mod path;
pub mod render;
pub mod safety;
pub mod sanitize;
pub mod sorting;
pub mod text;
pub mod transform;
pub mod tree;
