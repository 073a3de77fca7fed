//! Builds Mermaid class diagrams from a summary of Rust source files.
//!
//! A source file is described by the plain values in [`syntax`]; the
//! functions of this crate turn those descriptions into the class model of
//! [`model`], find the relationships between classes, and render the model
//! as Mermaid `classDiagram` text.
pub mod model;
pub mod settings;
pub mod mermaid;
pub mod syntax;
pub mod class_map;
pub mod members;
pub mod relationships;
pub mod init_classes;
pub mod diagram;
pub mod discover_types;
pub mod process_file;
pub mod source;
pub mod cli;
pub mod relationship_laws;
pub mod item_laws;
