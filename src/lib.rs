//! An OpenQASM 3 circuit core: a flat circuit representation, exact folding
//! of gate parameters, a builder from a validated program tree, and a text
//! exporter.
pub mod ir;
pub mod expr;
pub mod text;
pub mod ast;
pub mod builder;
pub mod export;
