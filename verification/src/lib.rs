//! Resolves the variables of a program, and the functions that contain an address, from the
//! debugging information of one of its units.
pub mod answers;
pub mod attributes;
pub mod bounds;
pub mod cache;
pub mod chain;
pub mod depth;
pub mod describe;
pub mod described;
pub mod dwarf;
pub mod effects;
pub mod error;
pub mod evaluation;
pub mod frame;
pub mod functions;
pub mod kept;
pub mod laws;
pub mod location;
pub mod names;
pub mod namespaces;
pub mod operations;
pub mod reader;
pub mod replies;
pub mod stored;
pub mod target;
pub mod text;
pub mod tree;
pub mod types;
pub mod units;
pub mod variable;
pub mod variants;
