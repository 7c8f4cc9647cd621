//! A class-file reader and a small bytecode interpreter for the entry method of one class.

pub mod error;
pub mod class;
pub mod read_class;
pub mod operation;
