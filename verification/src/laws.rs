//! What the operations of the library are for, stated over their inputs and results: the
//! bytes, numbers and texts themselves.
pub mod chunks;
pub mod command_line;
pub mod engines;
pub mod exchange;
pub mod files;
pub mod numerals;
pub mod session;
pub mod settings;
pub mod starting;
