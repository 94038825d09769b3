//! A small interactive command shell, as a verified library.
//!
//! The library holds everything the shell decides: how a raw input line is
//! split into tokens, how the first token selects a built-in directive or an
//! external program, how the alias table is mutated and queried, and how the
//! alias file format is parsed and rendered. The surrounding binary only moves
//! bytes: it reads lines, runs programs, and reads and writes files, acting on
//! the `Action` values this library returns.

pub mod alias;
pub mod dispatch;
pub mod persist;
pub mod shell;
pub mod tokens;
