//! Parsing and validation of `.vnv` files: assignments of keys, each under
//! the decorators that constrain its value.
//!
//! [`parsing::parse`] scans a file in one pass, gives each key a typed value,
//! holds it to its decorators and gathers the keys with the errors and
//! warnings about the file. [`decorators`] holds the registry of the
//! decorators and what each of them asks of a value. [`commands`] computes
//! what the commands of the tool show and write. Numbers are read and
//! compared by an [`numeric::Arithmetic`] that the caller brings.

pub mod commands;
pub mod decorators;
pub mod numeric;
pub mod parsing;
pub mod text;
pub mod util;
