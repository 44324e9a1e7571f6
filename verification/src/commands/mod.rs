//! What the commands of the tool compute from a parsed file. Reading and
//! writing files and talking to the terminal is left to the program.

pub mod dotenv;
pub mod init;
pub mod check;
pub mod template;
