//! The command layer of a terminal chat client: lexing a typed command line
//! into tokens, writing tokens back as a line, and binding tokens to the
//! arguments that a command declares. Beside it, the paging through
//! message archives.

pub mod bind;
pub mod command;
pub mod decode;
pub mod escape;
pub mod lexer;
pub mod mods;
pub mod roundtrip;
pub mod schema;
pub mod text;
