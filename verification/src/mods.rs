//! What the client does besides chatting, extension by extension.

pub mod mam;
