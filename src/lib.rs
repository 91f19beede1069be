//! Finds revision-hash-like tokens in text, renders them highlighted, and
//! drives the choice of one of them through a small key-driven state machine.

pub mod highlight;
pub mod parser;
pub mod select;
pub mod session;
pub mod text;
