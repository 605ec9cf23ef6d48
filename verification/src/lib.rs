//! The core of an embeddable interpreter for a scripting language of the
//! Lua family: the lexical scanner, the value domain, and the register
//! machine that runs compiled prototypes on threads of a heap.
//!
//! What each function returns or changes is stated in its contract, over
//! mathematical models of the scanner, the values, the tables and the
//! heap. The machine computes on integers only: arithmetic on binary64
//! numbers, like every call of a function of the embedder, is asked of the
//! embedder through a host frame.

pub mod chars;
pub mod numeral;
pub mod lexer;

pub mod integer;
pub mod number;
pub mod value;
pub mod table;

pub mod error;
pub mod opcode;
pub mod state;
pub mod loader;
pub mod stack;
pub mod upvalue;
pub mod thread;
pub mod vm;
pub mod driver;

pub mod wellformed;
pub mod preservation;
