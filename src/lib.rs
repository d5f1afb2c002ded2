pub mod isa;
pub mod lex;
pub mod parse;
pub mod assemble;
pub mod poki;
pub mod machine;
pub mod emulator;
pub mod devices;
