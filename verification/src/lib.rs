pub mod dom;
pub mod globals;
pub mod grammar;
pub mod laws;
pub mod parse;
