pub mod input;
pub mod lexer;
pub mod model;
pub mod decimal;
pub mod laws;
