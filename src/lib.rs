pub mod text;
pub mod token;
pub mod lexer;
pub mod fuzz;
pub mod oracle;
