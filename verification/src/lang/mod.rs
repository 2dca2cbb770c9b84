pub mod ast;
pub mod envs;
pub mod scan_laws;
pub mod scanner;
pub mod vals;
pub mod parser;
pub mod parse_laws;
pub mod eval;
pub mod laws;
pub mod equality;
