pub mod completion;
pub mod lang;
pub mod repl;
pub mod report;
pub mod testing;
pub mod text;
