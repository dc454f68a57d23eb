pub mod errors;
pub mod instance;
pub mod label;
pub mod linescan;
pub mod matrix;
pub mod numfmt;
pub mod parser;
pub mod psp;
pub mod render;
pub mod supervisor;
pub mod tsptw;
