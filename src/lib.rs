pub mod ast;
pub mod byte_lookup;
pub mod text;
pub mod variables;
pub mod visitor;
pub mod utils;
pub mod parse;
pub mod value;
pub mod source;
