pub mod eww;
pub mod parser;
pub mod round_trip;
pub mod tokenizer;
