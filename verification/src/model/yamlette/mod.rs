pub mod base91;
pub mod env;
pub mod incognitum;
pub mod literal;
