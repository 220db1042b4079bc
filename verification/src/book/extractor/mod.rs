//! Reading values back out of a volume: a pointer walks its words, and
//! values of plain types are read from the words it points at.
pub mod pointer;
pub mod traits;
