pub mod book;
pub mod composer;
pub mod face;
pub mod model;
pub mod orchestra;
pub mod reader;
pub mod sage;
