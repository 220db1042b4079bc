pub mod binary;
pub mod bool;
pub mod float;
pub mod float_roundtrip;
pub mod integer;
pub mod map;
pub mod merge;
pub mod null;
pub mod omap;
pub mod sequence;
pub mod str;
pub mod timestamp;
pub mod timestamp_roundtrip;
pub mod value;
pub mod yaml;
