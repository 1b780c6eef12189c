pub mod chartext;
pub mod download;
pub mod filetype;
pub mod parse;
pub mod path_detection;
pub mod segment;
pub mod segment_optimizer;
pub mod writer;
