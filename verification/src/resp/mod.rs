//! Frames, their wire format, and the functions that read and write it.

pub mod array;
pub mod buffer;
pub mod bulk_string;
pub mod decode;
pub mod double;
pub mod encode;
pub mod error;
pub mod extend;
pub mod frame;
pub mod laws;
pub mod length;
pub mod line;
pub mod map;
pub mod marker;
pub mod model;
pub mod null;
pub mod number;
pub mod set;
pub mod simple_error;
pub mod simple_string;
pub mod stream;
pub mod text;
