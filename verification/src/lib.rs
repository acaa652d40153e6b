//! A codec for the RESP wire protocol: typed frames, their byte encoding, and
//! incremental decoding from a growing receive buffer.
//!
//! A frame is one protocol value. Its first byte, the marker, tells its kind;
//! a terminator line or a declared length tells where it ends. Decoding never
//! consumes part of a frame: a buffer that does not yet hold a whole frame is
//! reported as not complete and left as it is.
//!
//! - `resp::model` holds the frame as a mathematical value and the bytes that
//!   it is written as; `resp::frame` and the modules of the kinds hold the
//!   executable types.
//! - `resp::encode` writes frames; `resp::length` measures the frame at the
//!   head of a buffer without reading it; `resp::decode` reads it;
//!   `resp::stream` takes one frame at a time out of a receive buffer.
//! - `resp::laws` and `resp::extend` prove what holds of the three together:
//!   what was written reads back, a frame that is cut short is not complete,
//!   measuring and decoding agree, and more bytes never change a verdict
//!   other than "not complete".
//! - `cmd` reads commands out of decoded arrays.

pub mod cmd;
pub mod resp;

pub use cmd::hmap::{HGet, HGetAll, HSet};
pub use cmd::map::{Get, SetCommand};
pub use cmd::{extract_args, validate_command, Command, CommandError};
pub use resp::array::{RespArray, RespNullArray};
pub use resp::bulk_string::{BulkString, RespNullBulkString};
pub use resp::decode::RespDecode;
pub use resp::double::RespDouble;
pub use resp::encode::{RespEncode, BUF_CAP};
pub use resp::error::RespError;
pub use resp::frame::RespFrame;
pub use resp::length::{calc_total_length, parse_length};
pub use resp::line::{extract_simple_frame_data, find_crlf};
pub use resp::map::RespMap;
pub use resp::model::{Frame, RespValue};
pub use resp::null::RespNull;
pub use resp::set::RespSet;
pub use resp::simple_error::SimpleError;
pub use resp::simple_string::SimpleString;
pub use resp::stream::try_decode_one;
