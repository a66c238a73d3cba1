//! A streaming codec for the RESP wire protocol: decoding frames out of an
//! append-only byte buffer without ever consuming a partial frame, and
//! encoding typed frames back into their exact wire bytes.

mod buffer;
mod codec;
mod decimal;
mod error;
mod frame;
mod laws;
mod model;
mod number;

pub use buffer::{extract_simple_data_end_index, find_ctrl_index, parse_length};
pub use codec::{decode_any, encode, predict_length, RespDecode, RespEncode};
pub use decimal::{decimal_char, decimal_text, BigNumber};
pub use error::RespError;
pub use frame::{
    BulkNullString, BulkString, Double, RespFrame, RespFrameArray, RespNullArray, SimpleError,
    SimpleNull, SimpleString,
};
pub use laws::{
    clean_lines, law_decimal_text_clean, law_incremental, law_non_negative_sign,
    law_prefix_incomplete, law_round_trip, no_crlf, reads_back, round_trips,
};
pub use model::{big_line, parse, predict, ser, FrameV};
pub use number::{parse_i64, parse_usize};
