//! Decoder for MCC ("MacCaption") closed-caption files: a line-oriented text
//! format with a fixed six-field header followed by timecode-tagged caption
//! lines whose payload mixes literal hex-byte pairs with single-letter
//! run-length escape codes.

pub mod mcc;
pub mod payload;
pub mod scan;
pub mod tc;

pub use mcc::Error;
pub use mcc::Header;
pub use mcc::Line;
pub use mcc::MCC;
pub use tc::TimeCode;
pub use tc::TimeCodeFormat;
