//! The uninstall log's data: its header and its records.

pub mod filerec;
pub mod header;
pub mod paths;

pub use self::header::{
    Header, HeaderParseError, HeaderParseFault, HeaderView, HeaderWriteError, HeaderWriteFault,
    HEADER_SIZE,
};
pub use self::paths::{
    decode_strings, encode_strings, StringDecodeError, StringDecodeFault, StringEncodeError,
    StringEncodeFault,
};
pub use self::filerec::{
    FileRec, FileRecParseError, FileRecParseFault, FileRecView, FileRecWriteError,
    FileRecWriteFault, UninstallRecTyp,
};
pub use crate::winpath::RebaseError;
