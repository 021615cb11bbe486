//! Parsing of HTTP `Range` request headers (bytes unit, RFC 7233) into
//! byte ranges bounded by the size of the resource.
//!
//! [`ByteRange::parse`] takes the value of the header field and the size
//! of the resource, and gives the byte ranges to serve, in the order of the
//! header. It never fails: a header that cannot be read, an empty resource
//! and a header whose ranges all lie outside the resource give no range.
//!
//! ```
//! use range_header::ByteRange;
//!
//! assert_eq!(
//!     ByteRange::parse("bytes=500-600,-100", 10000),
//!     vec![
//!         ByteRange { offset: 500, length: 101 },
//!         ByteRange { offset: 9900, length: 100 },
//!     ]
//! );
//! assert_eq!(ByteRange::parse("invalid input", 10000), vec![]);
//! ```
//!
//! The work is done in two steps. [`tokenize`] reads the text into
//! [`RangeSpec`] values as the grammar in [`grammar`] has it, and
//! [`normalize_all`] holds each of them against the size of the resource.

pub mod byte_range;
pub mod grammar;
pub mod normalize;
pub mod numeral;
pub mod text;

pub use byte_range::ByteRange;
pub use grammar::{tokenize, RangeSpec};
pub use normalize::normalize_all;
