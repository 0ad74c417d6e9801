//! Decoding of SMPTE ST-2038 ancillary data packet headers.
//!
//! The header is a bit-packed structure read most significant bit first.
//!
//! - [`header`] holds the decoder, [`header::AncDataHeader::from_slice`], and
//!   [`header::decode_header`], which says what every byte sequence decodes
//!   to. The decoder is proved to compute exactly that.
//! - [`bits`] is the bit-level model that the description is written over.
//! - [`reader`] is the bit reader that the decoder pulls its fields from. It
//!   is `bitstream_io`'s, and what is stated of it there is taken on trust.
//! - [`encoding`] describes how a header is written, and proves that decoding
//!   gives back what was written.
//! - [`laws`] holds further properties of the format, proved from the
//!   description.

pub mod bits;
pub mod encoding;
pub mod header;
pub mod laws;
pub mod reader;
