//! Decoder for the FITS (Flexible Image Transport System) file format.
//!
//! A FITS file is a sequence of header-data units. Each unit starts with a
//! header of 80-byte keyword records, grouped in blocks of 2880 bytes, and may
//! carry an image, an ASCII table or a binary table. This crate decodes such
//! units from a byte buffer; every function states what it returns in its
//! contract.

pub mod bintable;
pub mod endian;
pub mod errors;
pub mod fits;
pub mod hdu;
pub mod header;
pub mod image;
pub mod keyword;
pub mod strings;
pub mod table;
pub mod tdisp;
pub mod text;
pub mod tform;
pub mod types;
pub mod utils;
pub mod wcs;

pub use bintable::BinTable;
pub use bintable::BinTableValue;
pub use errors::FITSError;
pub use fits::FITS;
pub use hdu::HDU;
pub use header::FITSBlock;
pub use header::Header;
pub use header::HeaderIntoIterator;
pub use image::Image;
pub use image::Pixel;
pub use keyword::Keyword;
pub use keyword::KeywordValue;
pub use table::Table;
pub use table::TValue;
pub use tdisp::TDisp;
pub use tform::TForm;
pub use tform::TFormType;
pub use types::Bitpix;
pub use types::HDUData;
pub use types::Real;
pub use wcs::Matrix;
pub use wcs::WCS;
