//! A QR Code symbol generator: text in, a grid of black and white modules out.
//!
//! The pipeline runs from segment encoding through Reed–Solomon error
//! correction, block interleaving, module placement and masking to the final
//! colour grid.

pub mod array_2d;
pub mod error_correction;
pub mod format;
pub mod mask;
pub mod matrix;
pub mod blocks;
pub mod buffer;
pub mod draw_iterator;
pub mod encoding;
pub mod error;
pub mod qr_version;
pub mod qrcode;
pub mod render;
