//! Multipart UR QR code generator: single-frame and animated
//! fountain-coded QR sequences with optional logo overlay.
//!
//! The QR symbol itself comes from the `qrcode` crate, the fountain-coded
//! parts from `bc_ur`, image files from `image` and `gif`; everything from
//! the module matrix to the final pixels is specified and verified here.

mod text;
mod error;
mod color;
mod pixels;
mod correction;
mod qr_matrix;
mod logo;
mod render;
mod quantize;
mod animate;
mod options;

pub use error::Error;
pub use color::Color;
pub use correction::{CorrectionLevel, effective_correction};
pub use logo::{
    DecodedImage, LogoClearShape, LogoLayout, LogoOverlay, decode_image, demultiply_alpha,
    validate_clear_border, validate_rgba_buffer,
};
pub use qr_matrix::{DEFAULT_MAX_MODULES, QrMatrix, check_qr_density, qr_module_count};
pub use render::{
    RenderedImage, nearest_neighbor_scale, render_fits_code, render_from_matrix, render_matrix_overlay,
    render_qr, render_ur_qr,
};
pub use pixels::fill_rect;
pub use quantize::quantize_frame;
pub use animate::{AnimateParams, QrFrame, encode_animated_gif, generate_frames, plan_frame_count};
pub use color::{hex_byte, hex_nibble};
pub use options::{OutputFormat, check_ur_density, frame_file_name, parse_colors};
