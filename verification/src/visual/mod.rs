//! Visible signature appearances: fonts, metrics, text encoding and images.

pub mod layout;
pub mod font;
pub mod image;
pub mod appearance;
