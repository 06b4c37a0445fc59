//! Statistics over a comma-separated text encoding of an RGB image:
//! `width,height,r0,g0,b0,r1,g1,b1,...`.
pub mod fields;
pub mod tally;
pub mod texture;

pub use fields::{parse_field, split_fields, FieldRange};
pub use tally::{color_summary, Rgb};
pub use texture::{analyze_fields, analyze_texture, Channel, TextureError, TextureStats};
pub mod laws;
