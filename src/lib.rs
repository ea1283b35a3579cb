//! Sample formats, sweep schedules and segment planning for synthesising a
//! moving sound by overlap-add convolution.

pub mod angles;
pub mod dtype;
pub mod plan;
pub mod words;

pub use angles::{calc_angles, calc_angles_tenths, sweep_angles};
pub use dtype::DType;
pub use plan::{SegmentPlan, SynthError};
pub use words::{decode_i16s, decode_words, encode_i16s, encode_words};
