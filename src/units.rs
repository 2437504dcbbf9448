//! Single-field decoders: headings, wind speeds, cloud heights, timestamps.
pub mod altitudes;
pub mod timestamp;
pub mod track;
pub mod velocity;
