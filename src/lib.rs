//! Decoding of METAR aviation weather reports into typed records.
pub mod scan;
pub mod optional_data;
pub mod units;
pub mod pressure;
pub mod temprature;
pub mod wind;
pub mod obscuration;
pub mod metar;
