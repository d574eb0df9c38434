//! Verified core of a Heston-model calibration toolkit: the integer and text
//! logic that drives the numerical engine (search plan, candidate ranking,
//! Simpson weights, command line, quote files).

pub mod calibration;
pub mod cli;
pub mod simpson;
pub mod surface_file;
pub mod text;
