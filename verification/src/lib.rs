//! Integer core of an ADC oversampling and effective-resolution simulator.
use vstd::prelude::*;

pub mod adc;
pub mod cli;
pub mod config;
pub mod experiment;
pub mod histogram;
pub mod oversample;
pub mod report;
pub mod rng;
pub mod signal;
pub mod svg;
mod text;

verus! {

} // verus!
