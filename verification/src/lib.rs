//! Control core of a modular-synthesizer module: pulse scheduling (forward,
//! train, free-running clock), analog-parameter scaling, noise generation,
//! and single-owner arbitration of a shared output peripheral.

pub mod clock;
pub mod fhx;
pub mod params;
pub mod noise;
pub mod sim;
pub mod traits;
