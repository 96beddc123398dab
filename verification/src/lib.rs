//! A verified fixed-point signal streaming engine: it loads a column of
//! samples, normalizes them to [-1, 1], and replays them through a noise
//! stage, a lowpass/highpass filter pair and an optional quantizer, one
//! value per fixed-period tick. The surrounding binary does the argument
//! parsing, the file reading, the timer loop and the datagram sends.

pub mod cursor;
pub mod engine;
pub mod errors;
pub mod filter;
pub mod fixed;
pub mod loader;
pub mod noise;
pub mod normalize;
pub mod parse;
