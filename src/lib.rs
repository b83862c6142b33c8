pub mod engine;
pub mod frame;

pub use engine::{Dht11, Phase, Step};
pub use frame::{checksum, classify_pulse, decode_frame, DhtError, DhtReading};
