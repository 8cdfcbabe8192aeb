pub mod decoder;
pub mod encoder;
pub mod roundtrip;
pub mod wire;
