//! Codec and address-pattern matcher for the Open Sound Control (OSC)
//! binary protocol: decoding byte buffers into typed messages and bundles,
//! encoding them back to the exact wire form, and matching glob-style
//! address patterns against concrete addresses.

pub mod decoder;
pub mod encoder;
pub mod errors;
pub mod laws;
pub mod matcher;
pub mod types;
pub mod wire;

pub use decoder::decode;
pub use decoder::decode_message;
pub use encoder::encode;
pub use errors::OscError;
pub use matcher::Matcher;
pub use matcher::compile_pattern;
pub use types::Bundle;
pub use types::Message;
pub use types::OscColor;
pub use types::OscMidiMessage;
pub use types::Packet;
pub use types::TimeTag;
pub use types::Value;
