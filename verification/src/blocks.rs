//! Decoders for the bodies of the block types.

pub mod enhanced_packet;
