//! Detection, decoding and encoding of messages hidden in zero-width and
//! invisible Unicode code points.

pub mod analysis;
pub mod auto;
pub mod chars;
pub mod decode;
pub mod encode;
pub mod laws;
pub mod mcp;
pub mod presets;
pub mod radix;
pub mod ranking;
pub mod render;
pub mod report;
pub mod score;
pub mod sniff;
pub mod text;
