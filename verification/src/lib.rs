//! A streaming downsampling stage: averages fixed-shape payloads over a
//! configurable window and forwards raw payloads for archival.

pub mod channel;
pub mod payload;
pub mod processing;
pub mod stage;

pub use payload::Payload;
pub use payload::CHANNELS;
