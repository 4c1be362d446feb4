//! Per-platform monitors.  The raw enumeration of connected hardware is an
//! unverified collaborator; what stands here is each platform's decision
//! logic on the plain values it reads: path promotion, identifier parsing,
//! serial extraction.

pub mod linux;
pub mod macos;
pub mod windows;
