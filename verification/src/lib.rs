//! Decoder for the telemetry frames of a rotating LiDAR sensor.
//!
//! The sensor streams binary frames, each a short header, up to 31 distance
//! samples and the angles between which they were taken. This crate finds the
//! frames in a byte stream, gives each sample its angle, and offers the result
//! frame by frame, point by point, or in batches of whole rotations.

pub mod angle;
pub mod frame;
pub mod decoder;
pub mod lidar;
pub mod rotation;

pub use crate::angle::Angle;
pub use crate::decoder::FrameDecoder;
pub use crate::frame::{AngledScanLine, Frame, ScanLine};
pub use crate::lidar::{FrameStream, RotationStream, ScanLineStream, TransportError, D300};
pub use crate::rotation::RotationAggregator;
