//! Camera capture library: YUYV / YU12 / RGB24 to RGB8 conversion with an
//! optional horizontal mirror, the shared-memory camera ring protocol, the
//! Video4Linux2 decisions of the capture loop, and its command line.

pub mod capture;
pub mod cli;
pub mod ring;
pub mod v4l2;
pub mod yuyv;

pub use ring::CameraRingWriter;
pub use yuyv::rgb24_mirror_row;
