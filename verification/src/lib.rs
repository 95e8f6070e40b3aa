//! Verified core of a field-calibration vision pipeline for a humanoid
//! soccer robot.
//!
//! The centre circle of the field is detected from a single camera image:
//! a source channel is extracted from the packed 4:2:2 camera format
//! ([`edge_source`]), a Canny-style edge detector (box-filter Gaussian
//! blur, Sobel gradients, non-maximum suppression with hysteresis) on the
//! integer convolution engine ([`conv`], [`canny`]) turns it into edge
//! points, and a circle-RANSAC stage fits the circle on the ground plane.
//! All integer image arithmetic lives here and is verified; the
//! floating-point geometry of the fitting stage is driven by an
//! unverified front end that calls the verified bookkeeping in
//! [`ransac`].  The smaller modules hold the verified state handling of
//! the calibration nodes around the detector and of two neighbours in
//! the same stack (a walking-engine mode and the replay timeline).

pub mod matrix;
pub mod conv;
pub mod edge_source;
pub mod canny;
pub mod ransac;
pub mod segments;
pub mod calibration;
pub mod capture;
pub mod walking;
pub mod replay;
