//! Calibration-capture bookkeeping: the provider node keeps the images
//! captured for camera calibration and empties the store on request.

use vstd::prelude::*;

use crate::matrix::GrayImage;

verus! {

/// Which of the two head cameras an image came from.
pub enum CameraPosition {
    Top,
    Bottom,
}

/// A command from the calibration controller to the capture provider.
pub enum CaptureCommand {
    /// Take one capture from the named camera; stamped with the
    /// controller's request time in milliseconds.
    Capture { request_time_ms: u64, camera: CameraPosition },
    /// Drop every capture collected so far.
    Clear,
}

/// One stored capture: the grayscale image and the camera it came from.
pub struct CameraCalibrationCapture {
    pub image: GrayImage,
    pub camera: CameraPosition,
}

/// The capture provider's state: the captures collected so far.
pub struct CameraCalibrationController {
    pub current_calibration_captures: Vec<CameraCalibrationCapture>,
}

impl CameraCalibrationController {
    pub fn new() -> (r: CameraCalibrationController)
        ensures
            r.current_calibration_captures@.len() == 0,
    {
        CameraCalibrationController { current_calibration_captures: Vec::new() }
    }

    /// Handle one cycle's command: a clear empties the store, anything
    /// else leaves it untouched.
    pub fn cycle(&mut self, capture_command: &Option<CaptureCommand>)
        ensures
            match capture_command {
                Some(CaptureCommand::Clear) => final(self).current_calibration_captures@.len()
                    == 0,
                _ => final(self).current_calibration_captures@ == old(
                    self,
                ).current_calibration_captures@,
            },
    {
        match capture_command {
            Some(CaptureCommand::Clear) => {
                self.current_calibration_captures.clear();
            },
            _ => {},
        }
    }

    /// Store one capture.
    pub fn push_capture(&mut self, capture: CameraCalibrationCapture)
        ensures
            final(self).current_calibration_captures@ == old(
                self,
            ).current_calibration_captures@.push(capture),
    {
        self.current_calibration_captures.push(capture);
    }
}

} // verus!
