use center_circle::calibration::{CalibrationMeasurementDetection, CreationContext};
use center_circle::capture::{CameraCalibrationController, CameraPosition, CaptureCommand,
    CameraCalibrationCapture};
use center_circle::matrix::{GrayImage, TransposedMatrix};
use center_circle::ransac::{RansacCircle, RansacCircleWithTransformation};
use center_circle::replay::{join_timing, RecordingIndexTiming};
use center_circle::walking::{Catching, StepState, WalkingEngineParameters};

#[test]
fn ransac_needs_three_points_empty() {
    let ransac: RansacCircle<(i32, i32)> = RansacCircle::new(vec![]);
    assert!(!ransac.has_candidate_support());
    assert_eq!(ransac.unused_points.len(), 0);
}

#[test]
fn ransac_needs_three_points_single() {
    let ransac = RansacCircle::new(vec![(5, 5)]);
    assert!(!ransac.has_candidate_support());
    assert_eq!(ransac.unused_points, vec![(5, 5)]);
}

#[test]
fn inlier_mask_partitions_in_order() {
    let mut ransac = RansacCircle::new(vec![(0, 0), (1, 1), (2, 2), (3, 3), (4, 4)]);
    let mask = vec![true, false, true, false, true];
    let used = ransac.apply_inlier_mask(&mask);
    assert_eq!(used, vec![(0, 0), (2, 2), (4, 4)]);
    assert_eq!(ransac.unused_points, vec![(1, 1), (3, 3)]);
    assert_eq!(used.len() + ransac.unused_points.len(), 5);
}

#[test]
fn transformation_drops_unprojected_points() {
    let points = vec![(0, 0), (1, 1), (2, 2), (3, 3)];
    let transformed = vec![Some((10, 10)), None, Some((30, 30)), Some((40, 40))];
    let ransac = RansacCircleWithTransformation::new(points, transformed);
    assert_eq!(ransac.unused_points_original, vec![(0, 0), (2, 2), (3, 3)]);
    assert_eq!(ransac.unused_points_transformed, vec![(10, 10), (30, 30), (40, 40)]);
    assert!(ransac.has_candidate_support());
}

#[test]
fn transformation_mask_keeps_frames_aligned() {
    let points = vec![(0, 0), (1, 1), (2, 2)];
    let transformed = vec![Some((10, 10)), Some((20, 20)), Some((30, 30))];
    let mut ransac = RansacCircleWithTransformation::new(points, transformed);
    let (used_original, used_transformed) = ransac.apply_inlier_mask(&vec![true, true, false]);
    assert_eq!(used_original, vec![(0, 0), (1, 1)]);
    assert_eq!(used_transformed, vec![(10, 10), (20, 20)]);
    assert_eq!(ransac.unused_points_original, vec![(2, 2)]);
    assert_eq!(ransac.unused_points_transformed, vec![(30, 30)]);
}

#[test]
fn detection_gate_waits_for_cooldown_and_trigger() {
    let mut node = CalibrationMeasurementDetection::new(CreationContext {});
    assert!(node.should_process(500, 100, true, false));
    assert!(!node.should_process(500, 1000, true, false));
    assert!(!node.should_process(500, 100, false, false));
    assert!(node.should_process(500, 100, false, true));
    node.mark_processed(500);
    assert!(!node.should_process(550, 100, true, false));
    assert!(node.should_process(600, 100, true, false));
}

#[test]
fn clear_command_empties_the_capture_store() {
    let mut controller = CameraCalibrationController::new();
    let image = GrayImage::new(2, 2, vec![0, 1, 2, 3]).expect("dimensions are consistent");
    controller.push_capture(CameraCalibrationCapture { image, camera: CameraPosition::Top });
    assert_eq!(controller.current_calibration_captures.len(), 1);

    controller.cycle(&Some(CaptureCommand::Capture {
        request_time_ms: 7,
        camera: CameraPosition::Bottom,
    }));
    assert_eq!(controller.current_calibration_captures.len(), 1);
    controller.cycle(&None);
    assert_eq!(controller.current_calibration_captures.len(), 1);
    controller.cycle(&Some(CaptureCommand::Clear));
    assert_eq!(controller.current_calibration_captures.len(), 0);
}

#[test]
fn join_timing_spans_all_indices() {
    let indices = vec![
        None,
        Some(RecordingIndexTiming {
            first_timestamp_ns: 200,
            last_timestamp_ns: 900,
            last_duration_ns: 50,
        }),
        Some(RecordingIndexTiming {
            first_timestamp_ns: 100,
            last_timestamp_ns: 700,
            last_duration_ns: 500,
        }),
    ];
    let range = join_timing(&indices);
    assert_eq!(range.begin_ns, 100);
    assert_eq!(range.end_ns, 1200);
}

#[test]
fn join_timing_of_nothing_is_the_epoch() {
    let range = join_timing(&vec![None, None]);
    assert_eq!(range.begin_ns, 0);
    assert_eq!(range.end_ns, 0);
}

#[test]
fn catching_commands_apply_stiffness_per_chain() {
    let catching = Catching::new(StepState {
        planned_leg_positions: vec![100, -200, 300],
        planned_arm_positions: vec![40, 50],
    });
    let parameters = WalkingEngineParameters {
        leg_stiffness_walk_per_mille: 900,
        arm_stiffness_per_mille: 300,
    };
    let commands = catching.compute_commands(&parameters);
    assert_eq!(commands.len(), 5);
    let positions: Vec<i32> = commands.iter().map(|c| c.position).collect();
    assert_eq!(positions, vec![100, -200, 300, 40, 50]);
    for c in &commands[0..3] {
        assert_eq!(c.stiffness_per_mille, 900);
    }
    for c in &commands[3..5] {
        assert_eq!(c.stiffness_per_mille, 300);
    }
}

#[test]
fn image_constructors_check_their_dimensions() {
    assert!(GrayImage::new(2, 2, vec![0, 1, 2, 3]).is_some());
    assert!(GrayImage::new(2, 2, vec![0, 1, 2]).is_none());
    assert!(GrayImage::new(0, 2, vec![]).is_none());

    assert!(TransposedMatrix::new(3, 2, vec![0i16; 6]).is_some());
    assert!(TransposedMatrix::new(3, 2, vec![0i16; 5]).is_none());
    assert!(TransposedMatrix::new(3, 0, vec![]).is_none());
}
