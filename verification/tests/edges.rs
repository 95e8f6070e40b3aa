use center_circle::canny::get_edges_canny;
use center_circle::segments::{get_edges_from_segments, ScanLineSegment, VerticalScanLine};
use center_circle::edge_source::{get_edge_source_image, EdgeSourceType, YCbCr422Image, Ycbcr422};

/// A width x height image of one uniform grey, with a brighter vertical
/// band between the two x bounds.
fn banded_image(width: usize, height: usize, band: (usize, usize)) -> YCbCr422Image {
    let mut buffer = Vec::new();
    for y in 0..height {
        let _ = y;
        for gx in 0..width / 2 {
            let x0 = 2 * gx;
            let x1 = 2 * gx + 1;
            let luma = |x: usize| if x >= band.0 && x < band.1 { 200u8 } else { 40u8 };
            buffer.push(Ycbcr422 { y1: luma(x0), cb: 128, y2: luma(x1), cr: 128 });
        }
    }
    YCbCr422Image { width, height, buffer }
}

#[test]
fn luminance_channel_is_copied() {
    let image = YCbCr422Image {
        width: 4,
        height: 1,
        buffer: vec![
            Ycbcr422 { y1: 10, cb: 128, y2: 20, cr: 128 },
            Ycbcr422 { y1: 30, cb: 90, y2: 40, cr: 200 },
        ],
    };
    let gray = get_edge_source_image(&image, EdgeSourceType::LuminanceOfYuv);
    assert_eq!(gray.width, 4);
    assert_eq!(gray.height, 1);
    assert_eq!(gray.data, vec![10, 20, 30, 40]);
}

#[test]
fn neutral_chroma_keeps_the_gray_value() {
    // With centred chroma the pixel is achromatic: the spread is zero
    // and the policy returns the grey value itself.
    let image = YCbCr422Image {
        width: 2,
        height: 1,
        buffer: vec![Ycbcr422 { y1: 100, cb: 128, y2: 250, cr: 128 }],
    };
    let gray = get_edge_source_image(&image, EdgeSourceType::DifferenceOfLumaAndRgbRange);
    assert_eq!(gray.data, vec![100, 250]);
}

#[test]
fn saturated_pixels_are_darkened() {
    // A strongly red pixel: r = 100 + (91881*72 >> 16) = 200,
    // g = 100 - (46802*72 >> 16) = 49, b = 100; the mean 116 minus the
    // spread 151 clamps to zero.
    let image = YCbCr422Image {
        width: 2,
        height: 1,
        buffer: vec![Ycbcr422 { y1: 100, cb: 128, y2: 100, cr: 200 }],
    };
    let gray = get_edge_source_image(&image, EdgeSourceType::DifferenceOfLumaAndRgbRange);
    assert_eq!(gray.data, vec![0, 0]);
}

#[test]
fn edges_stay_inside_the_image() {
    let image = banded_image(32, 24, (12, 20));
    let edges = get_edges_canny(3, 5, 20, &image, EdgeSourceType::LuminanceOfYuv, None);
    assert!(!edges.is_empty());
    for p in &edges {
        assert!(1 <= p.x && p.x < 31);
        assert!(1 <= p.y && p.y < 23);
    }
}

#[test]
fn horizon_masking_drops_the_upper_half() {
    let image = banded_image(32, 24, (12, 20));
    let unmasked = get_edges_canny(3, 5, 20, &image, EdgeSourceType::LuminanceOfYuv, None);
    assert!(unmasked.iter().any(|p| p.y < 12));

    let edges = get_edges_canny(3, 5, 20, &image, EdgeSourceType::LuminanceOfYuv, Some(12));
    assert!(!edges.is_empty());
    for p in &edges {
        assert!(p.y >= 12);
    }
}

#[test]
fn segment_edges_stay_inside_image_below_horizon() {
    let lines = vec![
        VerticalScanLine {
            position: 4,
            segments: vec![
                ScanLineSegment { start: 0, end: 10 },
                ScanLineSegment { start: 30, end: 50 },
            ],
        },
        VerticalScanLine { position: 8, segments: vec![ScanLineSegment { start: 18, end: 22 }] },
        VerticalScanLine { position: 99, segments: vec![ScanLineSegment { start: 30, end: 40 }] },
    ];

    // Horizon 3: the first segment straddles it, so only its lower
    // endpoint survives; the endpoint at y=50 lies outside the 64x48
    // image and the scan line at x=99 does too.
    let edges = get_edges_from_segments(&lines, 64, 48, Some(3));
    let coords: Vec<(u32, u32)> = edges.iter().map(|p| (p.x, p.y)).collect();
    assert_eq!(coords, vec![(4, 10), (4, 30), (8, 18), (8, 22)]);

    // Horizon 20: the first segment's centre 5 is not below it, and the
    // third's centre sits exactly on it (not strictly below).
    let edges = get_edges_from_segments(&lines, 64, 48, Some(20));
    let coords: Vec<(u32, u32)> = edges.iter().map(|p| (p.x, p.y)).collect();
    assert_eq!(coords, vec![(4, 30)]);

    let all = get_edges_from_segments(&lines, 64, 48, None);
    let coords: Vec<(u32, u32)> = all.iter().map(|p| (p.x, p.y)).collect();
    assert_eq!(coords, vec![(4, 0), (4, 10), (4, 30), (8, 18), (8, 22)]);
}
