//! The alternate edge source: instead of running the Canny detector, take
//! the start and end of every segment of the pre-computed vertical-scan
//! segmentation whose centre lies below the horizon.  Whatever the
//! segmentation delivered, every emitted coordinate lies inside the
//! image and at or below the horizon row; content above the horizon is
//! discarded endpoint by endpoint.

use vstd::prelude::*;

use crate::canny::EdgePoint;

verus! {

/// One segment of a vertical scan line, as y coordinates along it.
pub struct ScanLineSegment {
    pub start: u32,
    pub end: u32,
}

/// One vertical scan line: its x position and its segments.
pub struct VerticalScanLine {
    pub position: u32,
    pub segments: Vec<ScanLineSegment>,
}

/// Is this segment considered at all: does its centre lie strictly below
/// the exclusion row?  Comparing the doubled values keeps the arithmetic
/// exact for odd sums.
pub open spec fn segment_kept(segment: &ScanLineSegment, exclusion_y: u32) -> bool {
    segment.start + segment.end > 2 * exclusion_y
}

/// May this endpoint be emitted: inside the image and not above the
/// horizon.
pub open spec fn endpoint_kept(y: u32, exclusion_y: u32, image_height: u32) -> bool {
    exclusion_y <= y < image_height
}

/// The emitted endpoints of one considered segment: start then end, each
/// only where it lies inside the image at or below the horizon.
pub open spec fn segment_points(
    position: u32,
    segment: &ScanLineSegment,
    exclusion_y: u32,
    image_height: u32,
) -> Seq<EdgePoint> {
    (if endpoint_kept(segment.start, exclusion_y, image_height) {
        seq![EdgePoint { x: position, y: segment.start }]
    } else {
        Seq::empty()
    }) + (if endpoint_kept(segment.end, exclusion_y, image_height) {
        seq![EdgePoint { x: position, y: segment.end }]
    } else {
        Seq::empty()
    })
}

/// The points of the first `n` segments of one scan line, in order.
pub open spec fn scan_line_points(
    line: &VerticalScanLine,
    exclusion_y: u32,
    image_height: u32,
    n: nat,
) -> Seq<EdgePoint>
    decreases n,
{
    if n == 0 {
        Seq::empty()
    } else {
        scan_line_points(line, exclusion_y, image_height, (n - 1) as nat) + (
        if segment_kept(&line.segments@[n - 1], exclusion_y) {
            segment_points(line.position, &line.segments@[n - 1], exclusion_y, image_height)
        } else {
            Seq::empty()
        })
    }
}

/// The points of the first `n` scan lines; a line whose position falls
/// outside the image contributes nothing.
pub open spec fn all_scan_points(
    lines: Seq<VerticalScanLine>,
    exclusion_y: u32,
    image_width: u32,
    image_height: u32,
    n: nat,
) -> Seq<EdgePoint>
    decreases n,
{
    if n == 0 {
        Seq::empty()
    } else {
        all_scan_points(lines, exclusion_y, image_width, image_height, (n - 1) as nat) + (
        if lines[n - 1].position < image_width {
            scan_line_points(
                &lines[n - 1],
                exclusion_y,
                image_height,
                lines[n - 1].segments@.len(),
            )
        } else {
            Seq::empty()
        })
    }
}

/// Every point of one scan line's contribution sits on that line, inside
/// the image, at or below the horizon.
proof fn lemma_scan_line_points_bounds(
    line: &VerticalScanLine,
    exclusion_y: u32,
    image_height: u32,
    n: nat,
)
    ensures
        forall|k: int|
            0 <= k < scan_line_points(line, exclusion_y, image_height, n).len() ==> {
                let p = #[trigger] scan_line_points(line, exclusion_y, image_height, n)[k];
                p.x == line.position && exclusion_y <= p.y < image_height
            },
    decreases n,
{
    if n > 0 {
        lemma_scan_line_points_bounds(line, exclusion_y, image_height, (n - 1) as nat);
        let prefix = scan_line_points(line, exclusion_y, image_height, (n - 1) as nat);
        let tail = if segment_kept(&line.segments@[n - 1], exclusion_y) {
            segment_points(line.position, &line.segments@[n - 1], exclusion_y, image_height)
        } else {
            Seq::<EdgePoint>::empty()
        };
        let whole = scan_line_points(line, exclusion_y, image_height, n);
        assert forall|k: int| 0 <= k < whole.len() implies {
            let p = #[trigger] whole[k];
            p.x == line.position && exclusion_y <= p.y < image_height
        } by {
            if k < prefix.len() {
                assert(whole[k] == prefix[k]);
            } else {
                assert(whole[k] == tail[k - prefix.len()]);
            }
        }
    }
}

/// Every collected point lies inside the image at or below the horizon.
proof fn lemma_all_scan_points_bounds(
    lines: Seq<VerticalScanLine>,
    exclusion_y: u32,
    image_width: u32,
    image_height: u32,
    n: nat,
)
    ensures
        forall|k: int|
            0 <= k < all_scan_points(lines, exclusion_y, image_width, image_height, n).len()
                ==> {
                let p = #[trigger] all_scan_points(
                    lines,
                    exclusion_y,
                    image_width,
                    image_height,
                    n,
                )[k];
                p.x < image_width && exclusion_y <= p.y < image_height
            },
    decreases n,
{
    if n > 0 {
        lemma_all_scan_points_bounds(lines, exclusion_y, image_width, image_height, (n - 1) as nat);
        let prefix = all_scan_points(lines, exclusion_y, image_width, image_height, (n - 1) as nat);
        let tail = if lines[n - 1].position < image_width {
            scan_line_points(
                &lines[n - 1],
                exclusion_y,
                image_height,
                lines[n - 1].segments@.len(),
            )
        } else {
            Seq::<EdgePoint>::empty()
        };
        if lines[n - 1].position < image_width {
            lemma_scan_line_points_bounds(
                &lines[n - 1],
                exclusion_y,
                image_height,
                lines[n - 1].segments@.len(),
            );
        }
        let whole = all_scan_points(lines, exclusion_y, image_width, image_height, n);
        assert forall|k: int| 0 <= k < whole.len() implies {
            let p = #[trigger] whole[k];
            p.x < image_width && exclusion_y <= p.y < image_height
        } by {
            if k < prefix.len() {
                assert(whole[k] == prefix[k]);
            } else {
                assert(whole[k] == tail[k - prefix.len()]);
            }
        }
    }
}

/// Edge points from the vertical-scan segmentation: walk the scan lines
/// in order, consider each segment whose centre lies strictly below the
/// exclusion row, and emit those of its endpoints that lie inside the
/// `image_width` x `image_height` frame at or below that row.  Every
/// returned coordinate therefore satisfies `x < W` and
/// `horizon <= y < H`, whatever the segmentation holds.
#[verifier::loop_isolation(false)]
pub fn get_edges_from_segments(
    vertical_scan_lines: &Vec<VerticalScanLine>,
    image_width: u32,
    image_height: u32,
    upper_points_exclusion_threshold_y: Option<u32>,
) -> (edges: Vec<EdgePoint>)
    ensures
        edges@ == all_scan_points(
            vertical_scan_lines@,
            crate::canny::horizon_row(upper_points_exclusion_threshold_y),
            image_width,
            image_height,
            vertical_scan_lines@.len(),
        ),
        forall|k: int|
            0 <= k < edges@.len() ==> {
                let p = #[trigger] edges@[k];
                &&& p.x < image_width
                &&& crate::canny::horizon_row(upper_points_exclusion_threshold_y) <= p.y
                &&& p.y < image_height
            },
{
    let exclusion_y = match upper_points_exclusion_threshold_y {
        Some(y) => y,
        None => 0u32,
    };
    let line_count = vertical_scan_lines.len();
    let mut edges: Vec<EdgePoint> = Vec::new();
    let mut j: usize = 0;
    while j < line_count
        invariant
            j <= line_count,
            line_count == vertical_scan_lines@.len(),
            edges@ == all_scan_points(
                vertical_scan_lines@,
                exclusion_y,
                image_width,
                image_height,
                j as nat,
            ),
        decreases line_count - j,
    {
        let line = &vertical_scan_lines[j];
        if line.position < image_width {
            let segment_count = line.segments.len();
            let mut s: usize = 0;
            while s < segment_count
                invariant
                    s <= segment_count,
                    segment_count == line.segments@.len(),
                    line == &vertical_scan_lines@[j as int],
                    j < vertical_scan_lines@.len(),
                    line.position < image_width,
                    edges@ == all_scan_points(
                        vertical_scan_lines@,
                        exclusion_y,
                        image_width,
                        image_height,
                        j as nat,
                    ) + scan_line_points(line, exclusion_y, image_height, s as nat),
                decreases segment_count - s,
            {
                let segment = &line.segments[s];
                proof {
                    assert(segment == &line.segments@[s as int]);
                }
                let doubled_centre = segment.start as u64 + segment.end as u64;
                if doubled_centre > 2 * (exclusion_y as u64) {
                    if exclusion_y <= segment.start && segment.start < image_height {
                        edges.push(EdgePoint { x: line.position, y: segment.start });
                    }
                    if exclusion_y <= segment.end && segment.end < image_height {
                        edges.push(EdgePoint { x: line.position, y: segment.end });
                    }
                }
                proof {
                    assert(edges@ =~= all_scan_points(
                        vertical_scan_lines@,
                        exclusion_y,
                        image_width,
                        image_height,
                        j as nat,
                    ) + scan_line_points(line, exclusion_y, image_height, (s + 1) as nat));
                }
                s = s + 1;
            }
        }
        proof {
            assert(edges@ =~= all_scan_points(
                vertical_scan_lines@,
                exclusion_y,
                image_width,
                image_height,
                (j + 1) as nat,
            ));
        }
        j = j + 1;
    }
    proof {
        lemma_all_scan_points_bounds(
            vertical_scan_lines@,
            exclusion_y,
            image_width,
            image_height,
            vertical_scan_lines@.len(),
        );
    }
    edges
}

} // verus!
