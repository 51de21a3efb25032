//! Where the keypoints of a pose fall on the picture that is sent back.
//! The model sees the picture mirrored and padded to a square; the
//! overlay undoes both. The keypoints arrive scaled to the side of that
//! square.

use crate::result::KEYPOINTS;
use vstd::prelude::*;

verus! {

/// Number of connections between keypoints that make up the skeleton.
pub const CONNECTIONS: usize = 18;

/// The square that the model saw, relative to the picture: its side and
/// the padding that the picture lacks on each side, across and down.
#[derive(Clone, Copy, Debug, PartialEq, Eq, Structural)]
pub struct OverlayFrame {
    /// Side of the square: the larger extent of the picture.
    pub base: i32,
    /// Padding left and right of the picture.
    pub pad_x: i32,
    /// Padding above and below the picture.
    pub pad_y: i32,
}

/// The connections of the skeleton, as pairs of keypoint numbers: head,
/// shoulders, left arm, right arm, body, left leg, right leg.
pub open spec fn skeleton() -> Seq<(usize, usize)> {
    seq![
        (0, 1),
        (0, 2),
        (1, 3),
        (2, 4),
        (0, 5),
        (0, 6),
        (5, 6),
        (5, 7),
        (7, 9),
        (6, 8),
        (8, 10),
        (5, 11),
        (6, 12),
        (11, 12),
        (11, 13),
        (13, 15),
        (12, 14),
        (14, 16),
    ]
}

/// Half of what the shorter extent lacks to the longer one, rounded down;
/// nothing for the longer extent itself.
pub open spec fn half_gap(this: int, other: int) -> int {
    if other > this {
        (other - this) / 2
    } else {
        0
    }
}

/// The square for a picture of `rows` by `cols`. There is none for a
/// negative extent.
pub fn overlay_frame(rows: i32, cols: i32) -> (frame: Option<OverlayFrame>)
    ensures
        frame is Some <==> rows >= 0 && cols >= 0,
        frame matches Some(f) ==> {
            &&& f.base == if rows > cols {
                rows
            } else {
                cols
            }
            &&& f.pad_x == half_gap(cols as int, rows as int)
            &&& f.pad_y == half_gap(rows as int, cols as int)
            &&& cols + 2 * f.pad_x <= f.base <= cols + 2 * f.pad_x + 1
            &&& rows + 2 * f.pad_y <= f.base <= rows + 2 * f.pad_y + 1
        },
{
    if rows < 0 || cols < 0 {
        return None;
    }
    if rows > cols {
        Some(OverlayFrame { base: rows, pad_x: (rows - cols) / 2, pad_y: 0 })
    } else {
        Some(OverlayFrame { base: cols, pad_x: 0, pad_y: (cols - rows) / 2 })
    }
}

/// The place on the picture of a keypoint that lies at `(scaled_x,
/// scaled_y)` in the square: mirrored across, and moved by the padding.
/// There is none if the place cannot be said in 32 bits.
pub fn place_point(frame: &OverlayFrame, scaled_x: i32, scaled_y: i32) -> (place: Option<
    (i32, i32),
>)
    ensures
        place is Some <==> {
            &&& i32::MIN <= frame.base - (scaled_x - frame.pad_x) <= i32::MAX
            &&& i32::MIN <= scaled_y - frame.pad_y <= i32::MAX
        },
        place matches Some((x, y)) ==> {
            &&& x == frame.base - (scaled_x - frame.pad_x)
            &&& y == scaled_y - frame.pad_y
        },
{
    let x: i64 = frame.base as i64 - (scaled_x as i64 - frame.pad_x as i64);
    let y: i64 = scaled_y as i64 - frame.pad_y as i64;
    if x < i32::MIN as i64 || x > i32::MAX as i64 || y < i32::MIN as i64 || y > i32::MAX as i64 {
        None
    } else {
        Some((x as i32, y as i32))
    }
}

/// Connection `which` of the skeleton: the numbers of the two keypoints
/// that it joins. There are `CONNECTIONS` of them.
pub fn connection(which: usize) -> (ends: Option<(usize, usize)>)
    ensures
        ends == if which < CONNECTIONS {
            Some(skeleton()[which as int])
        } else {
            None
        },
        ends matches Some((from, to)) ==> from < KEYPOINTS && to < KEYPOINTS,
{
    match which {
        0 => Some((0, 1)),
        1 => Some((0, 2)),
        2 => Some((1, 3)),
        3 => Some((2, 4)),
        4 => Some((0, 5)),
        5 => Some((0, 6)),
        6 => Some((5, 6)),
        7 => Some((5, 7)),
        8 => Some((7, 9)),
        9 => Some((6, 8)),
        10 => Some((8, 10)),
        11 => Some((5, 11)),
        12 => Some((6, 12)),
        13 => Some((11, 12)),
        14 => Some((11, 13)),
        15 => Some((13, 15)),
        16 => Some((12, 14)),
        17 => Some((14, 16)),
        _ => None,
    }
}

/// A keypoint scaled to the side of the square, and whether the model is
/// confident enough of it for it to be drawn.
#[derive(Clone, Copy, Debug, PartialEq, Eq, Structural)]
pub struct ScaledKeypoint {
    pub x: i32,
    pub y: i32,
    pub confident: bool,
}

/// Something to draw on the picture.
#[derive(Clone, Copy, Debug, PartialEq, Eq, Structural)]
pub enum Mark {
    /// A filled circle for a keypoint.
    Dot { x: i32, y: i32 },
    /// A line for a connection of the skeleton.
    Stroke { x1: i32, y1: i32, x2: i32, y2: i32 },
}

/// Radius of the circle of a keypoint.
pub const DOT_RADIUS: i32 = 5;

/// Thickness of the line of a connection.
pub const STROKE_THICKNESS: i32 = 2;

/// Column on the picture of a keypoint of the square: mirrored, and moved
/// by the padding.
pub open spec fn placed_x(frame: OverlayFrame, p: ScaledKeypoint) -> int {
    frame.base - (p.x - frame.pad_x)
}

/// Row on the picture of a keypoint of the square: moved by the padding.
pub open spec fn placed_y(frame: OverlayFrame, p: ScaledKeypoint) -> int {
    p.y - frame.pad_y
}

/// True if the place of a keypoint can be said in 32 bits.
pub open spec fn fits(frame: OverlayFrame, p: ScaledKeypoint) -> bool {
    &&& i32::MIN <= placed_x(frame, p) <= i32::MAX
    &&& i32::MIN <= placed_y(frame, p) <= i32::MAX
}

/// The circles of the first `n` keypoints: one for each keypoint that the
/// model is confident of, in the order of the keypoints.
pub open spec fn spec_dots(frame: OverlayFrame, points: Seq<ScaledKeypoint>, n: nat) -> Seq<Mark>
    decreases n,
{
    if n == 0 {
        Seq::empty()
    } else {
        let before = spec_dots(frame, points, (n - 1) as nat);
        let p = points[n - 1];
        if p.confident {
            before.push(Mark::Dot { x: placed_x(frame, p) as i32, y: placed_y(frame, p) as i32 })
        } else {
            before
        }
    }
}

/// True if every circle of the first `n` keypoints has a place.
pub open spec fn dots_fit(frame: OverlayFrame, points: Seq<ScaledKeypoint>, n: nat) -> bool {
    forall|k: int| 0 <= k < n && (#[trigger] points[k]).confident ==> fits(frame, points[k])
}

/// True if the model is confident of both ends of connection `which`.
pub open spec fn joined(points: Seq<ScaledKeypoint>, which: int) -> bool {
    points[skeleton()[which].0 as int].confident && points[skeleton()[which].1 as int].confident
}

/// The lines of the first `n` connections: one for each connection of
/// whose two ends the model is confident, in the order of the skeleton.
pub open spec fn spec_strokes(frame: OverlayFrame, points: Seq<ScaledKeypoint>, n: nat) -> Seq<
    Mark,
>
    decreases n,
{
    if n == 0 {
        Seq::empty()
    } else {
        let before = spec_strokes(frame, points, (n - 1) as nat);
        let from = points[skeleton()[n - 1].0 as int];
        let to = points[skeleton()[n - 1].1 as int];
        if joined(points, n - 1) {
            before.push(
                Mark::Stroke {
                    x1: placed_x(frame, from) as i32,
                    y1: placed_y(frame, from) as i32,
                    x2: placed_x(frame, to) as i32,
                    y2: placed_y(frame, to) as i32,
                },
            )
        } else {
            before
        }
    }
}

/// True if both ends of every line of the first `n` connections have a
/// place.
pub open spec fn strokes_fit(frame: OverlayFrame, points: Seq<ScaledKeypoint>, n: nat) -> bool {
    forall|k: int|
        0 <= k < n && #[trigger] joined(points, k) ==> fits(
            frame,
            points[skeleton()[k].0 as int],
        ) && fits(frame, points[skeleton()[k].1 as int])
}

/// The circles to draw for the keypoints of a pose. There are none to
/// give if keypoints are missing or if a circle has no place.
pub fn draw_keypoints(frame: &OverlayFrame, points: &[ScaledKeypoint]) -> (marks: Option<
    Vec<Mark>,
>)
    ensures
        marks is Some <==> points@.len() >= KEYPOINTS && dots_fit(*frame, points@, KEYPOINTS as nat),
        marks matches Some(m) ==> m@ == spec_dots(*frame, points@, KEYPOINTS as nat),
{
    if points.len() < KEYPOINTS {
        return None;
    }
    let mut marks: Vec<Mark> = Vec::new();
    let mut index: usize = 0;
    while index < KEYPOINTS
        invariant
            index <= KEYPOINTS <= points@.len(),
            dots_fit(*frame, points@, index as nat),
            marks@ == spec_dots(*frame, points@, index as nat),
        decreases KEYPOINTS - index,
    {
        let p: ScaledKeypoint = points[index];
        if p.confident {
            match place_point(frame, p.x, p.y) {
                Some((x, y)) => {
                    marks.push(Mark::Dot { x, y });
                },
                None => {
                    assert(!fits(*frame, points@[index as int]));
                    return None;
                },
            }
        }
        index = index + 1;
    }
    Some(marks)
}

/// The lines to draw for the skeleton of a pose. There are none to give
/// if keypoints are missing or if an end of a line has no place.
pub fn draw_connections(frame: &OverlayFrame, points: &[ScaledKeypoint]) -> (marks: Option<
    Vec<Mark>,
>)
    ensures
        marks is Some <==> points@.len() >= KEYPOINTS && strokes_fit(
            *frame,
            points@,
            CONNECTIONS as nat,
        ),
        marks matches Some(m) ==> m@ == spec_strokes(*frame, points@, CONNECTIONS as nat),
{
    if points.len() < KEYPOINTS {
        return None;
    }
    let mut marks: Vec<Mark> = Vec::new();
    let mut which: usize = 0;
    while which < CONNECTIONS
        invariant
            which <= CONNECTIONS,
            KEYPOINTS <= points@.len(),
            strokes_fit(*frame, points@, which as nat),
            marks@ == spec_strokes(*frame, points@, which as nat),
        decreases CONNECTIONS - which,
    {
        let (a, b): (usize, usize) = match connection(which) {
            Some(ends) => ends,
            None => {
                return None;
            },
        };
        let from: ScaledKeypoint = points[a];
        let to: ScaledKeypoint = points[b];
        if from.confident && to.confident {
            assert(joined(points@, which as int));
            let (x1, y1): (i32, i32) = match place_point(frame, from.x, from.y) {
                Some(place) => place,
                None => {
                    return None;
                },
            };
            let (x2, y2): (i32, i32) = match place_point(frame, to.x, to.y) {
                Some(place) => place,
                None => {
                    return None;
                },
            };
            marks.push(Mark::Stroke { x1, y1, x2, y2 });
        }
        which = which + 1;
    }
    Some(marks)
}

/// Every connection of the skeleton joins two different keypoints of the
/// pose, so that the values of both are found in a result.
pub proof fn lemma_skeleton_within_pose(which: int)
    requires
        0 <= which < CONNECTIONS,
    ensures
        skeleton().len() == CONNECTIONS,
        skeleton()[which].0 < KEYPOINTS,
        skeleton()[which].1 < KEYPOINTS,
        skeleton()[which].0 != skeleton()[which].1,
        3 * skeleton()[which].0 + 2 < 3 * KEYPOINTS,
        3 * skeleton()[which].1 + 2 < 3 * KEYPOINTS,
{
}

} // verus!
