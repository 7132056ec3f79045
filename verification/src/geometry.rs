//! Snap geometry: deterministic splitting of a reference rectangle into the
//! ten named snap regions (halves, quadrants, a centered 70% inset, and the
//! full area).
use vstd::prelude::*;

verus! {

/// A named snap region against a reference rectangle.
#[derive(Clone, Copy, Debug, PartialEq, Eq, Structural)]
pub enum SnapPosition {
    Left,
    Right,
    Top,
    Bottom,
    TopLeft,
    TopRight,
    BottomLeft,
    BottomRight,
    Center,
    Maximize,
}

/// A rectangle on the logical coordinate plane: a position and a size.
/// Serves both as the reference area handed in and as the computed target.
#[derive(Clone, Copy, Debug, PartialEq, Eq, Structural)]
pub struct SnapTarget {
    pub x: i64,
    pub y: i64,
    pub width: u32,
    pub height: u32,
}

/// Whether the rectangle's far edges stay on the `i64` coordinate plane.
/// This is the machine-width bound under which snapping never overflows.
pub open spec fn rect_in_plane(r: SnapTarget) -> bool {
    &&& r.x + r.width <= i64::MAX
    &&& r.y + r.height <= i64::MAX
}

/// The snapped rectangle, as a mathematical function of the reference area
/// and the region: halves split the area in two, quadrants in four (sizes
/// rounded down), `Center` is a 70% inset centered in the area, and
/// `Maximize` is the area itself.
pub open spec fn snap_rect_spec(area: SnapTarget, position: SnapPosition) -> SnapTarget
    recommends
        rect_in_plane(area),
{
    let half_w = (area.width / 2) as u32;
    let half_h = (area.height / 2) as u32;
    let center_w = ((area.width * 7) / 10) as u32;
    let center_h = ((area.height * 7) / 10) as u32;
    match position {
        SnapPosition::Left => SnapTarget { x: area.x, y: area.y, width: half_w, height: area.height },
        SnapPosition::Right => SnapTarget {
            x: (area.x + half_w) as i64,
            y: area.y,
            width: half_w,
            height: area.height,
        },
        SnapPosition::Top => SnapTarget { x: area.x, y: area.y, width: area.width, height: half_h },
        SnapPosition::Bottom => SnapTarget {
            x: area.x,
            y: (area.y + half_h) as i64,
            width: area.width,
            height: half_h,
        },
        SnapPosition::TopLeft => SnapTarget { x: area.x, y: area.y, width: half_w, height: half_h },
        SnapPosition::TopRight => SnapTarget {
            x: (area.x + half_w) as i64,
            y: area.y,
            width: half_w,
            height: half_h,
        },
        SnapPosition::BottomLeft => SnapTarget {
            x: area.x,
            y: (area.y + half_h) as i64,
            width: half_w,
            height: half_h,
        },
        SnapPosition::BottomRight => SnapTarget {
            x: (area.x + half_w) as i64,
            y: (area.y + half_h) as i64,
            width: half_w,
            height: half_h,
        },
        SnapPosition::Center => SnapTarget {
            x: (area.x + (area.width - center_w) / 2) as i64,
            y: (area.y + (area.height - center_h) / 2) as i64,
            width: center_w,
            height: center_h,
        },
        SnapPosition::Maximize => area,
    }
}

/// Computes the target rectangle for snapping a window into `position`
/// within the reference area. Pure: equal inputs give equal outputs, and the
/// result is pinned exactly by `snap_rect_spec`.
pub fn compute_snap_rect(area: &SnapTarget, position: &SnapPosition) -> (r: SnapTarget)
    requires
        rect_in_plane(*area),
    ensures
        r == snap_rect_spec(*area, *position),
        rect_in_plane(r),
{
    let half_w: u32 = area.width / 2;
    let half_h: u32 = area.height / 2;
    match position {
        SnapPosition::Left => SnapTarget { x: area.x, y: area.y, width: half_w, height: area.height },
        SnapPosition::Right => SnapTarget {
            x: area.x + half_w as i64,
            y: area.y,
            width: half_w,
            height: area.height,
        },
        SnapPosition::Top => SnapTarget { x: area.x, y: area.y, width: area.width, height: half_h },
        SnapPosition::Bottom => SnapTarget {
            x: area.x,
            y: area.y + half_h as i64,
            width: area.width,
            height: half_h,
        },
        SnapPosition::TopLeft => SnapTarget { x: area.x, y: area.y, width: half_w, height: half_h },
        SnapPosition::TopRight => SnapTarget {
            x: area.x + half_w as i64,
            y: area.y,
            width: half_w,
            height: half_h,
        },
        SnapPosition::BottomLeft => SnapTarget {
            x: area.x,
            y: area.y + half_h as i64,
            width: half_w,
            height: half_h,
        },
        SnapPosition::BottomRight => SnapTarget {
            x: area.x + half_w as i64,
            y: area.y + half_h as i64,
            width: half_w,
            height: half_h,
        },
        SnapPosition::Center => {
            let center_w: u32 = ((area.width as u64 * 7) / 10) as u32;
            let center_h: u32 = ((area.height as u64 * 7) / 10) as u32;
            SnapTarget {
                x: area.x + ((area.width - center_w) / 2) as i64,
                y: area.y + ((area.height - center_h) / 2) as i64,
                width: center_w,
                height: center_h,
            }
        },
        SnapPosition::Maximize => SnapTarget {
            x: area.x,
            y: area.y,
            width: area.width,
            height: area.height,
        },
    }
}

} // verus!
