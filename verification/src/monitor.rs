//! Display surfaces. Real enumeration belongs to the platform adapter; the
//! registry only carries monitor metadata and documents the single-monitor
//! fallback used when no platform query is supplied.
use vstd::prelude::*;
use crate::geometry::SnapTarget;

verus! {

/// Metadata about one display surface. `scale_factor_milli` is the display
/// scale in thousandths, so `1000` stands for a 1:1 scale.
#[derive(Debug, PartialEq)]
pub struct MonitorInfo {
    pub id: String,
    pub name: String,
    pub width: u32,
    pub height: u32,
    pub x: i32,
    pub y: i32,
    pub scale_factor_milli: u32,
    pub is_primary: bool,
}

impl MonitorInfo {
    /// The monitor's area as a rectangle on the logical plane, the reference
    /// for snap computations against this display.
    pub fn work_area(&self) -> (r: SnapTarget)
        ensures
            r.x == self.x as i64,
            r.y == self.y as i64,
            r.width == self.width,
            r.height == self.height,
    {
        SnapTarget { x: self.x as i64, y: self.y as i64, width: self.width, height: self.height }
    }
}

/// The documented fallback when no platform enumeration is supplied: a
/// single primary monitor of 1920 by 1080 logical pixels at the origin,
/// with 1:1 scale.
pub fn fallback_monitors() -> (r: Vec<MonitorInfo>)
    ensures
        r@.len() == 1,
        r@[0].id@ == "primary"@,
        r@[0].name@ == "Primary Monitor"@,
        r@[0].width == 1920,
        r@[0].height == 1080,
        r@[0].x == 0,
        r@[0].y == 0,
        r@[0].scale_factor_milli == 1000,
        r@[0].is_primary,
{
    let mut v: Vec<MonitorInfo> = Vec::new();
    v.push(
        MonitorInfo {
            id: String::from_str("primary"),
            name: String::from_str("Primary Monitor"),
            width: 1920,
            height: 1080,
            x: 0,
            y: 0,
            scale_factor_milli: 1000,
            is_primary: true,
        },
    );
    v
}

} // verus!
