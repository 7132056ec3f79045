//! Layout restoration: the pure decisions behind recreating windows from
//! saved snapshots. The adapter performs the actual window creation, one
//! snapshot at a time and in saved order, and hands the per-snapshot results
//! back; this module says which creations counted, which indices failed,
//! and what geometry to apply to each recreated window.
use vstd::prelude::*;
use crate::registry::{opt_str_view, WindowState};

verus! {

/// Geometry and presentation flags to apply to a window, as plain values.
/// `monitor` is the index of the target display surface, `0` meaning the
/// primary one.
#[derive(Debug, PartialEq)]
pub struct WindowPositionSize {
    pub x: i64,
    pub y: i64,
    pub width: u32,
    pub height: u32,
    pub is_maximized: bool,
    pub is_minimized: bool,
    pub is_fullscreen: bool,
    pub monitor: u32,
    pub monitor_name: Option<String>,
}

/// The outcome of a restoration pass: the labels of the windows that were
/// recreated, in saved order, and one failure entry — the snapshot's index —
/// for every creation that failed. Restoration is partial-failure tolerant:
/// a failed snapshot is skipped, never fatal.
#[derive(Debug, PartialEq)]
pub struct RestoreReport {
    pub restored: Vec<String>,
    pub failed_indices: Vec<usize>,
}

/// The labels of the successful creations, in order.
pub open spec fn successes(s: Seq<Option<Seq<char>>>) -> Seq<Seq<char>>
    decreases s.len(),
{
    if s.len() == 0 {
        Seq::empty()
    } else {
        successes(s.drop_last()) + match s.last() {
            Some(l) => seq![l],
            None => Seq::empty(),
        }
    }
}

/// The indices of the failed creations, in order.
pub open spec fn failure_indices(s: Seq<Option<Seq<char>>>) -> Seq<int>
    decreases s.len(),
{
    if s.len() == 0 {
        Seq::empty()
    } else {
        failure_indices(s.drop_last()) + match s.last() {
            Some(_) => Seq::empty(),
            None => seq![s.len() - 1],
        }
    }
}

/// The view of the per-snapshot creation results.
pub open spec fn results_view(s: Seq<Option<String>>) -> Seq<Option<Seq<char>>> {
    Seq::new(s.len(), |i: int| opt_str_view(s[i]))
}

/// The view of the collected failure indices.
pub open spec fn indices_view(s: Seq<usize>) -> Seq<int> {
    Seq::new(s.len(), |i: int| s[i] as int)
}

/// Folds the per-snapshot creation results of a restoration pass into a
/// report: `results[i]` is `Some(label)` when the i-th saved snapshot was
/// recreated under `label` and `None` when its creation failed. The report
/// lists exactly the successful labels, in saved order, and exactly the
/// failed indices, in order — every snapshot is accounted for, and a
/// failure never hides the snapshots after it.
pub fn restore_report(results: &Vec<Option<String>>) -> (r: RestoreReport)
    ensures
        r.restored@.map_values(|l: String| l@) =~= successes(results_view(results@)),
        indices_view(r.failed_indices@) =~= failure_indices(results_view(results@)),
        r.restored@.len() + r.failed_indices@.len() == results@.len(),
{
    let mut restored: Vec<String> = Vec::new();
    let mut failed_indices: Vec<usize> = Vec::new();
    let mut i: usize = 0;
    while i < results.len()
        invariant
            i <= results@.len(),
            restored@.map_values(|l: String| l@) =~= successes(
                results_view(results@).take(i as int),
            ),
            indices_view(failed_indices@) =~= failure_indices(
                results_view(results@).take(i as int),
            ),
            restored@.len() + failed_indices@.len() == i,
        decreases results@.len() - i,
    {
        let ghost pre = results_view(results@).take(i as int);
        let ghost cur = results_view(results@).take(i + 1);
        proof {
            assert(cur.drop_last() =~= pre);
            assert(cur.last() == opt_str_view(results@[i as int]));
        }
        match &results[i] {
            Some(l) => {
                restored.push(l.clone());
                proof {
                    assert(restored@.map_values(|l: String| l@) =~= successes(cur));
                    assert(indices_view(failed_indices@) =~= failure_indices(cur));
                }
            },
            None => {
                failed_indices.push(i);
                proof {
                    assert(restored@.map_values(|l: String| l@) =~= successes(cur));
                    assert(indices_view(failed_indices@) =~= failure_indices(cur));
                }
            },
        }
        i += 1;
    }
    proof {
        assert(results_view(results@).take(results@.len() as int) =~= results_view(results@));
    }
    RestoreReport { restored, failed_indices }
}

/// The geometry and flags a saved snapshot asks the adapter to apply after
/// recreation: the saved position when the snapshot carries one (origin
/// otherwise), the saved size, minimized taking precedence over maximized —
/// a window cannot be presented as both — and the saved monitor
/// association by name, with the primary display as the numeric fallback.
pub fn restore_geometry(w: &WindowState) -> (r: WindowPositionSize)
    ensures
        r.width == w@.config.width,
        r.height == w@.config.height,
        w@.config.x is Some && w@.config.y is Some ==> r.x == w@.config.x->0 && r.y
            == w@.config.y->0,
        !(w@.config.x is Some && w@.config.y is Some) ==> r.x == 0 && r.y == 0,
        r.is_minimized == w@.is_minimized,
        r.is_maximized == (!w@.is_minimized && w@.is_maximized),
        r.is_fullscreen == w@.config.fullscreen,
        r.monitor == 0,
        opt_str_view(r.monitor_name) == w@.monitor_id,
{
    let (x, y): (i64, i64) = match (w.config.x, w.config.y) {
        (Some(x), Some(y)) => (x, y),
        _ => (0, 0),
    };
    WindowPositionSize {
        x,
        y,
        width: w.config.width,
        height: w.config.height,
        is_maximized: !w.is_minimized && w.is_maximized,
        is_minimized: w.is_minimized,
        is_fullscreen: w.config.fullscreen,
        monitor: 0,
        monitor_name: match &w.monitor_id {
            Some(m) => Some(m.clone()),
            None => None,
        },
    }
}

} // verus!
