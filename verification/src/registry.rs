//! The window registry: the authoritative mapping from window identity to
//! state, tracking z-order and focus under a single-owner discipline. All
//! mutations keep the registry invariant: labels and z-order values are
//! pairwise distinct, and exactly one record is focused whenever any exists.
use vstd::prelude::*;

verus! {

/// Immutable-at-creation descriptor of a window: kind, title, requested
/// geometry, capability flags, and an optional content-source reference.
/// Sizes are in logical pixels; the optional position is on the signed plane.
#[derive(Debug, Clone, PartialEq)]
pub struct WindowConfig {
    pub window_type: String,
    pub title: String,
    pub width: u32,
    pub height: u32,
    pub x: Option<i64>,
    pub y: Option<i64>,
    pub resizable: bool,
    pub minimizable: bool,
    pub maximizable: bool,
    pub closable: bool,
    pub always_on_top: bool,
    pub decorations: bool,
    pub transparent: bool,
    pub focus: bool,
    pub fullscreen: bool,
    pub url: Option<String>,
}

/// Mathematical image of a `WindowConfig`: strings as character sequences.
#[verifier::ext_equal]
pub ghost struct WindowConfigView {
    pub window_type: Seq<char>,
    pub title: Seq<char>,
    pub width: u32,
    pub height: u32,
    pub x: Option<i64>,
    pub y: Option<i64>,
    pub resizable: bool,
    pub minimizable: bool,
    pub maximizable: bool,
    pub closable: bool,
    pub always_on_top: bool,
    pub decorations: bool,
    pub transparent: bool,
    pub focus: bool,
    pub fullscreen: bool,
    pub url: Option<Seq<char>>,
}

/// The view of an optional string: `Some` maps to the character sequence.
pub open spec fn opt_str_view(o: Option<String>) -> Option<Seq<char>> {
    match o {
        Some(s) => Some(s@),
        None => None,
    }
}

impl View for WindowConfig {
    type V = WindowConfigView;

    open spec fn view(&self) -> WindowConfigView {
        WindowConfigView {
            window_type: self.window_type@,
            title: self.title@,
            width: self.width,
            height: self.height,
            x: self.x,
            y: self.y,
            resizable: self.resizable,
            minimizable: self.minimizable,
            maximizable: self.maximizable,
            closable: self.closable,
            always_on_top: self.always_on_top,
            decorations: self.decorations,
            transparent: self.transparent,
            focus: self.focus,
            fullscreen: self.fullscreen,
            url: opt_str_view(self.url),
        }
    }
}

impl WindowConfig {
    /// An owned copy, equal to the original.
    pub fn duplicate(&self) -> (r: WindowConfig)
        ensures
            r == *self,
    {
        WindowConfig {
            window_type: self.window_type.clone(),
            title: self.title.clone(),
            width: self.width,
            height: self.height,
            x: self.x,
            y: self.y,
            resizable: self.resizable,
            minimizable: self.minimizable,
            maximizable: self.maximizable,
            closable: self.closable,
            always_on_top: self.always_on_top,
            decorations: self.decorations,
            transparent: self.transparent,
            focus: self.focus,
            fullscreen: self.fullscreen,
            url: match &self.url {
                Some(u) => Some(u.clone()),
                None => None,
            },
        }
    }
}

/// One live window's tracked state.
#[derive(Debug, Clone, PartialEq)]
pub struct WindowState {
    pub label: String,
    pub config: WindowConfig,
    pub z_order: u32,
    pub is_focused: bool,
    pub is_minimized: bool,
    pub is_maximized: bool,
    pub monitor_id: Option<String>,
    pub created_at: u64,
    pub last_focused_at: u64,
}

/// Mathematical image of a `WindowState`.
#[verifier::ext_equal]
pub ghost struct WindowStateView {
    pub label: Seq<char>,
    pub config: WindowConfigView,
    pub z_order: u32,
    pub is_focused: bool,
    pub is_minimized: bool,
    pub is_maximized: bool,
    pub monitor_id: Option<Seq<char>>,
    pub created_at: u64,
    pub last_focused_at: u64,
}

impl View for WindowState {
    type V = WindowStateView;

    open spec fn view(&self) -> WindowStateView {
        WindowStateView {
            label: self.label@,
            config: self.config@,
            z_order: self.z_order,
            is_focused: self.is_focused,
            is_minimized: self.is_minimized,
            is_maximized: self.is_maximized,
            monitor_id: opt_str_view(self.monitor_id),
            created_at: self.created_at,
            last_focused_at: self.last_focused_at,
        }
    }
}

impl WindowState {
    /// An owned copy, equal to the original.
    pub fn duplicate(&self) -> (r: WindowState)
        ensures
            r == *self,
    {
        WindowState {
            label: self.label.clone(),
            config: self.config.duplicate(),
            z_order: self.z_order,
            is_focused: self.is_focused,
            is_minimized: self.is_minimized,
            is_maximized: self.is_maximized,
            monitor_id: match &self.monitor_id {
                Some(m) => Some(m.clone()),
                None => None,
            },
            created_at: self.created_at,
            last_focused_at: self.last_focused_at,
        }
    }
}

/// Mathematical image of the whole registry.
#[verifier::ext_equal]
pub ghost struct RegistryView {
    pub windows: Seq<WindowStateView>,
    pub counter: u32,
    pub focused: Option<Seq<char>>,
}

/// The mathematical image of a sequence of records, element by element.
pub open spec fn views_of(s: Seq<WindowState>) -> Seq<WindowStateView> {
    Seq::new(s.len(), |i: int| s[i]@)
}

/// Whether some record in `s` carries the label `l`.
pub open spec fn has_label(s: Seq<WindowStateView>, l: Seq<char>) -> bool {
    exists|i: int| 0 <= i < s.len() && s[i].label == l
}

/// The record `w` with focus cleared.
pub open spec fn unfocused(w: WindowStateView) -> WindowStateView {
    WindowStateView { is_focused: false, ..w }
}

/// Whether the record at `m` is the one focus falls back to: it beats every
/// other record on most-recent `last_focused_at`, ties broken by the higher
/// (necessarily distinct) `z_order`.
pub open spec fn is_fallback_choice(s: Seq<WindowStateView>, m: int) -> bool {
    &&& 0 <= m < s.len()
    &&& forall|j: int|
        0 <= j < s.len() && j != m ==> (s[j].last_focused_at < s[m].last_focused_at || (
        s[j].last_focused_at == s[m].last_focused_at && s[j].z_order < s[m].z_order))
}

/// The registry invariant.
pub open spec fn registry_wf(v: RegistryView) -> bool {
    // labels are pairwise distinct
    &&& (forall|i: int, j: int|
        0 <= i < j < v.windows.len() ==> v.windows[i].label != v.windows[j].label)
    // z-order values are pairwise distinct
    &&& (forall|i: int, j: int|
        0 <= i < j < v.windows.len() ==> v.windows[i].z_order != v.windows[j].z_order)
    // every z-order is positive and covered by the running counter
    &&& (forall|i: int|
        0 <= i < v.windows.len() ==> 1 <= #[trigger] v.windows[i].z_order <= v.counter)
    // at most one record is focused
    &&& (forall|i: int, j: int|
        0 <= i < v.windows.len() && 0 <= j < v.windows.len() && v.windows[i].is_focused
            && v.windows[j].is_focused ==> i == j)
    // at least one record is focused whenever any exists
    &&& (v.windows.len() > 0 ==> exists|i: int|
        0 <= i < v.windows.len() && v.windows[i].is_focused)
    // the focused label names exactly the focused record
    &&& (match v.focused {
        Some(l) => exists|i: int|
            0 <= i < v.windows.len() && v.windows[i].is_focused && v.windows[i].label == l,
        None => v.windows.len() == 0,
    })
}

/// The index of the record carrying `l`, when one exists.
pub open spec fn index_of_label(s: Seq<WindowStateView>, l: Seq<char>) -> int {
    choose|i: int| 0 <= i < s.len() && s[i].label == l
}

/// `s` with the record carrying `l` spliced out; `s` itself when no record
/// carries `l`.
pub open spec fn drop_label(s: Seq<WindowStateView>, l: Seq<char>) -> Seq<WindowStateView> {
    if has_label(s, l) {
        s.remove(index_of_label(s, l))
    } else {
        s
    }
}

/// Every record of `s`, with focus cleared.
pub open spec fn all_unfocused(s: Seq<WindowStateView>) -> Seq<WindowStateView> {
    Seq::new(s.len(), |i: int| unfocused(s[i]))
}

/// A freshly registered record: focused, restored flags clear, both
/// timestamps at the registration instant.
pub open spec fn new_record(
    label: Seq<char>,
    cfg: WindowConfigView,
    z: u32,
    now: u64,
) -> WindowStateView {
    WindowStateView {
        label: label,
        config: cfg,
        z_order: z,
        is_focused: true,
        is_minimized: false,
        is_maximized: false,
        monitor_id: None,
        created_at: now,
        last_focused_at: now,
    }
}

/// Registration as a transition on the registry's mathematical image: any
/// record already carrying the label is dropped, every survivor loses focus,
/// and the new record arrives focused at the back with the next z-order.
pub open spec fn register_spec(
    v: RegistryView,
    label: Seq<char>,
    cfg: WindowConfigView,
    now: u64,
) -> RegistryView {
    let z = (v.counter + 1) as u32;
    RegistryView {
        windows: all_unfocused(drop_label(v.windows, label)).push(new_record(label, cfg, z, now)),
        counter: z,
        focused: Some(label),
    }
}

/// Removal as a transition on the registry's mathematical image. An unknown
/// label changes nothing. Otherwise the record is spliced out; if it held
/// focus, focus falls back to the surviving record with the greatest
/// `last_focused_at` (ties broken by the higher z-order), or to nobody when
/// none survive.
pub open spec fn remove_spec(v: RegistryView, label: Seq<char>) -> RegistryView {
    if !has_label(v.windows, label) {
        v
    } else {
        let k = index_of_label(v.windows, label);
        let rest = v.windows.remove(k);
        if !v.windows[k].is_focused {
            RegistryView { windows: rest, ..v }
        } else if rest.len() == 0 {
            RegistryView { windows: rest, counter: v.counter, focused: None }
        } else {
            let m = choose|m: int| is_fallback_choice(rest, m);
            RegistryView {
                windows: rest.update(m, WindowStateView { is_focused: true, ..rest[m] }),
                counter: v.counter,
                focused: Some(rest[m].label),
            }
        }
    }
}

/// Among records with pairwise distinct z-orders, a fallback choice exists
/// as soon as any record does: the most-recently-focused record, ties going
/// to the higher z-order.
pub proof fn lemma_fallback_choice_exists(s: Seq<WindowStateView>)
    requires
        s.len() > 0,
        forall|i: int, j: int| 0 <= i < j < s.len() ==> s[i].z_order != s[j].z_order,
    ensures
        exists|m: int| is_fallback_choice(s, m),
    decreases s.len(),
{
    if s.len() == 1 {
        assert(is_fallback_choice(s, 0));
    } else {
        let sub = s.drop_last();
        assert(forall|i: int| 0 <= i < sub.len() ==> sub[i] == s[i]);
        lemma_fallback_choice_exists(sub);
        let m = choose|m: int| is_fallback_choice(sub, m);
        let last = s.len() - 1;
        if s[last].last_focused_at > s[m].last_focused_at || (s[last].last_focused_at
            == s[m].last_focused_at && s[last].z_order > s[m].z_order) {
            assert forall|j: int| 0 <= j < s.len() && j != last implies (s[j].last_focused_at
                < s[last].last_focused_at || (s[j].last_focused_at == s[last].last_focused_at
                && s[j].z_order < s[last].z_order)) by {
                if j != m {
                    assert(sub[j].last_focused_at < sub[m].last_focused_at || (
                    sub[j].last_focused_at == sub[m].last_focused_at && sub[j].z_order
                        < sub[m].z_order));
                }
            }
            assert(is_fallback_choice(s, last));
        } else {
            assert forall|j: int| 0 <= j < s.len() && j != m implies (s[j].last_focused_at
                < s[m].last_focused_at || (s[j].last_focused_at == s[m].last_focused_at
                && s[j].z_order < s[m].z_order)) by {
                if j != last {
                    assert(sub[j].last_focused_at < sub[m].last_focused_at || (
                    sub[j].last_focused_at == sub[m].last_focused_at && sub[j].z_order
                        < sub[m].z_order));
                } else {
                    assert(s[last].z_order != s[m].z_order);
                }
            }
            assert(is_fallback_choice(s, m));
        }
    }
}

/// The fallback choice is unique: two indices that each beat every other
/// record are the same index.
pub proof fn lemma_fallback_choice_unique(s: Seq<WindowStateView>, m1: int, m2: int)
    requires
        is_fallback_choice(s, m1),
        is_fallback_choice(s, m2),
    ensures
        m1 == m2,
{
}

/// Focus exclusivity: under the registry invariant — which every operation
/// preserves — exactly one record is focused when any record exists, and
/// none is focused when the registry is empty.
pub proof fn lemma_focus_exclusivity(v: RegistryView)
    requires
        registry_wf(v),
    ensures
        v.windows.len() > 0 ==> exists|i: int|
            0 <= i < v.windows.len() && (#[trigger] v.windows[i].is_focused) && forall|j: int|
                0 <= j < v.windows.len() && v.windows[j].is_focused ==> j == i,
        v.windows.len() == 0 ==> forall|j: int|
            0 <= j < v.windows.len() ==> !(#[trigger] v.windows[j].is_focused),
{
    if v.windows.len() > 0 {
        let i = choose|i: int| 0 <= i < v.windows.len() && v.windows[i].is_focused;
        assert(0 <= i < v.windows.len() && v.windows[i].is_focused && forall|j: int|
            0 <= j < v.windows.len() && v.windows[j].is_focused ==> j == i);
    }
}

/// Distinct stacking: under the registry invariant, no two live records
/// share a z-order value.
pub proof fn lemma_z_order_distinct(v: RegistryView)
    requires
        registry_wf(v),
    ensures
        forall|i: int, j: int|
            0 <= i < j < v.windows.len() ==> v.windows[i].z_order != v.windows[j].z_order,
{
}

/// Focusing is idempotent: focusing a label right after focusing the same
/// label changes nothing — the record stays focused and keeps the z-order
/// the first call gave it, whatever instant the second call carries.
pub proof fn lemma_focus_idempotent(v: RegistryView, label: Seq<char>, t1: u64, t2: u64)
    requires
        registry_wf(v),
        v.counter < u32::MAX,
    ensures
        focus_spec(focus_spec(v, label, t1), label, t2) == focus_spec(v, label, t1),
{
    let v1 = focus_spec(v, label, t1);
    if !has_label(v.windows, label) {
        assert(v1 == v);
        assert(focus_spec(v1, label, t2) == v1);
    } else {
        let k = index_of_label(v.windows, label);
        assert(v.windows[k].label == label);
        if v.windows[k].is_focused && v.windows[k].z_order == v.counter {
            assert(v1 == v);
            assert(focus_spec(v1, label, t2) == v1);
        } else {
            assert(v1.windows[k].label == label);
            assert(has_label(v1.windows, label));
            let k2 = index_of_label(v1.windows, label);
            assert(0 <= k2 < v1.windows.len() && v1.windows[k2].label == label);
            if k2 != k {
                assert(v1.windows[k2].label == v.windows[k2].label);
                assert(v.windows[k2].label != label);
            }
            assert(k2 == k);
            assert(v1.windows[k].is_focused && v1.windows[k].z_order == v1.counter);
            assert(focus_spec(v1, label, t2) == v1);
        }
    }
}

/// Whether the record carrying `label` is focused and holds the strictly
/// greatest z-order of any record.
pub open spec fn focused_tops_stack(v: RegistryView, label: Seq<char>) -> bool {
    exists|k: int|
        0 <= k < v.windows.len() && #[trigger] v.windows[k].is_focused && v.windows[k].label
            == label && forall|j: int|
            0 <= j < v.windows.len() && j != k ==> v.windows[j].z_order < v.windows[k].z_order
}

/// Focusing as a transition on the registry's mathematical image. An
/// unknown label changes nothing. A label whose record is already focused
/// and already carries the top z-order changes nothing either — raising an
/// already-top, already-focused window is a no-op. Otherwise every other
/// record loses focus and the target becomes focused, stamped with `now`,
/// and raised to a fresh top z-order.
pub open spec fn focus_spec(v: RegistryView, label: Seq<char>, now: u64) -> RegistryView {
    if !has_label(v.windows, label) {
        v
    } else {
        let k = index_of_label(v.windows, label);
        if v.windows[k].is_focused && v.windows[k].z_order == v.counter {
            v
        } else {
            let z = (v.counter + 1) as u32;
            RegistryView {
                windows: Seq::new(
                    v.windows.len(),
                    |i: int|
                        if i == k {
                            WindowStateView {
                                is_focused: true,
                                last_focused_at: now,
                                z_order: z,
                                ..v.windows[i]
                            }
                        } else {
                            unfocused(v.windows[i])
                        },
                ),
                counter: z,
                focused: Some(label),
            }
        }
    }
}

/// A state update as a transition on the registry's mathematical image:
/// only the fields handed in as `Some` change, and only on the record
/// carrying `label`; an unknown label changes nothing. The monitor
/// association can be set, never cleared.
pub open spec fn update_state_spec(
    v: RegistryView,
    label: Seq<char>,
    is_minimized: Option<bool>,
    is_maximized: Option<bool>,
    monitor_id: Option<Seq<char>>,
) -> RegistryView {
    if !has_label(v.windows, label) {
        v
    } else {
        let k = index_of_label(v.windows, label);
        let w = v.windows[k];
        let w1 = WindowStateView {
            is_minimized: if is_minimized is Some {
                is_minimized->0
            } else {
                w.is_minimized
            },
            is_maximized: if is_maximized is Some {
                is_maximized->0
            } else {
                w.is_maximized
            },
            monitor_id: if monitor_id is Some {
                monitor_id
            } else {
                w.monitor_id
            },
            ..w
        };
        RegistryView { windows: v.windows.update(k, w1), ..v }
    }
}

/// In-memory authority over window identity, stacking order and focus.
/// Queries hand out owned snapshots; nothing aliases the internal records.
pub struct WindowRegistry {
    windows: Vec<WindowState>,
    z_order_counter: u32,
    focused_window: Option<String>,
}

impl View for WindowRegistry {
    type V = RegistryView;

    closed spec fn view(&self) -> RegistryView {
        RegistryView {
            windows: Seq::new(self.windows@.len(), |i: int| self.windows@[i]@),
            counter: self.z_order_counter,
            focused: opt_str_view(self.focused_window),
        }
    }
}

impl WindowRegistry {
    /// The registry invariant, as a predicate on the receiver.
    pub open spec fn wf(&self) -> bool {
        registry_wf(self@)
    }

    /// An empty registry: no records, no focus, counter at zero.
    pub fn new() -> (r: WindowRegistry)
        ensures
            r.wf(),
            r@.windows.len() == 0,
            r@.counter == 0,
            r@.focused is None,
    {
        WindowRegistry { windows: Vec::new(), z_order_counter: 0, focused_window: None }
    }

    /// Whether a fresh z-order value can still be assigned. Exhaustion of
    /// the z-order space is treated as fatal by callers; this query lets an
    /// adapter check before registering or focusing.
    pub fn has_z_headroom(&self) -> (r: bool)
        ensures
            r == (self@.counter < u32::MAX),
    {
        self.z_order_counter < u32::MAX
    }

    /// The index of the record carrying `label`, if any.
    fn find_index(&self, label: &str) -> (r: Option<usize>)
        ensures
            match r {
                Some(i) => i < self@.windows.len() && self@.windows[i as int].label == label@,
                None => !has_label(self@.windows, label@),
            },
    {
        let sought = String::from_str(label);
        let mut i: usize = 0;
        while i < self.windows.len()
            invariant
                sought@ == label@,
                i <= self@.windows.len(),
                forall|j: int| 0 <= j < i ==> self@.windows[j].label != label@,
            decreases self@.windows.len() - i,
        {
            if self.windows[i].label.eq(&sought) {
                return Some(i);
            }
            i += 1;
        }
        None
    }

    /// A snapshot of the record carrying `label`, or `None` for an unknown
    /// label.
    pub fn get_window(&self, label: &str) -> (r: Option<WindowState>)
        ensures
            match r {
                Some(w) => exists|i: int|
                    0 <= i < self@.windows.len() && self@.windows[i] == w@ && w@.label == label@,
                None => !has_label(self@.windows, label@),
            },
    {
        match self.find_index(label) {
            Some(i) => Some(self.windows[i].duplicate()),
            None => None,
        }
    }

    /// A snapshot of the focused record: `Some` exactly when the registry is
    /// non-empty, and then the one record with `is_focused` set.
    pub fn get_focused_window(&self) -> (r: Option<WindowState>)
        requires
            self.wf(),
        ensures
            match r {
                Some(w) => exists|i: int|
                    0 <= i < self@.windows.len() && self@.windows[i] == w@ && w@.is_focused,
                None => self@.windows.len() == 0,
            },
    {
        match &self.focused_window {
            Some(l) => {
                let l_copy = l.clone();
                match self.find_index(l_copy.as_str()) {
                    Some(i) => Some(self.windows[i].duplicate()),
                    None => None,
                }
            },
            None => None,
        }
    }

    /// Clears the `is_focused` flag on every record; the focused label and
    /// the counter are untouched.
    fn clear_focus_flags(&mut self)
        ensures
            final(self)@.windows =~= all_unfocused(old(self)@.windows),
            final(self)@.counter == old(self)@.counter,
            final(self)@.focused == old(self)@.focused,
    {
        let ghost base = self@.windows;
        let mut i: usize = 0;
        while i < self.windows.len()
            invariant
                self@.windows.len() == base.len(),
                forall|j: int| 0 <= j < i ==> self@.windows[j] == unfocused(base[j]),
                forall|j: int| i <= j < base.len() ==> self@.windows[j] == base[j],
                self@.counter == old(self)@.counter,
                self@.focused == old(self)@.focused,
            decreases base.len() - i,
        {
            let ghost pre = self@.windows;
            self.windows[i].is_focused = false;
            proof {
                assert forall|j: int| 0 <= j < i + 1 implies self@.windows[j] == unfocused(
                    base[j],
                ) by {
                    if j < i {
                        assert(pre[j] == unfocused(base[j]));
                        assert(self@.windows[j] == pre[j]);
                    } else {
                        assert(self@.windows[j] == unfocused(base[j]));
                    }
                }
            }
            i += 1;
        }
        assert(self@.windows =~= all_unfocused(base));
    }

    /// Registers a window under `label`: any earlier record with that label
    /// is replaced, focus moves to the new record, and it receives a fresh
    /// top z-order. `now` is the registration instant in milliseconds, used
    /// for both timestamps. The new record's z-order strictly tops every
    /// other record's.
    pub fn add_window(&mut self, label: String, config: WindowConfig, now: u64)
        requires
            old(self).wf(),
            old(self)@.counter < u32::MAX,
        ensures
            final(self).wf(),
            final(self)@ =~= register_spec(old(self)@, label@, config@, now),
            forall|j: int|
                0 <= j < final(self)@.windows.len() - 1 ==> #[trigger] final(self)@.windows[j].z_order
                    < final(self)@.windows.last().z_order,
    {
        proof {
            if has_label(self@.windows, label@) {
                self@.windows.remove_ensures(index_of_label(self@.windows, label@));
            }
        }
        if let Some(i) = self.find_index(label.as_str()) {
            self.windows.remove(i);
            proof {
                let k = index_of_label(old(self)@.windows, label@);
                assert(old(self)@.windows[k].label == label@);
                assert(k == i);
                assert(self@.windows =~= drop_label(old(self)@.windows, label@));
            }
        }
        self.clear_focus_flags();
        self.z_order_counter = self.z_order_counter + 1;
        let record = WindowState {
            label: label.clone(),
            config,
            z_order: self.z_order_counter,
            is_focused: true,
            is_minimized: false,
            is_maximized: false,
            monitor_id: None,
            created_at: now,
            last_focused_at: now,
        };
        self.windows.push(record);
        self.focused_window = Some(label);
        proof {
            let fv = self@;
            let sv = register_spec(old(self)@, label@, config@, now);
            assert(fv.windows =~= sv.windows);
            assert(fv =~= sv);
        }
    }

    /// Focuses the record carrying `label` and raises it to the top of the
    /// stack, stamping `last_focused_at` with `now`; an unknown label is a
    /// no-op, and so is focusing a window that is already focused and on
    /// top. Afterwards, whenever the label exists, the focused record holds
    /// the strictly greatest z-order.
    pub fn focus_window(&mut self, label: &str, now: u64)
        requires
            old(self).wf(),
            old(self)@.counter < u32::MAX,
        ensures
            final(self).wf(),
            final(self)@ =~= focus_spec(old(self)@, label@, now),
            has_label(old(self)@.windows, label@) ==> focused_tops_stack(final(self)@, label@),
    {
        let found = self.find_index(label);
        match found {
            None => {},
            Some(k) => {
                proof {
                    let ki = index_of_label(self@.windows, label@);
                    assert(self@.windows[ki].label == label@);
                    assert(ki == k);
                }
                if self.windows[k].is_focused && self.windows[k].z_order == self.z_order_counter {
                    proof {
                        assert forall|j: int|
                            0 <= j < self@.windows.len() && j != k implies self@.windows[j].z_order
                            < self@.windows[k as int].z_order by {
                            assert(self@.windows[j].z_order <= self@.counter);
                        }
                    }
                } else {
                    self.clear_focus_flags();
                    let ghost mid = self@.windows;
                    self.z_order_counter = self.z_order_counter + 1;
                    let mut w = self.windows[k].duplicate();
                    w.is_focused = true;
                    w.last_focused_at = now;
                    w.z_order = self.z_order_counter;
                    self.windows[k] = w;
                    self.focused_window = Some(String::from_str(label));
                    proof {
                        let ov = old(self)@;
                        let fv = self@;
                        let sv = focus_spec(ov, label@, now);
                        assert forall|j: int| 0 <= j < fv.windows.len() implies fv.windows[j]
                            == sv.windows[j] by {
                            assert(mid[j] == unfocused(ov.windows[j]));
                            if j != k {
                                assert(fv.windows[j] == mid[j]);
                            }
                        }
                        assert(fv.windows =~= sv.windows);
                        assert(fv =~= sv);
                        // the invariant survives: identities are untouched, and the
                        // raised record's fresh z-order strictly tops the rest
                        assert forall|i: int| 0 <= i < fv.windows.len() implies fv.windows[i].label
                            == ov.windows[i].label && (i != k ==> fv.windows[i].z_order
                            == ov.windows[i].z_order && !fv.windows[i].is_focused) by {
                            assert(mid[i] == unfocused(ov.windows[i]));
                        }
                        assert forall|j: int|
                            0 <= j < fv.windows.len() && j != k implies fv.windows[j].z_order
                            < fv.windows[k as int].z_order by {
                            assert(ov.windows[j].z_order <= ov.counter);
                        }
                        assert(fv.windows[k as int].is_focused && fv.windows[k as int].label
                            == label@);
                    }
                }
            },
        }
    }

    /// A snapshot of every record, sorted by strictly descending z-order:
    /// the frontmost window first. Read-only; the snapshot holds the same
    /// records as the registry, each exactly once.
    pub fn get_windows_by_z_order(&self) -> (r: Vec<WindowState>)
        requires
            self.wf(),
        ensures
            views_of(r@).to_multiset() == self@.windows.to_multiset(),
            r@.len() == self@.windows.len(),
            forall|i: int, j: int|
                0 <= i < j < r@.len() ==> #[trigger] views_of(r@)[i].z_order > #[trigger] views_of(
                    r@,
                )[j].z_order,
    {
        broadcast use vstd::seq_lib::group_to_multiset_ensures;
        broadcast use vstd::multiset::group_multiset_axioms;

        let mut source: Vec<WindowState> = Vec::new();
        let mut i: usize = 0;
        while i < self.windows.len()
            invariant
                i <= self@.windows.len(),
                source@.len() == i,
                forall|j: int| 0 <= j < i ==> views_of(source@)[j] == self@.windows[j],
            decreases self@.windows.len() - i,
        {
            source.push(self.windows[i].duplicate());
            i += 1;
        }
        assert(views_of(source@) =~= self@.windows);
        let ghost whole = self@.windows.to_multiset();
        assert(views_of(source@).to_multiset() == whole);
        let mut out: Vec<WindowState> = Vec::new();
        while source.len() > 0
            invariant
                views_of(out@).to_multiset().add(views_of(source@).to_multiset()) == whole,
                out@.len() + source@.len() == self@.windows.len(),
                forall|a: int, b: int|
                    0 <= a < b < source@.len() ==> views_of(source@)[a].z_order != views_of(
                        source@,
                    )[b].z_order,
                forall|a: int, b: int|
                    0 <= a < b < out@.len() ==> #[trigger] views_of(out@)[a].z_order
                        > #[trigger] views_of(out@)[b].z_order,
                forall|a: int, b: int|
                    0 <= a < out@.len() && 0 <= b < source@.len() ==> #[trigger] views_of(
                        out@,
                    )[a].z_order > #[trigger] views_of(source@)[b].z_order,
            decreases source@.len(),
        {
            let mut m: usize = 0;
            let mut t: usize = 1;
            while t < source.len()
                invariant
                    m < t <= source@.len(),
                    forall|j: int|
                        0 <= j < t ==> #[trigger] views_of(source@)[j].z_order <= views_of(
                            source@,
                        )[m as int].z_order,
                decreases source@.len() - t,
            {
                if source[t].z_order > source[m].z_order {
                    m = t;
                }
                t += 1;
            }
            let ghost pre_src = source@;
            let ghost pre_out = out@;
            let w = source.remove(m);
            out.push(w);
            proof {
                let wv = w@;
                views_of(pre_out).to_multiset_ensures();
                views_of(pre_src).to_multiset_ensures();
                assert(views_of(pre_src)[m as int] == wv);
                assert(views_of(source@) =~= views_of(pre_src).remove(m as int));
                assert(views_of(out@) =~= views_of(pre_out).push(wv));
                assert(views_of(pre_src).contains(wv));
                assert(views_of(pre_out).push(wv).to_multiset() =~= views_of(
                    pre_out,
                ).to_multiset().insert(wv));
                assert(views_of(pre_src).remove(m as int).to_multiset() =~= views_of(
                    pre_src,
                ).to_multiset().remove(wv));
                assert(views_of(pre_src).to_multiset().count(wv) > 0);
                assert(views_of(out@).to_multiset() == views_of(pre_out).to_multiset().insert(wv));
                assert(views_of(source@).to_multiset() == views_of(pre_src).to_multiset().remove(
                    wv,
                ));
                assert(views_of(out@).to_multiset().add(views_of(source@).to_multiset()) =~= whole);
                // the survivors keep pairwise distinct z-orders
                assert forall|a: int, b: int|
                    0 <= a < b < source@.len() implies views_of(source@)[a].z_order != views_of(
                    source@,
                )[b].z_order by {
                    let oa = if a < m { a } else { a + 1 };
                    let ob = if b < m { b } else { b + 1 };
                    assert(views_of(source@)[a] == views_of(pre_src)[oa]);
                    assert(views_of(source@)[b] == views_of(pre_src)[ob]);
                }
                // the extracted record strictly tops every survivor
                assert forall|b: int| 0 <= b < source@.len() implies wv.z_order > views_of(
                    source@,
                )[b].z_order by {
                    let ob = if b < m { b } else { b + 1 };
                    assert(views_of(source@)[b] == views_of(pre_src)[ob]);
                    assert(views_of(pre_src)[ob].z_order <= wv.z_order);
                }
            }
        }
        proof {
            let em = views_of(source@).to_multiset();
            assert forall|x: WindowStateView| em.count(x) == 0 by {
                assert(!views_of(source@).contains(x));
            }
            assert(views_of(out@).to_multiset().add(em) =~= views_of(out@).to_multiset());
        }
        out
    }

    /// Removes the record carrying `label`; an unknown label is a no-op.
    /// When the removed record held focus, focus falls back to the survivor
    /// with the greatest `last_focused_at`, ties broken by the higher
    /// z-order; when none survive, no record is focused.
    pub fn remove_window(&mut self, label: &str)
        requires
            old(self).wf(),
        ensures
            final(self).wf(),
            final(self)@ =~= remove_spec(old(self)@, label@),
    {
        let found = self.find_index(label);
        match found {
            None => {},
            Some(k) => {
                proof {
                    let ki = index_of_label(self@.windows, label@);
                    assert(self@.windows[ki].label == label@);
                    assert(ki == k);
                    self@.windows.remove_ensures(k as int);
                }
                let removed = self.windows.remove(k);
                let ghost rest = self@.windows;
                proof {
                    let ov = old(self)@;
                    assert forall|a: int| 0 <= a < rest.len() implies rest[a] == (if a < k {
                        ov.windows[a]
                    } else {
                        ov.windows[a + 1]
                    }) by {}
                    assert forall|a: int, b: int| 0 <= a < b < rest.len() implies rest[a].z_order
                        != rest[b].z_order && rest[a].label != rest[b].label by {
                        let oa = if a < k { a } else { a + 1 };
                        let ob = if b < k { b } else { b + 1 };
                        assert(rest[a] == ov.windows[oa]);
                        assert(rest[b] == ov.windows[ob]);
                        assert(0 <= oa < ob < ov.windows.len());
                    }
                    assert(rest =~= ov.windows.remove(k as int));
                    if removed.is_focused {
                        assert forall|a: int| 0 <= a < rest.len() implies !rest[a].is_focused by {
                            let oa = if a < k { a } else { a + 1 };
                            assert(rest[a] == ov.windows[oa]);
                            assert(ov.windows[k as int].is_focused);
                        }
                    }
                }
                if removed.is_focused {
                    self.focused_window = None;
                    if self.windows.len() > 0 {
                        proof {
                            lemma_fallback_choice_exists(rest);
                        }
                        let mut best: usize = 0;
                        let mut i: usize = 1;
                        while i < self.windows.len()
                            invariant
                                self@.windows == rest,
                                rest.len() > 0,
                                forall|a: int, b: int|
                                    0 <= a < b < rest.len() ==> rest[a].z_order != rest[b].z_order,
                                best < i <= rest.len(),
                                forall|j: int|
                                    0 <= j < i && j != best ==> (rest[j].last_focused_at
                                        < rest[best as int].last_focused_at || (
                                    rest[j].last_focused_at == rest[best as int].last_focused_at
                                        && rest[j].z_order < rest[best as int].z_order)),
                            decreases rest.len() - i,
                        {
                            let better = self.windows[i].last_focused_at
                                > self.windows[best].last_focused_at || (
                            self.windows[i].last_focused_at == self.windows[best].last_focused_at
                                && self.windows[i].z_order > self.windows[best].z_order);
                            if better {
                                best = i;
                            }
                            i += 1;
                        }
                        assert(is_fallback_choice(rest, best as int));
                        let mut w = self.windows[best].duplicate();
                        w.is_focused = true;
                        let fallback_label = w.label.clone();
                        self.windows[best] = w;
                        self.focused_window = Some(fallback_label);
                        proof {
                            let ov = old(self)@;
                            let m = choose|m: int| is_fallback_choice(rest, m);
                            lemma_fallback_choice_unique(rest, best as int, m);
                            let fv = self@;
                            let sv = remove_spec(ov, label@);
                            assert(fv.windows =~= sv.windows);
                            assert(fv =~= sv);
                            assert forall|a: int| 0 <= a < fv.windows.len() implies
                                fv.windows[a].label == rest[a].label && fv.windows[a].z_order
                                == rest[a].z_order && (fv.windows[a].is_focused <==> a
                                == best) by {}
                            assert forall|a: int| 0 <= a < rest.len() implies 1 <= #[trigger] rest[a].z_order
                                && rest[a].z_order <= ov.counter by {
                                let oa = if a < k { a } else { a + 1 };
                                assert(rest[a] == ov.windows[oa]);
                            }
                            assert(registry_wf(fv));
                        }
                    }
                } else {
                    proof {
                        let ov = old(self)@;
                        let fv = self@;
                        let sv = remove_spec(ov, label@);
                        assert(fv.windows =~= sv.windows);
                        // the focused record survives the splice: it sat at some
                        // index other than the removed one
                        let fi = choose|fi: int|
                            0 <= fi < ov.windows.len() && ov.windows[fi].is_focused;
                        if ov.windows.len() > 0 {
                            assert(ov.windows[fi].is_focused);
                            assert(fi != k);
                            if fi < k {
                                assert(fv.windows[fi].is_focused);
                            } else {
                                assert(fv.windows[fi - 1].is_focused);
                            }
                        }
                        assert(fv =~= sv);
                        assert forall|a: int| 0 <= a < rest.len() implies 1 <= #[trigger] rest[a].z_order
                            && rest[a].z_order <= ov.counter by {
                            let oa = if a < k { a } else { a + 1 };
                            assert(rest[a] == ov.windows[oa]);
                        }
                        assert forall|a: int, b: int|
                            0 <= a < rest.len() && 0 <= b < rest.len() && rest[a].is_focused
                                && rest[b].is_focused implies a == b by {
                            let oa = if a < k { a } else { a + 1 };
                            let ob = if b < k { b } else { b + 1 };
                            assert(rest[a] == ov.windows[oa]);
                            assert(rest[b] == ov.windows[ob]);
                        }
                        assert(registry_wf(fv));
                    }
                }
            },
        }
    }

    /// Applies the handed-in overrides to the record carrying `label`:
    /// fields passed as `None` stay untouched, and an unknown label is a
    /// no-op. No relation between the minimized and maximized flags is
    /// enforced.
    pub fn update_window_state(
        &mut self,
        label: &str,
        is_minimized: Option<bool>,
        is_maximized: Option<bool>,
        monitor_id: Option<String>,
    )
        requires
            old(self).wf(),
        ensures
            final(self).wf(),
            final(self)@ =~= update_state_spec(
                old(self)@,
                label@,
                is_minimized,
                is_maximized,
                opt_str_view(monitor_id),
            ),
    {
        let found = self.find_index(label);
        match found {
            None => {},
            Some(k) => {
                proof {
                    let ki = index_of_label(self@.windows, label@);
                    assert(self@.windows[ki].label == label@);
                    assert(ki == k);
                }
                let ghost monitor_arg = opt_str_view(monitor_id);
                let mut w = self.windows[k].duplicate();
                if let Some(m) = is_minimized {
                    w.is_minimized = m;
                }
                if let Some(m) = is_maximized {
                    w.is_maximized = m;
                }
                match monitor_id {
                    Some(m) => {
                        w.monitor_id = Some(m);
                    },
                    None => {},
                }
                self.windows[k] = w;
                proof {
                    let ov = old(self)@;
                    let fv = self@;
                    let sv = update_state_spec(
                        ov,
                        label@,
                        is_minimized,
                        is_maximized,
                        monitor_arg,
                    );
                    assert(fv.windows =~= sv.windows);
                    assert(fv =~= sv);
                    // only presentation fields changed: identity, stacking and
                    // focus are exactly as before, so the invariant carries over
                    assert forall|i: int| 0 <= i < fv.windows.len() implies fv.windows[i].label
                        == ov.windows[i].label && fv.windows[i].z_order == ov.windows[i].z_order
                        && fv.windows[i].is_focused == ov.windows[i].is_focused by {}
                }
            },
        }
    }
}

} // verus!
