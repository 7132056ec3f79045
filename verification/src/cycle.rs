//! Focus cycling: the next window in circular order over a z-order-sorted
//! snapshot of labels. Pure: it never touches the registry itself.
use vstd::prelude::*;
use crate::registry::opt_str_view;

verus! {

/// The first index of `l` in `s`, or `-1` when `l` does not occur.
pub open spec fn first_index_of(s: Seq<Seq<char>>, l: Seq<char>) -> int
    decreases s.len(),
{
    if s.len() == 0 {
        -1
    } else if s[0] == l {
        0
    } else {
        let r = first_index_of(s.drop_first(), l);
        if r < 0 {
            -1
        } else {
            r + 1
        }
    }
}

/// The cycle target as a mathematical function: `None` on an empty
/// snapshot; the element after (forward) or before (backward) the current
/// one, wrapping circularly; the first element when there is no current
/// label or it is not in the snapshot.
pub open spec fn cycle_target_spec(
    current: Option<Seq<char>>,
    forward: bool,
    ordered: Seq<Seq<char>>,
) -> Option<Seq<char>> {
    if ordered.len() == 0 {
        None
    } else {
        match current {
            Some(c) => {
                let i = first_index_of(ordered, c);
                if i < 0 {
                    Some(ordered[0])
                } else if forward {
                    Some(ordered[(i + 1) % (ordered.len() as int)])
                } else if i == 0 {
                    Some(ordered[ordered.len() - 1])
                } else {
                    Some(ordered[i - 1])
                }
            },
            None => Some(ordered[0]),
        }
    }
}

/// The first occurrence of `l` really is one: it carries `l`, and nothing
/// before it does.
proof fn lemma_first_index_of(s: Seq<Seq<char>>, l: Seq<char>)
    ensures
        first_index_of(s, l) >= 0 ==> 0 <= first_index_of(s, l) < s.len() && s[first_index_of(
            s,
            l,
        )] == l && forall|j: int| 0 <= j < first_index_of(s, l) ==> s[j] != l,
        first_index_of(s, l) < 0 ==> forall|j: int| 0 <= j < s.len() ==> s[j] != l,
    decreases s.len(),
{
    if s.len() > 0 && s[0] != l {
        let sub = s.drop_first();
        lemma_first_index_of(sub, l);
        let r = first_index_of(sub, l);
        if r >= 0 {
            assert(s[r + 1] == sub[r]);
            assert forall|j: int| 0 <= j < r + 1 implies s[j] != l by {
                if j > 0 {
                    assert(sub[j - 1] == s[j]);
                    assert(sub[j - 1] != l);
                }
            }
        } else {
            assert forall|j: int| 0 <= j < s.len() implies s[j] != l by {
                if j > 0 {
                    assert(sub[j - 1] == s[j]);
                    assert(sub[j - 1] != l);
                }
            }
        }
    }
}

/// The view of the labels in an ordered snapshot.
pub open spec fn labels_view(ordered: Seq<String>) -> Seq<Seq<char>> {
    Seq::new(ordered.len(), |i: int| ordered[i]@)
}

/// The position of the first element of `ordered` equal to `cur`, if any.
fn find_pos(ordered: &Vec<String>, cur: &String) -> (r: Option<usize>)
    ensures
        match r {
            Some(k) => k < ordered@.len() && labels_view(ordered@)[k as int] == cur@ && forall|
                j: int,
            | 0 <= j < k ==> labels_view(ordered@)[j] != cur@,
            None => forall|j: int| 0 <= j < ordered@.len() ==> labels_view(ordered@)[j] != cur@,
        },
{
    let mut i: usize = 0;
    while i < ordered.len()
        invariant
            i <= ordered@.len(),
            forall|j: int| 0 <= j < i ==> labels_view(ordered@)[j] != cur@,
        decreases ordered@.len() - i,
    {
        if ordered[i].eq(cur) {
            return Some(i);
        }
        i += 1;
    }
    None
}

/// Computes which label receives focus next when cycling through the
/// z-order-sorted snapshot `ordered`, starting from `current` and moving
/// forward or backward, wrapping at either end. An empty snapshot yields
/// `None` — the caller treats that as a no-op. A missing or absent current
/// label falls back to the snapshot's first element.
pub fn compute_cycle_target(
    current: &Option<String>,
    forward: bool,
    ordered: &Vec<String>,
) -> (r: Option<String>)
    ensures
        opt_str_view(r) == cycle_target_spec(
            opt_str_view(*current),
            forward,
            labels_view(ordered@),
        ),
        r is Some <==> ordered@.len() > 0,
{
    let ghost labels = labels_view(ordered@);
    if ordered.len() == 0 {
        return None;
    }
    let cur = match current {
        Some(c) => c,
        None => {
            return Some(ordered[0].clone());
        },
    };
    let found = find_pos(ordered, cur);
    proof {
        lemma_first_index_of(labels, cur@);
    }
    match found {
        None => {
            assert(first_index_of(labels, cur@) < 0) by {
                if first_index_of(labels, cur@) >= 0 {
                    assert(labels[first_index_of(labels, cur@)] == cur@);
                }
            }
            Some(ordered[0].clone())
        },
        Some(k) => {
            assert(labels[k as int] == cur@);
            assert(first_index_of(labels, cur@) == k) by {
                let f = first_index_of(labels, cur@);
                assert(f >= 0);
                if f < k {
                    assert(labels[f] == cur@);
                } else if f > k {
                    assert(labels[k as int] != cur@);
                }
            }
            if forward {
                let next = if k + 1 < ordered.len() {
                    k + 1
                } else {
                    0
                };
                proof {
                    if k + 1 < ordered@.len() {
                        vstd::arithmetic::div_mod::lemma_small_mod(
                            (k + 1) as nat,
                            labels.len(),
                        );
                    } else {
                        vstd::arithmetic::div_mod::lemma_mod_self_0(labels.len() as int);
                    }
                }
                assert(next as int == (k + 1) % (labels.len() as int));
                Some(ordered[next].clone())
            } else {
                let prev = if k == 0 {
                    ordered.len() - 1
                } else {
                    k - 1
                };
                Some(ordered[prev].clone())
            }
        },
    }
}

} // verus!
