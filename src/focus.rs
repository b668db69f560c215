use vstd::prelude::*;
use crate::topology::{
    Snapshot, texts, get_all_focusable_ids, sort_groups, group_label, parent_group_position,
};
use crate::text::arranged;

verus! {

/// What a navigation request did to the focus.
pub enum FocusMove {
    /// The focus moves to this id.
    Changed(String),
    /// Nothing to do: the focus stays where it is.
    Unchanged,
}

pub open spec fn opt_text(o: Option<String>) -> Option<Seq<char>> {
    match o {
        Some(s) => Some(s@),
        None => None,
    }
}

/// Where travel enters a sequence when there is no usable focus: at the start going
/// forward, at the end otherwise.
pub open spec fn entry_point(delta: int, ids: Seq<Seq<char>>) -> Seq<char> {
    if delta > 0 {
        ids[0]
    } else {
        ids.last()
    }
}

/// Clamped, non-wrapping move by `delta` from index `i`; `None` when already at the edge
/// the move pushes against.
pub open spec fn clamped_step(i: int, delta: int, ids: Seq<Seq<char>>) -> Option<Seq<char>> {
    let t = i + delta;
    if 0 <= t < ids.len() {
        Some(ids[t])
    } else if t < 0 {
        if i > 0 {
            Some(ids[0])
        } else {
            None
        }
    } else if i < ids.len() - 1 {
        Some(ids.last())
    } else {
        None
    }
}

/// Where a row move aims, before it is compared with the current focus.
pub open spec fn row_target(delta: int, focus: Option<Seq<char>>, ids: Seq<Seq<char>>) -> Option<
    Seq<char>,
> {
    if ids.len() == 0 {
        None
    } else {
        match focus {
            None => Some(entry_point(delta, ids)),
            Some(f) => match ids.index_of_first(f) {
                None => Some(entry_point(delta, ids)),
                Some(i) => clamped_step(i, delta, ids),
            },
        }
    }
}

/// Target index of a group jump from inside the group at index `p`: backwards lands on
/// the group itself, forwards on the next one; clamped to the sequence.
pub open spec fn jump_index(p: int, delta: int, len: int) -> int {
    let t = p + delta + (if delta < 0 {
        1int
    } else {
        0int
    });
    if t < 0 {
        0
    } else if t > len - 1 {
        len - 1
    } else {
        t
    }
}

/// Where a group move aims, before it is compared with the current focus.
pub open spec fn group_target(delta: int, focus: Option<Seq<char>>, s: Snapshot) -> Option<
    Seq<char>,
> {
    let gs = s.group_order();
    if gs.len() == 0 {
        None
    } else {
        match focus {
            None => Some(entry_point(delta, gs)),
            Some(f) => match gs.index_of_first(f) {
                Some(i) => clamped_step(i, delta, gs),
                None => match s.parent_index(f) {
                    None => Some(entry_point(delta, gs)),
                    Some(p) => Some(gs[jump_index(p, delta, gs.len() as int)]),
                },
            },
        }
    }
}

/// The move that reaching `target` from `focus` makes: a change only when the target
/// exists and differs from the focus.
pub open spec fn settles(r: FocusMove, target: Option<Seq<char>>, focus: Option<Seq<char>>) -> bool {
    match r {
        FocusMove::Changed(s) => target == Some(s@) && focus != Some(s@),
        FocusMove::Unchanged => target is None || target == focus,
    }
}

/// Index of the first occurrence of `f` in `ids`.
fn position(ids: &Vec<String>, f: &String) -> (r: Option<usize>)
    ensures
        match r {
            Some(i) => i < ids@.len() && texts(ids@).index_of_first(f@) == Some(i as int),
            None => texts(ids@).index_of_first(f@) is None,
        },
{
    let ghost t = texts(ids@);
    for k in 0..ids.len()
        invariant
            t == texts(ids@),
            forall|j: int| 0 <= j < k ==> t[j] != f@,
    {
        if ids[k] == *f {
            proof {
                t.index_of_first_ensures(f@);
                assert(t[k as int] == f@);
                match t.index_of_first(f@) {
                    Some(j) => {
                        if j < k {
                            assert(t[j] != f@);
                        } else if j > k {
                            assert(t[k as int] != f@);
                        }
                    },
                    None => {
                        assert(t.contains(f@));
                    },
                }
            }
            return Some(k);
        }
    }
    proof {
        t.index_of_first_ensures(f@);
    }
    None
}

/// The entry point of a non-empty sequence.
fn entry(delta: i16, ids: &Vec<String>) -> (r: String)
    requires
        ids@.len() > 0,
    ensures
        r@ == entry_point(delta as int, texts(ids@)),
{
    if delta > 0 {
        ids[0].clone()
    } else {
        ids[ids.len() - 1].clone()
    }
}

/// The clamped move by `delta` from index `i`.
fn step(i: usize, delta: i16, ids: &Vec<String>) -> (r: Option<String>)
    requires
        i < ids@.len(),
    ensures
        opt_text(r) == clamped_step(i as int, delta as int, texts(ids@)),
{
    let n = ids.len();
    if delta < 0 {
        let back = (0i32 - delta as i32) as usize;
        if back <= i {
            Some(ids[i - back].clone())
        } else if i > 0 {
            Some(ids[0].clone())
        } else {
            None
        }
    } else {
        let ahead = delta as usize;
        if ahead < n - i {
            Some(ids[i + ahead].clone())
        } else if i < n - 1 {
            Some(ids[n - 1].clone())
        } else {
            None
        }
    }
}

/// Compares a target with the focus.
fn settle(target: Option<String>, focus: &Option<String>) -> (r: FocusMove)
    ensures
        settles(r, opt_text(target), opt_text(*focus)),
{
    match target {
        None => FocusMove::Unchanged,
        Some(t) => {
            let same = match focus {
                Some(f) => *f == t,
                None => false,
            };
            if same {
                FocusMove::Unchanged
            } else {
                FocusMove::Changed(t)
            }
        },
    }
}

/// Moves the focus by `delta` rows over every group and endpoint, in display order,
/// without wrapping.
pub fn move_focus(delta: i16, focus: &Option<String>, snapshot: &Snapshot) -> (r: FocusMove)
    requires
        snapshot.well_formed(),
    ensures
        settles(r, row_target(delta as int, opt_text(*focus), snapshot.flat_order()), opt_text(*focus)),
{
    let ids = get_all_focusable_ids(snapshot);
    let target = if ids.len() == 0 {
        None
    } else {
        match focus {
            None => Some(entry(delta, &ids)),
            Some(f) => match position(&ids, f) {
                None => Some(entry(delta, &ids)),
                Some(i) => step(i, delta, &ids),
            },
        }
    };
    settle(target, focus)
}

/// Group ids in display order.
pub fn get_group_ids(snapshot: &Snapshot) -> (r: Vec<String>)
    requires
        snapshot.well_formed(),
    ensures
        texts(r@) == snapshot.group_order(),
{
    let order = sort_groups(snapshot);
    let mut ids: Vec<String> = Vec::new();
    for k in 0..order.len()
        invariant
            forall|j: int| 0 <= j < order@.len() ==> order@[j] < snapshot.groups@.len(),
            order@.map_values(|x: usize| group_label(snapshot.groups@[x as int])) == arranged(
                snapshot.group_labels(),
            ),
            texts(ids@) == snapshot.group_order().take(k as int),
    {
        let ghost prev = ids@;
        ids.push(snapshot.groups[order[k]].id.clone());
        proof {
            assert(snapshot.group_order()[k as int] == snapshot.groups@[order@[k as int] as int].id@);
            assert(texts(ids@) =~= texts(prev).push(snapshot.groups@[order@[k as int] as int].id@));
            assert(snapshot.group_order().take(k + 1) =~= snapshot.group_order().take(k as int).push(
                snapshot.group_order()[k as int],
            ));
        }
    }
    assert(snapshot.group_order().take(order@.len() as int) =~= snapshot.group_order());
    ids
}

/// Moves the focus by `delta` groups. From inside a group, moving back lands on that
/// group and moving forward on the next one.
pub fn move_focus_group(delta: i16, focus: &Option<String>, snapshot: &Snapshot) -> (r: FocusMove)
    requires
        snapshot.well_formed(),
    ensures
        settles(r, group_target(delta as int, opt_text(*focus), *snapshot), opt_text(*focus)),
{
    let ids = get_group_ids(snapshot);
    let n = ids.len();
    let target = if n == 0 {
        None
    } else {
        match focus {
            None => Some(entry(delta, &ids)),
            Some(f) => match position(&ids, f) {
                Some(i) => step(i, delta, &ids),
                None => match parent_group_position(f, snapshot) {
                    None => Some(entry(delta, &ids)),
                    Some(p) => {
                        let t: i128 = p as i128 + delta as i128 + if delta < 0 {
                            1i128
                        } else {
                            0i128
                        };
                        let k: usize = if t < 0 {
                            0
                        } else if t > (n - 1) as i128 {
                            n - 1
                        } else {
                            t as usize
                        };
                        Some(ids[k].clone())
                    },
                },
            },
        }
    };
    settle(target, focus)
}

} // verus!
