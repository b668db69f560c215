use vstd::prelude::*;
use crate::text::{
    Label, label_lt, strictly_sorted, arranged, lemma_label_lt_total, lemma_label_lt_transitive,
};
use crate::topology::{Snapshot, Endpoint, group_label, endpoint_label};
use crate::focus::{FocusMove, row_target, group_target, settles};
use crate::shadow::{levels_in_range, level_of_percent, rounded};
use crate::volume::{
    Command, scaled, loudest, effective, scales_members, reconciles, lemma_loudest_bounds,
};

verus! {

/// `x` inserted into a sorted sequence at its place.
spec fn insert_sorted(q: Seq<Label>, x: Label) -> Seq<Label>
    decreases q.len(),
{
    if q.len() == 0 {
        seq![x]
    } else if label_lt(x, q[0]) {
        seq![x] + q
    } else {
        seq![q[0]] + insert_sorted(q.drop_first(), x)
    }
}

proof fn lemma_insert_sorted(q: Seq<Label>, x: Label)
    requires
        strictly_sorted(q),
        !q.contains(x),
    ensures
        strictly_sorted(insert_sorted(q, x)),
        insert_sorted(q, x).to_set() == q.to_set().insert(x),
        insert_sorted(q, x).len() > 0,
        insert_sorted(q, x)[0] == x || (q.len() > 0 && insert_sorted(q, x)[0] == q[0]),
    decreases q.len(),
{
    let r = insert_sorted(q, x);
    if q.len() == 0 {
        assert(r.to_set() =~= q.to_set().insert(x)) by {
            assert(r[0] == x);
        }
    } else if label_lt(x, q[0]) {
        assert forall|i: int, j: int| 0 <= i < j < r.len() implies label_lt(
            #[trigger] r[i],
            #[trigger] r[j],
        ) by {
            if i == 0 {
                if j > 1 {
                    assert(label_lt(q[0], q[j - 1]));
                    lemma_label_lt_transitive(x, q[0], q[j - 1]);
                }
            } else {
                assert(r[i] == q[i - 1] && r[j] == q[j - 1]);
            }
        }
        assert(r.to_set() =~= q.to_set().insert(x)) by {
            assert forall|y: Label| r.to_set().contains(y) <==> q.to_set().insert(x).contains(y) by {
                if r.to_set().contains(y) {
                    let i = choose|i: int| 0 <= i < r.len() && r[i] == y;
                    if i > 0 {
                        assert(q[i - 1] == y);
                    }
                }
                if q.to_set().contains(y) {
                    let i = choose|i: int| 0 <= i < q.len() && q[i] == y;
                    assert(r[i + 1] == y);
                }
                if y == x {
                    assert(r[0] == y);
                }
            }
        }
    } else {
        let rest = q.drop_first();
        assert(strictly_sorted(rest));
        assert(!rest.contains(x)) by {
            if rest.contains(x) {
                let i = choose|i: int| 0 <= i < rest.len() && rest[i] == x;
                assert(q[i + 1] == x);
            }
        }
        lemma_insert_sorted(rest, x);
        let t = insert_sorted(rest, x);
        assert(q.contains(q[0]));
        lemma_label_lt_total(x, q[0]);
        assert(label_lt(q[0], x));
        assert forall|i: int, j: int| 0 <= i < j < r.len() implies label_lt(
            #[trigger] r[i],
            #[trigger] r[j],
        ) by {
            if i == 0 {
                assert(r[j] == t[j - 1]);
                assert(t.to_set().contains(t[j - 1]));
                assert(rest.to_set().insert(x).contains(t[j - 1]));
                if t[j - 1] != x {
                    let k = choose|k: int| 0 <= k < rest.len() && rest[k] == t[j - 1];
                    assert(q[k + 1] == t[j - 1]);
                }
            } else {
                assert(r[i] == t[i - 1] && r[j] == t[j - 1]);
            }
        }
        assert(r.to_set() =~= q.to_set().insert(x)) by {
            assert forall|y: Label| r.to_set().contains(y) <==> q.to_set().insert(x).contains(y) by {
                if r.to_set().contains(y) {
                    let i = choose|i: int| 0 <= i < r.len() && r[i] == y;
                    if i > 0 {
                        assert(t[i - 1] == y);
                        assert(t.to_set().contains(y));
                        if y != x {
                            assert(rest.to_set().contains(y));
                            let k = choose|k: int| 0 <= k < rest.len() && rest[k] == y;
                            assert(q[k + 1] == y);
                        }
                    }
                }
                if q.to_set().contains(y) {
                    let i = choose|i: int| 0 <= i < q.len() && q[i] == y;
                    if i == 0 {
                        assert(r[0] == y);
                    } else {
                        assert(rest[i - 1] == y);
                        assert(rest.to_set().insert(x).contains(y));
                        assert(t.to_set().contains(y));
                        let k = choose|k: int| 0 <= k < t.len() && t[k] == y;
                        assert(r[k + 1] == y);
                    }
                }
                if y == x {
                    assert(rest.to_set().insert(x).contains(x));
                    assert(t.to_set().contains(x));
                    let k = choose|k: int| 0 <= k < t.len() && t[k] == x;
                    assert(r[k + 1] == x);
                }
            }
        }
    }
}

/// Every finite list of labels has a strictly sorted arrangement.
proof fn lemma_sorted_exists(xs: Seq<Label>)
    ensures
        strictly_sorted(arranged(xs.to_set())),
        arranged(xs.to_set()).to_set() == xs.to_set(),
{
    let q = sorted_of(xs);
    assert(strictly_sorted(q) && q.to_set() == xs.to_set());
}

proof fn sorted_of(xs: Seq<Label>) -> (q: Seq<Label>)
    ensures
        strictly_sorted(q),
        q.to_set() == xs.to_set(),
    decreases xs.len(),
{
    if xs.len() == 0 {
        assert(xs.to_set() =~= Set::<Label>::empty());
        assert(Seq::<Label>::empty().to_set() =~= Set::<Label>::empty());
        Seq::empty()
    } else {
        let ys = xs.drop_last();
        let x = xs.last();
        let q = sorted_of(ys);
        assert(xs.to_set() =~= ys.to_set().insert(x)) by {
            assert(xs =~= ys.push(x));
            assert forall|y: Label| xs.to_set().contains(y) <==> ys.to_set().insert(x).contains(y) by {
                if xs.to_set().contains(y) {
                    let i = choose|i: int| 0 <= i < xs.len() && xs[i] == y;
                    if i < xs.len() - 1 {
                        assert(ys[i] == y);
                    }
                }
                if ys.to_set().contains(y) {
                    let i = choose|i: int| 0 <= i < ys.len() && ys[i] == y;
                    assert(xs[i] == y);
                }
                if y == x {
                    assert(xs[xs.len() - 1] == y);
                }
            }
        }
        if q.contains(x) {
            assert(q.to_set().contains(x));
            assert(q.to_set().insert(x) =~= q.to_set());
            q
        } else {
            lemma_insert_sorted(q, x);
            insert_sorted(q, x)
        }
    }
}

/// Groups stand in strictly increasing order of display name, then id, and the group
/// order holds every group of the snapshot: no order of the input shows through.
pub proof fn lemma_group_order_sorted(s: Snapshot)
    ensures
        strictly_sorted(arranged(s.group_labels())),
        arranged(s.group_labels()).to_set() == s.group_labels(),
{
    let xs = s.groups@.map_values(|g: crate::topology::Group| group_label(g));
    assert(xs.to_set() =~= s.group_labels()) by {
        assert forall|l: Label| xs.to_set().contains(l) <==> s.group_labels().contains(l) by {
            if xs.to_set().contains(l) {
                let i = choose|i: int| 0 <= i < xs.len() && xs[i] == l;
                assert(group_label(s.groups@[i]) == l);
            }
            if s.group_labels().contains(l) {
                let i = choose|i: int| 0 <= i < s.groups@.len() && group_label(s.groups@[i]) == l;
                assert(xs[i] == l);
            }
        }
    }
    lemma_sorted_exists(xs);
}

/// The known members of each group stand in strictly increasing order of display name,
/// then id, and the member order holds every known member of the group.
pub proof fn lemma_member_order_sorted(s: Snapshot, gid: Seq<char>)
    ensures
        strictly_sorted(arranged(s.member_labels(gid))),
        arranged(s.member_labels(gid)).to_set() == s.member_labels(gid),
{
    broadcast use vstd::seq_lib::group_filter_ensures;

    let all = s.endpoints@.map_values(|e: Endpoint| endpoint_label(e));
    let keep = |l: Label| s.member_labels(gid).contains(l);
    let xs = all.filter(keep);
    assert(xs.to_set() =~= s.member_labels(gid)) by {
        assert forall|l: Label| xs.to_set().contains(l) <==> s.member_labels(gid).contains(l) by {
            if xs.to_set().contains(l) {
                assert(xs.contains(l));
                let i = choose|i: int| 0 <= i < xs.len() && xs[i] == l;
                assert(keep(xs[i]));
            }
            if s.member_labels(gid).contains(l) {
                let i = choose|i: int|
                    0 <= i < s.endpoints@.len() && s.is_member(gid, s.endpoints@[i].id@)
                        && endpoint_label(s.endpoints@[i]) == l;
                assert(all[i] == l);
                assert(keep(all[i]));
                assert(xs.contains(l));
            }
        }
    }
    lemma_sorted_exists(xs);
}

/// The row order depends on the names and ids alone: two snapshots with the same groups
/// and members under the same names have the same rows in the same order, however their
/// lists were ordered.
pub proof fn lemma_flat_order_by_labels(s1: Snapshot, s2: Snapshot)
    requires
        s1.group_labels() == s2.group_labels(),
        forall|gid: Seq<char>| #[trigger] s1.member_labels(gid) == s2.member_labels(gid),
    ensures
        s1.group_order() == s2.group_order(),
        s1.flat_order() == s2.flat_order(),
{
    let gs = s1.group_order();
    assert(gs.map_values(|gid: Seq<char>| s1.block(gid)) =~= gs.map_values(
        |gid: Seq<char>| s2.block(gid),
    )) by {
        assert forall|i: int| 0 <= i < gs.len() implies s1.block(gs[i]) == s2.block(gs[i]) by {
            assert(s1.member_labels(gs[i]) == s2.member_labels(gs[i]));
        }
    }
}

/// Row moves stop at the ends: moving back from the first row, or forward from the last
/// (when that id stands only there), aims nowhere, so the focus does not change; a
/// repeated move from there keeps finding it where it is.
pub proof fn lemma_row_moves_stop_at_ends(s: Snapshot, delta: int)
    requires
        s.flat_order().len() > 0,
    ensures
        delta < 0 ==> row_target(delta, Some(s.flat_order()[0]), s.flat_order()) is None,
        delta > 0 && (forall|j: int|
            0 <= j < s.flat_order().len() - 1 ==> s.flat_order()[j] != s.flat_order().last())
            ==> row_target(delta, Some(s.flat_order().last()), s.flat_order()) is None,
        forall|r: FocusMove|
            delta < 0 && settles(
                r,
                row_target(delta, Some(s.flat_order()[0]), s.flat_order()),
                Some(s.flat_order()[0]),
            ) ==> r is Unchanged,
{
    let ids = s.flat_order();
    ids.index_of_first_ensures(ids[0]);
    ids.index_of_first_ensures(ids.last());
    match ids.index_of_first(ids[0]) {
        Some(i) => {
            assert(i == 0);
        },
        None => {
            assert(ids.contains(ids[0]));
        },
    }
    if delta > 0 && (forall|j: int| 0 <= j < ids.len() - 1 ==> ids[j] != ids.last()) {
        match ids.index_of_first(ids.last()) {
            Some(i) => {
                assert(i == ids.len() - 1);
            },
            None => {
                assert(ids.contains(ids[ids.len() - 1]));
            },
        }
    }
}

/// A group jump from an endpoint (an id that is no group's) whose first listing group
/// stands at `p` in the group order: backwards lands on that group, forwards on the next
/// one, or on the last group when it is the last.
pub proof fn lemma_group_jump_from_member(s: Snapshot, e: Seq<char>, p: int)
    requires
        !s.group_order().contains(e),
        s.parent_index(e) == Some(p),
    ensures
        0 <= p < s.group_order().len(),
        group_target(-1, Some(e), s) == Some(s.group_order()[p]),
        group_target(1, Some(e), s) == Some(
            s.group_order()[if p + 1 < s.group_order().len() {
                p + 1
            } else {
                s.group_order().len() - 1
            }],
        ),
        s.group_order()[p] != e,
{
    let gs = s.group_order();
    let flags = gs.map_values(|gid: Seq<char>| s.is_member(gid, e));
    flags.index_of_first_ensures(true);
    gs.index_of_first_ensures(e);
    assert(gs.contains(gs[p]));
}

/// Scaling keeps proportions: with the loudest volume `loud` above zero, a member at
/// `level` ends at `level * target / loud` rounded down to a step (so the ratio to the new
/// loudest is kept up to one step), and the loudest ends exactly at `target`.
pub proof fn lemma_scaling_keeps_ratios(level: u64, target: u64, loud: u64)
    requires
        0 < loud,
        level <= loud,
    ensures
        scaled(level, target, loud) * loud <= level * target,
        level * target < (scaled(level, target, loud) + 1) * loud,
        scaled(level, target, loud) <= target,
        level == loud ==> scaled(level, target, loud) == target,
{
    let a = level as int * target as int;
    let q = a / loud as int;
    assert(q * loud <= a && a < (q + 1) * loud) by (nonlinear_arith)
        requires
            loud > 0,
            q == a / loud as int,
            a >= 0,
    ;
    assert(q <= target) by (nonlinear_arith)
        requires
            loud > 0,
            q * loud <= a,
            a == level as int * target as int,
            level <= loud,
            target >= 0,
    ;
    if level == loud {
        assert(a == target as int * loud as int) by (nonlinear_arith)
            requires
                a == level as int * target as int,
                level == loud,
        ;
        assert(q == target) by (nonlinear_arith)
            requires
                loud > 0,
                q == a / loud as int,
                a == target as int * loud as int,
        ;
    }
}

/// Scaling a group with some sound in it keeps every member's proportion to the loudest
/// up to one step, brings the loudest member exactly to `target`, and each command sends
/// the new volume rounded to a percentage.
pub proof fn lemma_group_scaling_keeps_ratios(
    old: Map<Seq<char>, u64>,
    new: Map<Seq<char>, u64>,
    cmds: Seq<Command>,
    ms: Seq<crate::topology::Endpoint>,
    target: u64,
)
    requires
        scales_members(old, new, cmds, ms, target),
        levels_in_range(old),
        forall|j: int| 0 <= j < ms.len() ==> (#[trigger] ms[j]).percent <= 100,
        loudest(old, ms) > 0,
    ensures
        forall|j: int|
            0 <= j < ms.len() ==> new[#[trigger] ms[j].id@] * loudest(old, ms) <= effective(
                old,
                ms[j],
            ) * target && effective(old, ms[j]) * target < (new[ms[j].id@] + 1) * loudest(
                old,
                ms,
            ),
        exists|j: int|
            0 <= j < ms.len() && new[#[trigger] ms[j].id@] == target && rounded(new[ms[j].id@])
                == rounded(target),
{
    lemma_loudest_bounds(old, ms);
    let loud = loudest(old, ms);
    assert forall|j: int| 0 <= j < ms.len() implies new[#[trigger] ms[j].id@] * loud <= effective(
        old,
        ms[j],
    ) * target && effective(old, ms[j]) * target < (new[ms[j].id@] + 1) * loud by {
        lemma_scaling_keeps_ratios(effective(old, ms[j]), target, loud);
    }
    let j = choose|j: int| 0 <= j < ms.len() && effective(old, #[trigger] ms[j]) == loud;
    lemma_scaling_keeps_ratios(effective(old, ms[j]), target, loud);
    assert(new[ms[j].id@] == target);
}

/// A group that is entirely silent is set member by member to exactly `target`.
pub proof fn lemma_silent_group_takes_target(
    old: Map<Seq<char>, u64>,
    new: Map<Seq<char>, u64>,
    cmds: Seq<Command>,
    ms: Seq<crate::topology::Endpoint>,
    target: u64,
)
    requires
        scales_members(old, new, cmds, ms, target),
        levels_in_range(old),
        forall|j: int| 0 <= j < ms.len() ==> (#[trigger] ms[j]).percent <= 100,
        forall|j: int| 0 <= j < ms.len() ==> effective(old, #[trigger] ms[j]) == 0,
    ensures
        forall|j: int| 0 <= j < ms.len() ==> new[#[trigger] ms[j].id@] == target,
{
    lemma_loudest_bounds(old, ms);
    assert(loudest(old, ms) == 0);
}

/// Reconciliation overrides drift: an endpoint whose shadow volume does not round to its
/// reported percentage ends with exactly that percentage.
pub proof fn lemma_reconcile_overrides_drift(
    old: Map<Seq<char>, u64>,
    new: Map<Seq<char>, u64>,
    s: Snapshot,
    i: int,
)
    requires
        reconciles(old, new, s),
        0 <= i < s.endpoints@.len(),
        old.contains_key(s.endpoints@[i].id@),
        rounded(old[s.endpoints@[i].id@]) != s.endpoints@[i].percent,
    ensures
        new[s.endpoints@[i].id@] == level_of_percent(s.endpoints@[i].percent),
{
    assert(new[s.endpoints@[i].id@] == crate::volume::synced(old, s.endpoints@[i]));
}

} // verus!
