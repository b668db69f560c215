use vstd::prelude::*;
use crate::topology::{Snapshot, Endpoint, lists, group_lists};
use crate::shadow::{
    ShadowVolumes, MAX_LEVEL, rounded, level_of_percent, round_level, percent_level,
    levels_in_range,
};
use crate::focus::opt_text;

verus! {

/// A request for the server.
pub enum Command {
    /// Ask for the full server status.
    RequestStatus,
    /// Set one endpoint's volume and mute flag together.
    SetEndpointVolume { id: String, percent: u64, muted: bool },
    /// Set one group's mute flag.
    SetGroupMute { id: String, muted: bool },
}

/// `c` sets endpoint `id` to `percent` with mute flag `muted`.
pub open spec fn sets_endpoint(c: Command, id: Seq<char>, percent: u64, muted: bool) -> bool {
    match c {
        Command::SetEndpointVolume { id: i, percent: p, muted: m } => i@ == id && p == percent
            && m == muted,
        _ => false,
    }
}

/// An endpoint's shadow volume, or its reported percentage where it has none yet.
pub open spec fn effective(m: Map<Seq<char>, u64>, e: Endpoint) -> u64 {
    if m.contains_key(e.id@) {
        m[e.id@]
    } else {
        level_of_percent(e.percent)
    }
}

/// The highest effective volume among `ms` (0 for none).
pub open spec fn loudest(m: Map<Seq<char>, u64>, ms: Seq<Endpoint>) -> u64
    decreases ms.len(),
{
    if ms.len() == 0 {
        0
    } else {
        let rest = loudest(m, ms.drop_last());
        let x = effective(m, ms.last());
        if x > rest {
            x
        } else {
            rest
        }
    }
}

/// The volume `level` becomes when the loudest volume `loud` is moved to `target`:
/// scaled by `target / loud`, rounded down to a step, or `target` itself when `loud` is 0.
pub open spec fn scaled(level: u64, target: u64, loud: u64) -> u64 {
    if loud == 0 {
        target
    } else {
        (level as int * target as int / loud as int) as u64
    }
}

/// `level` clamped to 0 ..= 100 percent.
pub open spec fn clamp_level(level: int) -> u64 {
    if level < 0 {
        0
    } else if level > MAX_LEVEL {
        MAX_LEVEL
    } else {
        level as u64
    }
}

/// The known endpoints that group `g` lists, in snapshot order.
pub open spec fn members(s: Snapshot, g: int) -> Seq<Endpoint> {
    s.endpoints@.filter(|e: Endpoint| lists(s.groups@[g], e.id@))
}

/// Index of the group with id `id`.
pub open spec fn group_at(s: Snapshot, id: Seq<char>) -> Option<int> {
    if exists|g: int| 0 <= g < s.groups@.len() && s.groups@[g].id@ == id {
        Some(choose|g: int| 0 <= g < s.groups@.len() && s.groups@[g].id@ == id)
    } else {
        None
    }
}

/// Index of the endpoint with id `id`.
pub open spec fn endpoint_at(s: Snapshot, id: Seq<char>) -> Option<int> {
    if exists|i: int| 0 <= i < s.endpoints@.len() && s.endpoints@[i].id@ == id {
        Some(choose|i: int| 0 <= i < s.endpoints@.len() && s.endpoints@[i].id@ == id)
    } else {
        None
    }
}

pub open spec fn ids_of(ms: Seq<Endpoint>) -> Seq<Seq<char>> {
    ms.map_values(|e: Endpoint| e.id@)
}

/// `new` and `cmds` are what scaling the members `ms` so that the loudest reaches
/// `target` makes of the shadow map `old`: each member gets its scaled volume, and
/// one command, in order, sets it rounded to a percentage; other entries stay.
pub open spec fn scales_members(
    old: Map<Seq<char>, u64>,
    new: Map<Seq<char>, u64>,
    cmds: Seq<Command>,
    ms: Seq<Endpoint>,
    target: u64,
) -> bool {
    let loud = loudest(old, ms);
    &&& cmds.len() == ms.len()
    &&& forall|j: int|
        0 <= j < ms.len() ==> new.contains_key(#[trigger] ms[j].id@) && new[ms[j].id@] == scaled(
            effective(old, ms[j]),
            target,
            loud,
        ) && sets_endpoint(cmds[j], ms[j].id@, rounded(new[ms[j].id@]), ms[j].muted)
    &&& forall|k: Seq<char>|
        !ids_of(ms).contains(k) ==> (#[trigger] new.contains_key(k) == old.contains_key(k)) && (
        old.contains_key(k) ==> new[k] == old[k])
}

/// What setting the focused entity to `target` does: a group scales its members, an
/// endpoint takes `target`; anything else sends nothing.
pub open spec fn absolute_set_post(
    focus: Option<Seq<char>>,
    s: Snapshot,
    target: u64,
    old: Map<Seq<char>, u64>,
    new: Map<Seq<char>, u64>,
    cmds: Seq<Command>,
) -> bool {
    match focus {
        None => new == old && cmds.len() == 0,
        Some(f) => match group_at(s, f) {
            Some(g) => if members(s, g).len() == 0 {
                new == old && cmds.len() == 0
            } else {
                scales_members(old, new, cmds, members(s, g), target)
            },
            None => match endpoint_at(s, f) {
                Some(i) => new == old.insert(f, target) && cmds.len() == 1 && sets_endpoint(
                    cmds[0],
                    f,
                    rounded(target),
                    s.endpoints@[i].muted,
                ),
                None => new == old && cmds.len() == 0,
            },
        },
    }
}

/// The volume a relative change starts from: a group's loudest member, or the endpoint's
/// own volume.
pub open spec fn reference_level(focus: Option<Seq<char>>, s: Snapshot, m: Map<Seq<char>, u64>) -> Option<u64> {
    match focus {
        None => None,
        Some(f) => match group_at(s, f) {
            Some(g) => if members(s, g).len() == 0 {
                None
            } else {
                Some(loudest(m, members(s, g)))
            },
            None => match endpoint_at(s, f) {
                Some(i) => Some(effective(m, s.endpoints@[i])),
                None => None,
            },
        },
    }
}

/// The loudest volume bounds each member's, and is itself a volume in range.
pub proof fn lemma_loudest_bounds(m: Map<Seq<char>, u64>, ms: Seq<Endpoint>)
    requires
        levels_in_range(m),
        forall|j: int| 0 <= j < ms.len() ==> (#[trigger] ms[j]).percent <= 100,
    ensures
        loudest(m, ms) <= MAX_LEVEL,
        forall|j: int| 0 <= j < ms.len() ==> effective(m, #[trigger] ms[j]) <= loudest(m, ms),
        ms.len() > 0 ==> exists|j: int|
            0 <= j < ms.len() && effective(m, #[trigger] ms[j]) == loudest(m, ms),
    decreases ms.len(),
{
    if ms.len() > 0 {
        let rest = ms.drop_last();
        lemma_loudest_bounds(m, rest);
        assert forall|j: int| 0 <= j < ms.len() implies effective(m, #[trigger] ms[j]) <= loudest(
            m,
            ms,
        ) by {
            if j < ms.len() - 1 {
                assert(ms[j] == rest[j]);
            }
        }
        if effective(m, ms.last()) > loudest(m, rest) {
            assert(effective(m, ms[ms.len() - 1]) == loudest(m, ms));
        } else if rest.len() > 0 {
            let j = choose|j: int| 0 <= j < rest.len() && effective(m, #[trigger] rest[j]) == loudest(m, rest);
            assert(ms[j] == rest[j]);
        } else {
            assert(effective(m, ms[0]) == 0);
        }
    }
}

/// The group with id `id`.
pub(crate) fn find_group(s: &Snapshot, id: &String) -> (r: Option<usize>)
    requires
        s.well_formed(),
    ensures
        match r {
            Some(g) => g < s.groups@.len() && group_at(*s, id@) == Some(g as int),
            None => group_at(*s, id@) is None,
        },
{
    for g in 0..s.groups.len()
        invariant
            s.well_formed(),
            forall|j: int| 0 <= j < g ==> s.groups@[j].id@ != id@,
    {
        if s.groups[g].id == *id {
            proof {
                let c = choose|j: int| 0 <= j < s.groups@.len() && s.groups@[j].id@ == id@;
                if c < g {
                    assert(s.groups@[c].id@ != s.groups@[g as int].id@);
                } else if c > g {
                    assert(s.groups@[g as int].id@ != s.groups@[c].id@);
                }
            }
            return Some(g);
        }
    }
    None
}

/// The endpoint with id `id`.
pub(crate) fn find_endpoint(s: &Snapshot, id: &String) -> (r: Option<usize>)
    requires
        s.well_formed(),
    ensures
        match r {
            Some(i) => i < s.endpoints@.len() && endpoint_at(*s, id@) == Some(i as int),
            None => endpoint_at(*s, id@) is None,
        },
{
    for i in 0..s.endpoints.len()
        invariant
            s.well_formed(),
            forall|j: int| 0 <= j < i ==> s.endpoints@[j].id@ != id@,
    {
        if s.endpoints[i].id == *id {
            proof {
                let c = choose|j: int| 0 <= j < s.endpoints@.len() && s.endpoints@[j].id@ == id@;
                if c < i {
                    assert(s.endpoints@[c].id@ != s.endpoints@[i as int].id@);
                } else if c > i {
                    assert(s.endpoints@[i as int].id@ != s.endpoints@[c].id@);
                }
            }
            return Some(i);
        }
    }
    None
}

pub open spec fn endpoints_at(s: Snapshot, idx: Seq<usize>) -> Seq<Endpoint> {
    idx.map_values(|x: usize| s.endpoints@[x as int])
}

/// Indices of the known members of group `g`, in snapshot order.
fn member_indices(s: &Snapshot, g: usize) -> (r: Vec<usize>)
    requires
        s.well_formed(),
        g < s.groups@.len(),
    ensures
        endpoints_at(*s, r@) == members(*s, g as int),
        forall|a: int, b: int| 0 <= a < b < r@.len() ==> r@[a] < r@[b],
        forall|a: int| 0 <= a < r@.len() ==> r@[a] < s.endpoints@.len(),
{
    let ghost pred = |e: Endpoint| lists(s.groups@[g as int], e.id@);
    let mut r: Vec<usize> = Vec::new();
    assert(s.endpoints@.take(0) =~= Seq::<Endpoint>::empty());
    reveal(Seq::filter);
    for i in 0..s.endpoints.len()
        invariant
            g < s.groups@.len(),
            pred == (|e: Endpoint| lists(s.groups@[g as int], e.id@)),
            endpoints_at(*s, r@) == s.endpoints@.take(i as int).filter(pred),
            forall|a: int, b: int| 0 <= a < b < r@.len() ==> r@[a] < r@[b],
            forall|a: int| 0 <= a < r@.len() ==> r@[a] < i,
    {
        let ghost prev = r@;
        let listed = group_lists(&s.groups[g], &s.endpoints[i].id);
        if listed {
            r.push(i);
        }
        proof {
            reveal(Seq::filter);
            let t = s.endpoints@.take(i + 1);
            assert(t.drop_last() =~= s.endpoints@.take(i as int));
            assert(t.last() == s.endpoints@[i as int]);
            if listed {
                assert(endpoints_at(*s, r@) =~= endpoints_at(*s, prev).push(s.endpoints@[i as int]));
            } else {
                assert(endpoints_at(*s, r@) =~= endpoints_at(*s, prev));
            }
        }
    }
    assert(s.endpoints@.take(s.endpoints@.len() as int) =~= s.endpoints@);
    r
}

/// An endpoint's shadow volume, or its reported percentage where it has none yet.
fn effective_level(shadow: &ShadowVolumes, e: &Endpoint) -> (r: u64)
    requires
        shadow.well_formed(),
        e.percent <= 100,
    ensures
        r == effective(shadow@, *e),
        r <= MAX_LEVEL,
{
    match shadow.get(&e.id) {
        Some(v) => v,
        None => percent_level(e.percent),
    }
}

/// The loudest effective volume among the endpoints at `idx`.
fn loudest_level(shadow: &ShadowVolumes, s: &Snapshot, idx: &Vec<usize>) -> (r: u64)
    requires
        shadow.well_formed(),
        s.well_formed(),
        forall|a: int| 0 <= a < idx@.len() ==> idx@[a] < s.endpoints@.len(),
    ensures
        r == loudest(shadow@, endpoints_at(*s, idx@)),
{
    let ghost ms = endpoints_at(*s, idx@);
    let mut loud: u64 = 0;
    for k in 0..idx.len()
        invariant
            shadow.well_formed(),
            s.well_formed(),
            forall|a: int| 0 <= a < idx@.len() ==> idx@[a] < s.endpoints@.len(),
            ms == endpoints_at(*s, idx@),
            loud == loudest(shadow@, ms.take(k as int)),
    {
        let x = effective_level(shadow, &s.endpoints[idx[k]]);
        proof {
            let t = ms.take(k + 1);
            assert(t.drop_last() =~= ms.take(k as int));
            assert(t.last() == s.endpoints@[idx@[k as int] as int]);
        }
        if x > loud {
            loud = x;
        }
    }
    assert(ms.take(idx@.len() as int) =~= ms);
    loud
}

/// Scales the endpoints at `idx` so that the loudest, `loud`, reaches `target`.
fn scale_members(
    target: u64,
    loud: u64,
    idx: &Vec<usize>,
    shadow: &mut ShadowVolumes,
    s: &Snapshot,
) -> (r: Vec<Command>)
    requires
        old(shadow).well_formed(),
        s.well_formed(),
        target <= MAX_LEVEL,
        forall|a: int, b: int| 0 <= a < b < idx@.len() ==> idx@[a] < idx@[b],
        forall|a: int| 0 <= a < idx@.len() ==> idx@[a] < s.endpoints@.len(),
        loud == loudest(old(shadow)@, endpoints_at(*s, idx@)),
    ensures
        final(shadow).well_formed(),
        scales_members(old(shadow)@, final(shadow)@, r@, endpoints_at(*s, idx@), target),
{
    let ghost ms = endpoints_at(*s, idx@);
    let ghost before = shadow@;
    proof {
        shadow.lemma_levels_in_range();
        lemma_loudest_bounds(before, ms);
        assert forall|a: int, b: int| 0 <= a < b < ms.len() implies ms[a].id@ != ms[b].id@ by {
            assert(idx@[a] < idx@[b]);
        }
    }
    let mut cmds: Vec<Command> = Vec::new();
    let mut k: usize = 0;
    while k < idx.len()
        invariant
            shadow.well_formed(),
            s.well_formed(),
            target <= MAX_LEVEL,
            forall|a: int| 0 <= a < idx@.len() ==> idx@[a] < s.endpoints@.len(),
            ms == endpoints_at(*s, idx@),
            forall|a: int, b: int| 0 <= a < b < ms.len() ==> ms[a].id@ != ms[b].id@,
            forall|j: int| 0 <= j < ms.len() ==> effective(before, #[trigger] ms[j]) <= loud,
            loud == loudest(before, ms),
            k <= idx@.len(),
            cmds@.len() == k,
            forall|j: int|
                0 <= j < k ==> shadow@.contains_key(#[trigger] ms[j].id@) && shadow@[ms[j].id@]
                    == scaled(effective(before, ms[j]), target, loud) && sets_endpoint(
                    cmds@[j],
                    ms[j].id@,
                    rounded(shadow@[ms[j].id@]),
                    ms[j].muted,
                ),
            forall|key: Seq<char>|
                !ids_of(ms.take(k as int)).contains(key) ==> (#[trigger] shadow@.contains_key(key)
                    == before.contains_key(key)) && (before.contains_key(key) ==> shadow@[key]
                    == before[key]),
        decreases idx@.len() - k,
    {
        let e = &s.endpoints[idx[k]];
        let ghost ek = ms[k as int];
        proof {
            assert(ek == *e);
            assert(!ids_of(ms.take(k as int)).contains(e.id@)) by {
                if ids_of(ms.take(k as int)).contains(e.id@) {
                    let j = choose|j: int|
                        0 <= j < ids_of(ms.take(k as int)).len() && ids_of(ms.take(k as int))[j]
                            == e.id@;
                    assert(ms[j].id@ == e.id@);
                }
            }
        }
        let cur = effective_level(shadow, e);
        assert(cur == effective(before, ek));
        let level = if loud == 0 {
            target
        } else {
            assert(cur as int * target as int <= loud as int * target as int) by (nonlinear_arith)
                requires
                    cur <= loud,
            ;
            assert(cur as int * target as int / loud as int <= target as int) by (nonlinear_arith)
                requires
                    cur as int * target as int <= loud as int * target as int,
                    loud > 0,
            ;
            assert(cur as int * target as int <= MAX_LEVEL as int * MAX_LEVEL as int) by (nonlinear_arith)
                requires
                    cur <= MAX_LEVEL,
                    target <= MAX_LEVEL,
            ;
            cur * target / loud
        };
        let ghost mid = shadow@;
        shadow.set(&e.id, level);
        cmds.push(Command::SetEndpointVolume { id: e.id.clone(), percent: round_level(level), muted: e.muted });
        proof {
            assert(ids_of(ms.take(k + 1)) =~= ids_of(ms.take(k as int)).push(e.id@));
            assert forall|j: int| 0 <= j < k + 1 implies shadow@.contains_key(#[trigger] ms[j].id@)
                && shadow@[ms[j].id@] == scaled(effective(before, ms[j]), target, loud)
                && sets_endpoint(cmds@[j], ms[j].id@, rounded(shadow@[ms[j].id@]), ms[j].muted) by {
                if j < k {
                    assert(ms[j].id@ != e.id@);
                    assert(mid.contains_key(ms[j].id@));
                }
            }
            assert forall|key: Seq<char>| !ids_of(ms.take(k + 1)).contains(key) implies (
            #[trigger] shadow@.contains_key(key) == before.contains_key(key)) && (before.contains_key(
                key,
            ) ==> shadow@[key] == before[key]) by {
                assert(key != e.id@) by {
                    assert(ids_of(ms.take(k + 1))[k as int] == e.id@);
                }
                if !ids_of(ms.take(k as int)).contains(key) {
                    assert(mid.contains_key(key) == before.contains_key(key));
                    if before.contains_key(key) {
                        assert(mid[key] == before[key]);
                    }
                } else {
                    let j = choose|j: int|
                        0 <= j < ids_of(ms.take(k as int)).len() && ids_of(ms.take(k as int))[j]
                            == key;
                    assert(ids_of(ms.take(k + 1))[j] == key);
                }
            }
        }
        k = k + 1;
    }
    proof {
        assert(ms.take(ms.len() as int) =~= ms);
        assert forall|key: Seq<char>| !ids_of(ms).contains(key) implies (
        #[trigger] shadow@.contains_key(key) == before.contains_key(key)) && (before.contains_key(
            key,
        ) ==> shadow@[key] == before[key]) by {
            assert(ids_of(ms.take(ms.len() as int)) == ids_of(ms));
        }
    }
    cmds
}

/// Sets the focused entity to `target` (at most 100 percent): a group scales all its
/// known members by the factor that brings the loudest to `target` (or sets each to
/// `target` when all are silent); an endpoint is set to `target`. Returns the commands
/// to send; none when nothing is focused or the group has no known members.
fn set_level(
    target: u64,
    focus: &Option<String>,
    shadow: &mut ShadowVolumes,
    snapshot: &Snapshot,
) -> (r: Vec<Command>)
    requires
        old(shadow).well_formed(),
        snapshot.well_formed(),
        target <= MAX_LEVEL,
    ensures
        final(shadow).well_formed(),
        absolute_set_post(opt_text(*focus), *snapshot, target, old(shadow)@, final(shadow)@, r@),
{
    let id = match focus {
        Some(id) => id,
        None => return Vec::new(),
    };
    match find_group(snapshot, id) {
        Some(g) => {
            let idx = member_indices(snapshot, g);
            if idx.len() == 0 {
                return Vec::new();
            }
            let loud = loudest_level(shadow, snapshot, &idx);
            scale_members(target, loud, &idx, shadow, snapshot)
        },
        None => match find_endpoint(snapshot, id) {
            Some(i) => {
                let e = &snapshot.endpoints[i];
                shadow.set(&e.id, target);
                let mut cmds: Vec<Command> = Vec::new();
                cmds.push(Command::SetEndpointVolume { id: e.id.clone(), percent: round_level(target), muted: e.muted });
                cmds
            },
            None => Vec::new(),
        },
    }
}

/// Sets the focused entity to `level` steps, clamped to 0 ..= 100 percent: a group scales
/// all its known members by the factor that brings the loudest to that volume (or sets
/// each to it when all are silent); an endpoint is set to it. Returns the commands to
/// send; none when nothing is focused or the group has no known members.
pub fn set_volume(
    level: i64,
    focus: &Option<String>,
    shadow: &mut ShadowVolumes,
    snapshot: &Snapshot,
) -> (r: Vec<Command>)
    requires
        old(shadow).well_formed(),
        snapshot.well_formed(),
    ensures
        final(shadow).well_formed(),
        absolute_set_post(
            opt_text(*focus),
            *snapshot,
            clamp_level(level as int),
            old(shadow)@,
            final(shadow)@,
            r@,
        ),
{
    let target: u64 = if level < 0 {
        0
    } else if level as u64 > MAX_LEVEL {
        MAX_LEVEL
    } else {
        level as u64
    };
    set_level(target, focus, shadow, snapshot)
}

/// Moves the focused entity's volume by `delta` steps: the reference (a group's loudest
/// member, or the endpoint) moves by `delta`, clamped to 0 ..= 100 percent, and the rest
/// of a group follows proportionally. Sends nothing without a reference.
pub fn set_volume_delta(
    delta: i64,
    focus: &Option<String>,
    shadow: &mut ShadowVolumes,
    snapshot: &Snapshot,
) -> (r: Vec<Command>)
    requires
        old(shadow).well_formed(),
        snapshot.well_formed(),
    ensures
        final(shadow).well_formed(),
        match reference_level(opt_text(*focus), *snapshot, old(shadow)@) {
            Some(cur) => absolute_set_post(
                opt_text(*focus),
                *snapshot,
                clamp_level(cur + delta),
                old(shadow)@,
                final(shadow)@,
                r@,
            ),
            None => final(shadow)@ == old(shadow)@ && r@.len() == 0,
        },
{
    let id = match focus {
        Some(id) => id,
        None => return Vec::new(),
    };
    let current = match find_group(snapshot, id) {
        Some(g) => {
            let idx = member_indices(snapshot, g);
            if idx.len() == 0 {
                return Vec::new();
            }
            loudest_level(shadow, snapshot, &idx)
        },
        None => match find_endpoint(snapshot, id) {
            Some(i) => effective_level(shadow, &snapshot.endpoints[i]),
            None => return Vec::new(),
        },
    };
    let sum: i128 = current as i128 + delta as i128;
    let target: u64 = if sum < 0 {
        0
    } else if sum > MAX_LEVEL as i128 {
        MAX_LEVEL
    } else {
        sum as u64
    };
    set_level(target, focus, shadow, snapshot)
}

/// The shadow volume an endpoint keeps after reconciliation: its old one if that rounds
/// to the reported percentage, else exactly the reported percentage.
pub open spec fn synced(m: Map<Seq<char>, u64>, e: Endpoint) -> u64 {
    if m.contains_key(e.id@) && rounded(m[e.id@]) == e.percent {
        m[e.id@]
    } else {
        level_of_percent(e.percent)
    }
}

/// `new` is what reconciling `old` with the endpoints of `s` makes of it: each endpoint
/// holds its synced volume, other entries stay.
pub open spec fn reconciles(old: Map<Seq<char>, u64>, new: Map<Seq<char>, u64>, s: Snapshot) -> bool {
    &&& forall|i: int|
        0 <= i < s.endpoints@.len() ==> new.contains_key(#[trigger] s.endpoints@[i].id@)
            && new[s.endpoints@[i].id@] == synced(old, s.endpoints@[i])
    &&& forall|k: Seq<char>|
        !ids_of(s.endpoints@).contains(k) ==> (#[trigger] new.contains_key(k) == old.contains_key(k))
            && (old.contains_key(k) ==> new[k] == old[k])
}

/// Brings the shadow volumes back in line with the server: every endpoint whose shadow
/// volume does not round to its reported percentage (or has none) takes that percentage.
pub fn reconcile(shadow: &mut ShadowVolumes, snapshot: &Snapshot)
    requires
        old(shadow).well_formed(),
        snapshot.well_formed(),
    ensures
        final(shadow).well_formed(),
        reconciles(old(shadow)@, final(shadow)@, *snapshot),
{
    let ghost before = shadow@;
    let ghost es = snapshot.endpoints@;
    let n = snapshot.endpoints.len();
    let mut i: usize = 0;
    while i < n
        invariant
            shadow.well_formed(),
            snapshot.well_formed(),
            es == snapshot.endpoints@,
            n == es.len(),
            i <= n,
            forall|j: int|
                0 <= j < i ==> shadow@.contains_key(#[trigger] es[j].id@) && shadow@[es[j].id@]
                    == synced(before, es[j]),
            forall|key: Seq<char>|
                !ids_of(es.take(i as int)).contains(key) ==> (#[trigger] shadow@.contains_key(key)
                    == before.contains_key(key)) && (before.contains_key(key) ==> shadow@[key]
                    == before[key]),
        decreases n - i,
    {
        let e = &snapshot.endpoints[i];
        proof {
            assert(!ids_of(es.take(i as int)).contains(e.id@)) by {
                if ids_of(es.take(i as int)).contains(e.id@) {
                    let j = choose|j: int|
                        0 <= j < ids_of(es.take(i as int)).len() && ids_of(es.take(i as int))[j]
                            == e.id@;
                    assert(es[j].id@ != es[i as int].id@);
                }
            }
        }
        let ghost mid = shadow@;
        let keep = match shadow.get(&e.id) {
            Some(v) => round_level(v) == e.percent,
            None => false,
        };
        if !keep {
            let level = percent_level(e.percent);
            shadow.set(&e.id, level);
        }
        proof {
            assert(ids_of(es.take(i + 1)) =~= ids_of(es.take(i as int)).push(e.id@));
            assert forall|j: int| 0 <= j < i + 1 implies shadow@.contains_key(#[trigger] es[j].id@)
                && shadow@[es[j].id@] == synced(before, es[j]) by {
                if j < i {
                    assert(es[j].id@ != es[i as int].id@);
                    assert(mid.contains_key(es[j].id@));
                }
            }
            assert forall|key: Seq<char>| !ids_of(es.take(i + 1)).contains(key) implies (
            #[trigger] shadow@.contains_key(key) == before.contains_key(key)) && (before.contains_key(
                key,
            ) ==> shadow@[key] == before[key]) by {
                assert(key != e.id@) by {
                    assert(ids_of(es.take(i + 1))[i as int] == e.id@);
                }
                if !ids_of(es.take(i as int)).contains(key) {
                    assert(mid.contains_key(key) == before.contains_key(key));
                    if before.contains_key(key) {
                        assert(mid[key] == before[key]);
                    }
                } else {
                    let j = choose|j: int|
                        0 <= j < ids_of(es.take(i as int)).len() && ids_of(es.take(i as int))[j]
                            == key;
                    assert(ids_of(es.take(i + 1))[j] == key);
                }
            }
        }
        i = i + 1;
    }
    proof {
        assert(es.take(n as int) =~= es);
    }
}

} // verus!
