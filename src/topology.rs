use vstd::prelude::*;
use vstd::string::*;
use crate::text::{
    Label, label_lt, strictly_sorted, arranged, label_less, lemma_label_lt_total,
    lemma_label_lt_transitive, lemma_arranged,
};

verus! {

/// A playback endpoint as the server last reported it.
pub struct Endpoint {
    pub id: String,
    /// Configured name; may be empty.
    pub name: String,
    /// Name of the host the endpoint runs on; may be empty.
    pub host_name: String,
    /// Volume in whole percent.
    pub percent: u64,
    pub muted: bool,
}

/// A group of endpoints as the server last reported it.
pub struct Group {
    pub id: String,
    /// Configured name; may be empty.
    pub name: String,
    pub muted: bool,
    /// Ids of the member endpoints.
    pub members: Vec<String>,
}

/// One consistent picture of the server's groups and endpoints.
pub struct Snapshot {
    pub groups: Vec<Group>,
    pub endpoints: Vec<Endpoint>,
}

/// The texts of a sequence of strings.
pub open spec fn texts(v: Seq<String>) -> Seq<Seq<char>> {
    v.map_values(|s: String| s@)
}

/// The name shown for a group.
pub open spec fn group_name_of(g: Group) -> Seq<char> {
    if g.name@.len() == 0 {
        "Group with ID "@ + g.id@
    } else {
        g.name@
    }
}

/// The name shown for an endpoint.
pub open spec fn endpoint_name_of(e: Endpoint) -> Seq<char> {
    if e.name@.len() != 0 {
        e.name@
    } else if e.host_name@.len() != 0 {
        "Client on host "@ + e.host_name@
    } else {
        "Client with ID "@ + e.id@
    }
}

pub open spec fn group_label(g: Group) -> Label {
    (group_name_of(g), g.id@)
}

pub open spec fn endpoint_label(e: Endpoint) -> Label {
    (endpoint_name_of(e), e.id@)
}

/// Whether the group's member list names `eid`.
pub open spec fn lists(g: Group, eid: Seq<char>) -> bool {
    exists|j: int| 0 <= j < g.members@.len() && g.members@[j]@ == eid
}

impl Snapshot {
    /// Ids are unique among groups and among endpoints, and each volume is a percentage.
    pub open spec fn well_formed(&self) -> bool {
        &&& forall|i: int, j: int|
            0 <= i < j < self.groups@.len() ==> self.groups@[i].id@ != self.groups@[j].id@
        &&& forall|i: int, j: int|
            0 <= i < j < self.endpoints@.len() ==> self.endpoints@[i].id@
                != self.endpoints@[j].id@
        &&& forall|i: int| 0 <= i < self.endpoints@.len() ==> self.endpoints@[i].percent <= 100
    }

    /// The sort keys of all groups.
    pub open spec fn group_labels(&self) -> Set<Label> {
        Set::new(
            |l: Label|
                exists|i: int| 0 <= i < self.groups@.len() && group_label(self.groups@[i]) == l,
        )
    }

    /// Whether some group with id `gid` lists the endpoint `eid`.
    pub open spec fn is_member(&self, gid: Seq<char>, eid: Seq<char>) -> bool {
        exists|k: int|
            0 <= k < self.groups@.len() && self.groups@[k].id@ == gid && lists(
                self.groups@[k],
                eid,
            )
    }

    /// The sort keys of the known endpoints that group `gid` lists.
    pub open spec fn member_labels(&self, gid: Seq<char>) -> Set<Label> {
        Set::new(
            |l: Label|
                exists|i: int|
                    0 <= i < self.endpoints@.len() && self.is_member(gid, self.endpoints@[i].id@)
                        && endpoint_label(self.endpoints@[i]) == l,
        )
    }

    /// Group ids, in order of display name (then id).
    pub open spec fn group_order(&self) -> Seq<Seq<char>> {
        arranged(self.group_labels()).map_values(|l: Label| l.1)
    }

    /// Ids of the known members of group `gid`, in order of display name (then id).
    pub open spec fn member_order(&self, gid: Seq<char>) -> Seq<Seq<char>> {
        arranged(self.member_labels(gid)).map_values(|l: Label| l.1)
    }

    /// A group's row followed by the rows of its members.
    pub open spec fn block(&self, gid: Seq<char>) -> Seq<Seq<char>> {
        seq![gid] + self.member_order(gid)
    }

    /// Every focusable id: each group in order, each followed by its members.
    pub open spec fn flat_order(&self) -> Seq<Seq<char>> {
        self.group_order().map_values(|gid: Seq<char>| self.block(gid)).flatten()
    }

    /// Index in the group order of the first group that lists `eid`.
    pub open spec fn parent_index(&self, eid: Seq<char>) -> Option<int> {
        self.group_order().map_values(|gid: Seq<char>| self.is_member(gid, eid)).index_of_first(
            true,
        )
    }

    /// Whether the snapshot is well formed.
    pub fn is_well_formed(&self) -> (r: bool)
        ensures
            r == self.well_formed(),
    {
        let ng = self.groups.len();
        let ne = self.endpoints.len();
        for i in 0..ng
            invariant
                ng == self.groups@.len(),
                forall|a: int, b: int|
                    0 <= a < b < ng && a < i ==> self.groups@[a].id@ != self.groups@[b].id@,
        {
            for j in i + 1..ng
                invariant
                    ng == self.groups@.len(),
                    i < ng,
                    forall|a: int, b: int|
                        0 <= a < b < ng && a < i ==> self.groups@[a].id@ != self.groups@[b].id@,
                    forall|b: int| i < b < j ==> self.groups@[i as int].id@ != self.groups@[b].id@,
            {
                if self.groups[i].id == self.groups[j].id {
                    return false;
                }
            }
        }
        for i in 0..ne
            invariant
                ne == self.endpoints@.len(),
                forall|a: int, b: int|
                    0 <= a < b < ne && a < i ==> self.endpoints@[a].id@ != self.endpoints@[b].id@,
                forall|a: int| 0 <= a < i ==> self.endpoints@[a].percent <= 100,
        {
            if self.endpoints[i].percent > 100 {
                return false;
            }
            for j in i + 1..ne
                invariant
                    ne == self.endpoints@.len(),
                    i < ne,
                    forall|a: int, b: int|
                        0 <= a < b < ne && a < i ==> self.endpoints@[a].id@
                            != self.endpoints@[b].id@,
                    forall|b: int|
                        i < b < j ==> self.endpoints@[i as int].id@ != self.endpoints@[b].id@,
            {
                if self.endpoints[i].id == self.endpoints[j].id {
                    return false;
                }
            }
        }
        true
    }
}

/// The name shown for a group: its own, else one made from its id.
pub fn get_group_name(group: &Group) -> (r: String)
    ensures
        r@ == group_name_of(*group),
{
    if group.name.as_str().is_empty() {
        String::from_str("Group with ID ").concat(group.id.as_str())
    } else {
        group.name.clone()
    }
}

/// The name shown for an endpoint: its own, else one made from its host, else from its id.
pub fn get_client_name(client: &Endpoint) -> (r: String)
    ensures
        r@ == endpoint_name_of(*client),
{
    if client.name.as_str().is_empty() {
        if client.host_name.as_str().is_empty() {
            return String::from_str("Client with ID ").concat(client.id.as_str());
        }
        return String::from_str("Client on host ").concat(client.host_name.as_str());
    }
    client.name.clone()
}

pub open spec fn label_at(names: Seq<String>, ids: Seq<String>, x: int) -> Label {
    (names[x]@, ids[x]@)
}

pub open spec fn labels_at(names: Seq<String>, ids: Seq<String>, r: Seq<usize>) -> Seq<Label> {
    r.map_values(|x: usize| label_at(names, ids, x as int))
}

/// The indices `0..n`, ordered by the labels `(names[i], ids[i])`.
fn order_labels(names: &Vec<String>, ids: &Vec<String>) -> (r: Vec<usize>)
    requires
        names@.len() == ids@.len(),
        forall|i: int, j: int| 0 <= i < j < ids@.len() ==> ids@[i]@ != ids@[j]@,
    ensures
        r@.len() == ids@.len(),
        forall|k: int| 0 <= k < r@.len() ==> r@[k] < ids@.len(),
        forall|x: usize| x < ids@.len() ==> r@.contains(x),
        strictly_sorted(labels_at(names@, ids@, r@)),
{
    let n = names.len();
    let mut out: Vec<usize> = Vec::new();
    let mut i: usize = 0;
    while i < n
        invariant
            n == names@.len(),
            n == ids@.len(),
            forall|a: int, b: int| 0 <= a < b < ids@.len() ==> ids@[a]@ != ids@[b]@,
            i <= n,
            out@.len() == i,
            forall|k: int| 0 <= k < out@.len() ==> out@[k] < i,
            forall|x: usize| x < i ==> out@.contains(x),
            strictly_sorted(labels_at(names@, ids@, out@)),
        decreases n - i,
    {
        let ghost li = label_at(names@, ids@, i as int);
        let mut p: usize = 0;
        while p < out.len() && label_less(
            names[out[p]].as_str(),
            ids[out[p]].as_str(),
            names[i].as_str(),
            ids[i].as_str(),
        )
            invariant
                n == names@.len(),
                n == ids@.len(),
                i < n,
                li == label_at(names@, ids@, i as int),
                p <= out@.len(),
                forall|k: int| 0 <= k < out@.len() ==> out@[k] < i,
                forall|k: int|
                    0 <= k < p ==> label_lt(label_at(names@, ids@, out@[k] as int), li),
            decreases out@.len() - p,
        {
            p = p + 1;
        }
        let ghost old_out = out@;
        let ghost old_labels = labels_at(names@, ids@, old_out);
        if p < out.len() {
            proof {
                let lp = label_at(names@, ids@, out@[p as int] as int);
                assert(ids@[out@[p as int] as int]@ != ids@[i as int]@);
                lemma_label_lt_total(lp, li);
            }
        }
        out.insert(p, i);
        proof {
            let new_labels = labels_at(names@, ids@, out@);
            assert(new_labels =~= old_labels.insert(p as int, li));
            assert forall|a: int, b: int| 0 <= a < b < new_labels.len() implies label_lt(
                #[trigger] new_labels[a],
                #[trigger] new_labels[b],
            ) by {
                if b < p {
                    assert(new_labels[a] == old_labels[a]);
                    assert(new_labels[b] == old_labels[b]);
                } else if b == p {
                    assert(new_labels[a] == old_labels[a]);
                } else if a < p {
                    assert(new_labels[a] == old_labels[a]);
                    assert(new_labels[b] == old_labels[b - 1]);
                } else if a == p {
                    assert(new_labels[b] == old_labels[b - 1]);
                    if b - 1 > p {
                        assert(label_lt(old_labels[p as int], old_labels[b - 1]));
                        lemma_label_lt_transitive(li, old_labels[p as int], old_labels[b - 1]);
                    }
                } else {
                    assert(new_labels[a] == old_labels[a - 1]);
                    assert(new_labels[b] == old_labels[b - 1]);
                }
            }
            assert forall|x: usize| x < i + 1 implies out@.contains(x) by {
                if x == i {
                    assert(out@[p as int] == x);
                } else {
                    assert(old_out.contains(x));
                    let k = choose|k: int| 0 <= k < old_out.len() && old_out[k] == x;
                    if k < p {
                        assert(out@[k] == x);
                    } else {
                        assert(out@[k + 1] == x);
                    }
                }
            }
        }
        i = i + 1;
    }
    out
}

/// The labels at `r` hold exactly the labels of the whole list when `r` covers every index.
proof fn lemma_cover_to_set(names: Seq<String>, ids: Seq<String>, r: Seq<usize>, labels: Set<Label>)
    requires
        names.len() == ids.len(),
        ids.len() <= usize::MAX,
        forall|k: int| 0 <= k < r.len() ==> r[k] < ids.len(),
        forall|x: usize| x < ids.len() ==> r.contains(x),
        forall|l: Label|
            labels.contains(l) <==> exists|x: int| 0 <= x < ids.len() && label_at(names, ids, x) == l,
    ensures
        labels_at(names, ids, r).to_set() == labels,
{
    let q = labels_at(names, ids, r);
    assert forall|l: Label| q.to_set().contains(l) <==> labels.contains(l) by {
        if q.to_set().contains(l) {
            let k = choose|k: int| 0 <= k < q.len() && q[k] == l;
            assert(label_at(names, ids, r[k] as int) == l);
        }
        if labels.contains(l) {
            let x = choose|x: int| 0 <= x < ids.len() && label_at(names, ids, x) == l;
            assert(r.contains(x as usize));
            let k = choose|k: int| 0 <= k < r.len() && r[k] == x as usize;
            assert(q[k] == l);
        }
    }
    assert(q.to_set() =~= labels);
}

/// Indices into `groups`, ordered by group display name (then id).
pub fn sort_groups(snapshot: &Snapshot) -> (r: Vec<usize>)
    requires
        snapshot.well_formed(),
    ensures
        forall|k: int| 0 <= k < r@.len() ==> r@[k] < snapshot.groups@.len(),
        r@.map_values(|x: usize| group_label(snapshot.groups@[x as int])) == arranged(
            snapshot.group_labels(),
        ),
{
    let n = snapshot.groups.len();
    let mut names: Vec<String> = Vec::new();
    let mut ids: Vec<String> = Vec::new();
    for i in 0..n
        invariant
            n == snapshot.groups@.len(),
            names@.len() == i,
            ids@.len() == i,
            forall|k: int|
                0 <= k < i ==> names@[k]@ == group_name_of(snapshot.groups@[k]) && ids@[k]@
                    == snapshot.groups@[k].id@,
    {
        names.push(get_group_name(&snapshot.groups[i]));
        ids.push(snapshot.groups[i].id.clone());
    }
    let r = order_labels(&names, &ids);
    proof {
        let q = labels_at(names@, ids@, r@);
        assert(r@.map_values(|x: usize| group_label(snapshot.groups@[x as int])) =~= q);
        assert forall|l: Label| snapshot.group_labels().contains(l) <==> exists|x: int|
            0 <= x < ids@.len() && label_at(names@, ids@, x) == l by {
            if snapshot.group_labels().contains(l) {
                let x = choose|x: int|
                    0 <= x < snapshot.groups@.len() && group_label(snapshot.groups@[x]) == l;
                assert(label_at(names@, ids@, x) == l);
            }
            if exists|x: int| 0 <= x < ids@.len() && label_at(names@, ids@, x) == l {
                let x = choose|x: int| 0 <= x < ids@.len() && label_at(names@, ids@, x) == l;
                assert(group_label(snapshot.groups@[x]) == l);
            }
        }
        lemma_cover_to_set(names@, ids@, r@, snapshot.group_labels());
        lemma_arranged(q);
    }
    r
}

/// Whether the group's member list holds `id`.
pub fn group_lists(group: &Group, id: &String) -> (r: bool)
    ensures
        r == lists(*group, id@),
{
    let n = group.members.len();
    for j in 0..n
        invariant
            n == group.members@.len(),
            forall|k: int| 0 <= k < j ==> group.members@[k]@ != id@,
    {
        if group.members[j] == *id {
            return true;
        }
    }
    false
}

/// Indices into `endpoints` of the known members of `snapshot.groups[g]`, ordered by
/// display name (then id).
pub fn sort_clients(g: usize, snapshot: &Snapshot) -> (r: Vec<usize>)
    requires
        snapshot.well_formed(),
        g < snapshot.groups@.len(),
    ensures
        forall|k: int| 0 <= k < r@.len() ==> r@[k] < snapshot.endpoints@.len(),
        r@.map_values(|x: usize| endpoint_label(snapshot.endpoints@[x as int])) == arranged(
            snapshot.member_labels(snapshot.groups@[g as int].id@),
        ),
{
    let group = &snapshot.groups[g];
    let ghost gid = group.id@;
    let n = snapshot.endpoints.len();
    let mut names: Vec<String> = Vec::new();
    let mut ids: Vec<String> = Vec::new();
    let mut at: Vec<usize> = Vec::new();
    for i in 0..n
        invariant
            n == snapshot.endpoints@.len(),
            snapshot.well_formed(),
            g < snapshot.groups@.len(),
            *group == snapshot.groups@[g as int],
            gid == group.id@,
            names@.len() == at@.len(),
            ids@.len() == at@.len(),
            forall|k: int|
                0 <= k < at@.len() ==> at@[k] < i && names@[k]@ == endpoint_name_of(
                    snapshot.endpoints@[at@[k] as int],
                ) && ids@[k]@ == snapshot.endpoints@[at@[k] as int].id@,
            forall|a: int, b: int| 0 <= a < b < at@.len() ==> at@[a] < at@[b],
            forall|x: int|
                0 <= x < i && snapshot.is_member(gid, snapshot.endpoints@[x].id@) ==> exists|k: int|
                    0 <= k < at@.len() && at@[k] == x,
            forall|k: int|
                0 <= k < at@.len() ==> snapshot.is_member(
                    gid,
                    snapshot.endpoints@[at@[k] as int].id@,
                ),
    {
        let listed = group_lists(group, &snapshot.endpoints[i].id);
        proof {
            let eid = snapshot.endpoints@[i as int].id@;
            if snapshot.is_member(gid, eid) {
                let k = choose|k: int|
                    0 <= k < snapshot.groups@.len() && snapshot.groups@[k].id@ == gid && lists(
                        snapshot.groups@[k],
                        eid,
                    );
                assert(k == g);
            }
        }
        let ghost old_at = at@;
        if listed {
            names.push(get_client_name(&snapshot.endpoints[i]));
            ids.push(snapshot.endpoints[i].id.clone());
            at.push(i);
        }
        proof {
            assert forall|x: int|
                0 <= x < i + 1 && snapshot.is_member(
                    gid,
                    snapshot.endpoints@[x].id@,
                ) implies exists|k: int| 0 <= k < at@.len() && at@[k] == x by {
                if x == i {
                    assert(at@[at@.len() - 1] == x);
                } else {
                    let k = choose|k: int| 0 <= k < old_at.len() && old_at[k] == x;
                    assert(at@[k] == x);
                }
            }
        }
    }
    proof {
        assert forall|a: int, b: int| 0 <= a < b < ids@.len() implies ids@[a]@ != ids@[b]@ by {
            assert(at@[a] < at@[b]);
        }
    }
    let r0 = order_labels(&names, &ids);
    let mut r: Vec<usize> = Vec::new();
    for k in 0..r0.len()
        invariant
            r0@.len() == at@.len(),
            forall|j: int| 0 <= j < r0@.len() ==> r0@[j] < at@.len(),
            forall|j: int| 0 <= j < at@.len() ==> at@[j] < n,
            r@.len() == k,
            forall|j: int| 0 <= j < k ==> r@[j] == at@[r0@[j] as int],
    {
        r.push(at[r0[k]]);
    }
    proof {
        let q = labels_at(names@, ids@, r0@);
        assert(r@.map_values(|x: usize| endpoint_label(snapshot.endpoints@[x as int])) =~= q);
        let labels = snapshot.member_labels(gid);
        assert forall|l: Label| labels.contains(l) <==> exists|x: int|
            0 <= x < ids@.len() && label_at(names@, ids@, x) == l by {
            if labels.contains(l) {
                let x = choose|x: int|
                    0 <= x < snapshot.endpoints@.len() && snapshot.is_member(
                        gid,
                        snapshot.endpoints@[x].id@,
                    ) && endpoint_label(snapshot.endpoints@[x]) == l;
                let k = choose|k: int| 0 <= k < at@.len() && at@[k] == x;
                assert(label_at(names@, ids@, k) == l);
            }
            if exists|x: int| 0 <= x < ids@.len() && label_at(names@, ids@, x) == l {
                let x = choose|x: int| 0 <= x < ids@.len() && label_at(names@, ids@, x) == l;
                assert(endpoint_label(snapshot.endpoints@[at@[x] as int]) == l);
            }
        }
        lemma_cover_to_set(names@, ids@, r0@, labels);
        lemma_arranged(q);
    }
    r
}

/// Every focusable id: each group in display order, each followed by its known members
/// in display order.
pub fn get_all_focusable_ids(snapshot: &Snapshot) -> (r: Vec<String>)
    requires
        snapshot.well_formed(),
    ensures
        texts(r@) == snapshot.flat_order(),
{
    let order = sort_groups(snapshot);
    let ghost blocks = snapshot.group_order().map_values(|gid: Seq<char>| snapshot.block(gid));
    let mut ids: Vec<String> = Vec::new();
    assert(blocks.take(0) =~= Seq::<Seq<Seq<char>>>::empty());
    for k in 0..order.len()
        invariant
            snapshot.well_formed(),
            forall|j: int| 0 <= j < order@.len() ==> order@[j] < snapshot.groups@.len(),
            order@.map_values(|x: usize| group_label(snapshot.groups@[x as int])) == arranged(
                snapshot.group_labels(),
            ),
            blocks == snapshot.group_order().map_values(|gid: Seq<char>| snapshot.block(gid)),
            texts(ids@) == blocks.take(k as int).flatten(),
    {
        let g = order[k];
        let ghost gid = snapshot.groups@[g as int].id@;
        proof {
            assert(snapshot.group_order()[k as int] == gid);
            assert(blocks[k as int] == snapshot.block(gid));
        }
        let ghost before = ids@;
        ids.push(snapshot.groups[g].id.clone());
        let members = sort_clients(g, snapshot);
        let ghost mo = snapshot.member_order(gid);
        proof {
            assert(mo.len() == members@.len());
        }
        for m in 0..members.len()
            invariant
                forall|j: int| 0 <= j < members@.len() ==> members@[j] < snapshot.endpoints@.len(),
                members@.map_values(|x: usize| endpoint_label(snapshot.endpoints@[x as int]))
                    == arranged(snapshot.member_labels(gid)),
                mo == snapshot.member_order(gid),
                texts(ids@) == texts(before) + seq![gid] + mo.take(m as int),
        {
            let ghost prev = ids@;
            ids.push(snapshot.endpoints[members[m]].id.clone());
            proof {
                assert(mo[m as int] == snapshot.endpoints@[members@[m as int] as int].id@);
                assert(mo.take(m + 1) =~= mo.take(m as int).push(mo[m as int]));
                assert(texts(ids@) =~= texts(prev).push(mo[m as int]));
            }
        }
        proof {
            assert(texts(before.push(snapshot.groups@[g as int].id)) =~= texts(before) + seq![gid]);
            assert(mo.take(members@.len() as int) =~= mo);
            assert(blocks.take(k + 1) =~= blocks.take(k as int).push(blocks[k as int]));
            blocks.take(k as int).lemma_flatten_push(blocks[k as int]);
            assert(texts(ids@) =~= blocks.take(k + 1).flatten());
        }
    }
    proof {
        assert(blocks.take(order@.len() as int) =~= blocks);
    }
    ids
}

/// Position in the group order of the first group that lists `id`.
fn parent_position(order: &Vec<usize>, snapshot: &Snapshot, id: &String) -> (r: Option<usize>)
    requires
        snapshot.well_formed(),
        forall|j: int| 0 <= j < order@.len() ==> order@[j] < snapshot.groups@.len(),
        order@.map_values(|x: usize| group_label(snapshot.groups@[x as int])) == arranged(
            snapshot.group_labels(),
        ),
    ensures
        match r {
            Some(p) => p < order@.len() && snapshot.parent_index(id@) == Some(p as int),
            None => snapshot.parent_index(id@) is None,
        },
{
    let ghost flags = snapshot.group_order().map_values(
        |gid: Seq<char>| snapshot.is_member(gid, id@),
    );
    proof {
        flags.index_of_first_ensures(true);
    }
    for k in 0..order.len()
        invariant
            snapshot.well_formed(),
            forall|j: int| 0 <= j < order@.len() ==> order@[j] < snapshot.groups@.len(),
            order@.map_values(|x: usize| group_label(snapshot.groups@[x as int])) == arranged(
                snapshot.group_labels(),
            ),
            flags == snapshot.group_order().map_values(
                |gid: Seq<char>| snapshot.is_member(gid, id@),
            ),
            flags.len() == order@.len(),
            forall|j: int| 0 <= j < k ==> !flags[j],
    {
        let g = order[k];
        let listed = group_lists(&snapshot.groups[g], id);
        proof {
            let gid = snapshot.groups@[g as int].id@;
            assert(snapshot.group_order()[k as int] == gid);
            if snapshot.is_member(gid, id@) {
                let x = choose|x: int|
                    0 <= x < snapshot.groups@.len() && snapshot.groups@[x].id@ == gid && lists(
                        snapshot.groups@[x],
                        id@,
                    );
                assert(x == g);
            }
            assert(flags[k as int] == listed);
        }
        if listed {
            proof {
                flags.index_of_first_ensures(true);
                assert(flags[k as int] == true);
                match flags.index_of_first(true) {
                    Some(j) => {
                        if j < k {
                            assert(!flags[j]);
                        } else if j > k {
                            assert(flags[k as int] != true);
                        }
                    },
                    None => {
                        assert(flags.contains(true));
                    },
                }
            }
            return Some(k);
        }
    }
    None
}

/// Position in the group order of the first group that lists the endpoint `client_id`.
pub fn parent_group_position(client_id: &String, snapshot: &Snapshot) -> (r: Option<usize>)
    requires
        snapshot.well_formed(),
    ensures
        match r {
            Some(p) => p < snapshot.group_order().len() && snapshot.parent_index(client_id@) == Some(
                p as int,
            ),
            None => snapshot.parent_index(client_id@) is None,
        },
{
    let order = sort_groups(snapshot);
    parent_position(&order, snapshot, client_id)
}

/// The id of the first group, in display order, that lists the endpoint `client_id`.
pub fn get_group_id_of_client(client_id: &String, snapshot: &Snapshot) -> (r: Option<String>)
    requires
        snapshot.well_formed(),
    ensures
        match snapshot.parent_index(client_id@) {
            Some(p) => r is Some && r->0@ == snapshot.group_order()[p],
            None => r is None,
        },
{
    let order = sort_groups(snapshot);
    match parent_position(&order, snapshot, client_id) {
        Some(p) => {
            assert(snapshot.group_order()[p as int] == snapshot.groups@[order@[p as int] as int].id@);
            Some(snapshot.groups[order[p]].id.clone())
        },
        None => None,
    }
}

} // verus!
