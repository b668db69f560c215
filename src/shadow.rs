use vstd::prelude::*;

verus! {

/// Shadow-volume steps in one percent: shadow volumes are kept in millionths of a percent.
pub const STEPS_PER_PERCENT: u64 = 1_000_000;

/// The shadow volume of 100 percent.
pub const MAX_LEVEL: u64 = 100 * STEPS_PER_PERCENT;

/// A shadow volume rounded to the nearest whole percent, halves rounding up.
pub open spec fn rounded(level: u64) -> u64 {
    ((level as int + STEPS_PER_PERCENT / 2) / STEPS_PER_PERCENT as int) as u64
}

/// The shadow volume of a whole percentage.
pub open spec fn level_of_percent(percent: u64) -> u64 {
    (percent * STEPS_PER_PERCENT) as u64
}

/// Rounds a shadow volume to the nearest whole percent.
pub fn round_level(level: u64) -> (r: u64)
    requires
        level <= MAX_LEVEL,
    ensures
        r == rounded(level),
        r <= 100,
{
    (level + STEPS_PER_PERCENT / 2) / STEPS_PER_PERCENT
}

/// The shadow volume of a whole percentage.
pub fn percent_level(percent: u64) -> (r: u64)
    requires
        percent <= 100,
    ensures
        r == level_of_percent(percent),
        r <= MAX_LEVEL,
{
    percent * STEPS_PER_PERCENT
}

/// One endpoint's shadow volume.
pub struct ShadowEntry {
    id: String,
    level: u64,
}

/// Shadow volumes by endpoint id: a finer copy of each endpoint's volume, so that
/// repeated proportional scaling does not drift through rounding.
pub struct ShadowVolumes {
    entries: Vec<ShadowEntry>,
}

impl View for ShadowVolumes {
    type V = Map<Seq<char>, u64>;

    closed spec fn view(&self) -> Map<Seq<char>, u64> {
        Map::new(
            |k: Seq<char>| exists|i: int| 0 <= i < self.entries@.len() && self.entries@[i].id@ == k,
            |k: Seq<char>|
                self.entries@[choose|i: int|
                    0 <= i < self.entries@.len() && self.entries@[i].id@ == k].level,
        )
    }
}

/// Every value of the map is at most 100 percent.
pub open spec fn levels_in_range(m: Map<Seq<char>, u64>) -> bool {
    forall|k: Seq<char>| m.contains_key(k) ==> m[k] <= MAX_LEVEL
}

impl ShadowVolumes {
    /// One entry per id, each at most 100 percent.
    pub closed spec fn well_formed(&self) -> bool {
        &&& forall|i: int, j: int|
            0 <= i < j < self.entries@.len() ==> self.entries@[i].id@ != self.entries@[j].id@
        &&& forall|i: int| 0 <= i < self.entries@.len() ==> self.entries@[i].level <= MAX_LEVEL
    }

    proof fn lemma_view_at(&self, i: int)
        requires
            self.well_formed(),
            0 <= i < self.entries@.len(),
        ensures
            self@.contains_key(self.entries@[i].id@),
            self@[self.entries@[i].id@] == self.entries@[i].level,
    {
        let k = self.entries@[i].id@;
        let j = choose|j: int| 0 <= j < self.entries@.len() && self.entries@[j].id@ == k;
        assert(j == i);
    }

    pub proof fn lemma_levels_in_range(&self)
        requires
            self.well_formed(),
        ensures
            levels_in_range(self@),
    {
        assert forall|k: Seq<char>| self@.contains_key(k) implies self@[k] <= MAX_LEVEL by {
            let i = choose|i: int| 0 <= i < self.entries@.len() && self.entries@[i].id@ == k;
            self.lemma_view_at(i);
        }
    }

    /// No shadow volumes yet.
    pub fn new() -> (r: Self)
        ensures
            r.well_formed(),
            r@ == Map::<Seq<char>, u64>::empty(),
    {
        let r = ShadowVolumes { entries: Vec::new() };
        assert(r@ =~= Map::<Seq<char>, u64>::empty());
        r
    }

    fn find(&self, id: &String) -> (r: Option<usize>)
        requires
            self.well_formed(),
        ensures
            match r {
                Some(i) => i < self.entries@.len() && self.entries@[i as int].id@ == id@,
                None => forall|i: int|
                    0 <= i < self.entries@.len() ==> self.entries@[i].id@ != id@,
            },
    {
        for i in 0..self.entries.len()
            invariant
                forall|j: int| 0 <= j < i ==> self.entries@[j].id@ != id@,
        {
            if self.entries[i].id == *id {
                return Some(i);
            }
        }
        None
    }

    /// The shadow volume of `id`, if it has one.
    pub fn get(&self, id: &String) -> (r: Option<u64>)
        requires
            self.well_formed(),
        ensures
            match r {
                Some(v) => self@.contains_key(id@) && self@[id@] == v && v <= MAX_LEVEL,
                None => !self@.contains_key(id@),
            },
    {
        match self.find(id) {
            Some(i) => {
                proof {
                    self.lemma_view_at(i as int);
                }
                Some(self.entries[i].level)
            },
            None => None,
        }
    }

    /// Sets the shadow volume of `id`.
    pub fn set(&mut self, id: &String, level: u64)
        requires
            old(self).well_formed(),
            level <= MAX_LEVEL,
        ensures
            final(self).well_formed(),
            final(self)@ == old(self)@.insert(id@, level),
    {
        let ghost before = *self;
        let ghost mut pos: int = 0;
        match self.find(id) {
            Some(i) => {
                self.entries.set(i, ShadowEntry { id: id.clone(), level });
                proof {
                    pos = i as int;
                }
            },
            None => {
                self.entries.push(ShadowEntry { id: id.clone(), level });
                proof {
                    pos = self.entries@.len() - 1;
                }
            },
        }
        proof {
            let n = self.entries@.len();
            assert(self.well_formed());
            assert forall|k: Seq<char>| #[trigger] self@.contains_key(k) <==> before@.insert(
                id@,
                level,
            ).contains_key(k) by {
                if self@.contains_key(k) && k != id@ {
                    let j = choose|j: int| 0 <= j < n && self.entries@[j].id@ == k;
                    assert(before.entries@[j].id@ == k);
                }
                if before@.contains_key(k) && k != id@ {
                    let j = choose|j: int|
                        0 <= j < before.entries@.len() && before.entries@[j].id@ == k;
                    assert(self.entries@[j].id@ == k);
                }
                if k == id@ {
                    assert(self.entries@[pos].id@ == id@);
                }
            }
            assert forall|k: Seq<char>| #[trigger] self@.contains_key(k) implies self@[k]
                == before@.insert(id@, level)[k] by {
                let j = choose|j: int| 0 <= j < n && self.entries@[j].id@ == k;
                self.lemma_view_at(j);
                if k != id@ {
                    before.lemma_view_at(j);
                }
            }
            assert(self@ =~= before@.insert(id@, level));
        }
    }
}

} // verus!
