//! The collaborators that a submission is checked against: the eligible
//! feeders, the assets with a constant price and the assets whose price
//! follows another asset's.
use vstd::prelude::*;

verus! {

/// The set of feeders allowed to submit prices.
pub struct Whitelist {
    pub members: Vec<u64>,
}

impl Whitelist {
    /// Whether `who` is an eligible feeder.
    pub open spec fn has(&self, who: u64) -> bool {
        self.members@.contains(who)
    }

    pub fn new() -> (r: Whitelist)
        ensures
            forall|x: u64| !r.has(x),
    {
        Whitelist { members: Vec::new() }
    }

    /// Makes `who` eligible.
    pub fn add_to_whitelist(&mut self, who: u64)
        ensures
            forall|x: u64| #[trigger] final(self).has(x) == (old(self).has(x) || x == who),
    {
        if !self.contains(who) {
            let ghost before = self.members@;
            self.members.push(who);
            assert forall|x: u64| #[trigger] self.has(x) == (old(self).has(x) || x == who) by {
                if self.has(x) && x != who {
                    let i = choose|i: int|
                        0 <= i < self.members@.len() && #[trigger] self.members@[i] == x;
                    assert(before[i] == x);
                }
                if old(self).has(x) {
                    let i = choose|i: int| 0 <= i < before.len() && #[trigger] before[i] == x;
                    assert(self.members@[i] == x);
                }
                if x == who {
                    assert(self.members@[before.len() as int] == x);
                }
            }
        }
    }

    /// Makes `who` no longer eligible.
    pub fn remove_from_whitelist(&mut self, who: u64)
        ensures
            forall|x: u64| #[trigger] final(self).has(x) == (old(self).has(x) && x != who),
    {
        let ghost old_members = self.members@;
        let mut kept: Vec<u64> = Vec::new();
        let mut i: usize = 0;
        while i < self.members.len()
            invariant
                self.members@ == old_members,
                i <= old_members.len(),
                forall|x: u64| #[trigger]
                    kept@.contains(x) == (old_members.take(i as int).contains(x) && x != who),
            decreases old_members.len() - i,
        {
            let m = self.members[i];
            assert forall|x: u64| #[trigger]
                old_members.take(i + 1).contains(x) == (old_members.take(i as int).contains(x)
                    || x == m) by {
                if old_members.take(i + 1).contains(x) {
                    let k = choose|k: int|
                        0 <= k < i + 1 && #[trigger] old_members.take(i + 1)[k] == x;
                    if k < i {
                        assert(old_members.take(i as int)[k] == x);
                    }
                }
                if old_members.take(i as int).contains(x) {
                    let k = choose|k: int|
                        0 <= k < i && #[trigger] old_members.take(i as int)[k] == x;
                    assert(old_members.take(i + 1)[k] == x);
                }
                if x == m {
                    assert(old_members.take(i + 1)[i as int] == x);
                }
            }
            let ghost before = kept@;
            if m != who {
                kept.push(m);
                assert forall|x: u64| #[trigger] kept@.contains(x) == (before.contains(x) || x
                    == m) by {
                    if kept@.contains(x) {
                        let k = choose|k: int| 0 <= k < kept@.len() && #[trigger] kept@[k] == x;
                        if k < before.len() {
                            assert(before[k] == x);
                        }
                    }
                    if before.contains(x) {
                        let k = choose|k: int| 0 <= k < before.len() && #[trigger] before[k] == x;
                        assert(kept@[k] == x);
                    }
                    if x == m {
                        assert(kept@[kept@.len() - 1] == x);
                    }
                }
            }
            i = i + 1;
        }
        assert(old_members.take(i as int) =~= old_members);
        self.members = kept;
    }

    /// Whether `who` is an eligible feeder.
    pub fn contains(&self, who: u64) -> (r: bool)
        ensures
            r == self.has(who),
    {
        let mut i: usize = 0;
        while i < self.members.len()
            invariant
                i <= self.members.len(),
                forall|k: int| 0 <= k < i ==> self.members@[k] != who,
            decreases self.members.len() - i,
        {
            if self.members[i] == who {
                return true;
            }
            i = i + 1;
        }
        false
    }
}

/// The first entry of `s` for `asset`, if any.
pub open spec fn first_special(s: Seq<(u64, i64)>, asset: u64) -> Option<i64>
    decreases s.len(),
{
    if s.len() == 0 {
        None
    } else if s[0].0 == asset {
        Some(s[0].1)
    } else {
        first_special(s.drop_first(), asset)
    }
}

/// The first entry of `s` for `asset`, if any.
pub open spec fn first_correlation(s: Seq<(u64, u64, i64)>, asset: u64) -> Option<(u64, i64)>
    decreases s.len(),
{
    if s.len() == 0 {
        None
    } else if s[0].0 == asset {
        Some((s[0].1, s[0].2))
    } else {
        first_correlation(s.drop_first(), asset)
    }
}

/// Assets whose price is a constant: pairs of asset identifier and price.
pub struct SpecialPrices {
    pub entries: Vec<(u64, i64)>,
}

impl SpecialPrices {
    pub open spec fn price_of(&self, asset: u64) -> Option<i64> {
        first_special(self.entries@, asset)
    }

    /// The constant price of `asset`, if it has one.
    pub fn convert(&self, asset: u64) -> (r: Option<i64>)
        ensures
            r == self.price_of(asset),
    {
        let mut i: usize = 0;
        assert(self.entries@.skip(0) =~= self.entries@);
        while i < self.entries.len()
            invariant
                i <= self.entries.len(),
                first_special(self.entries@, asset) == first_special(
                    self.entries@.skip(i as int),
                    asset,
                ),
            decreases self.entries.len() - i,
        {
            assert(self.entries@.skip(i as int).drop_first() =~= self.entries@.skip(i + 1));
            if self.entries[i].0 == asset {
                return Some(self.entries[i].1);
            }
            i = i + 1;
        }
        None
    }
}

/// Assets whose price is a factor times another asset's price: triples of
/// asset, reference asset and factor.
pub struct DirectPriceCorrelation {
    pub entries: Vec<(u64, u64, i64)>,
}

impl DirectPriceCorrelation {
    pub open spec fn correlation_of(&self, asset: u64) -> Option<(u64, i64)> {
        first_correlation(self.entries@, asset)
    }

    /// The reference asset and factor of `asset`, if it follows one.
    pub fn convert(&self, asset: u64) -> (r: Option<(u64, i64)>)
        ensures
            r == self.correlation_of(asset),
    {
        let mut i: usize = 0;
        assert(self.entries@.skip(0) =~= self.entries@);
        while i < self.entries.len()
            invariant
                i <= self.entries.len(),
                first_correlation(self.entries@, asset) == first_correlation(
                    self.entries@.skip(i as int),
                    asset,
                ),
            decreases self.entries.len() - i,
        {
            assert(self.entries@.skip(i as int).drop_first() =~= self.entries@.skip(i + 1));
            if self.entries[i].0 == asset {
                return Some((self.entries[i].1, self.entries[i].2));
            }
            i = i + 1;
        }
        None
    }
}

} // verus!
