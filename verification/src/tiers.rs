//! Tiers: from a balance to a voting power.

use vstd::prelude::*;
use crate::biguint::BigUint;

verus! {

/// A named bracket of voting power, open to balances from `min_threshold` up.
#[derive(Debug)]
pub struct Tier {
    pub name: Vec<u8>,
    pub min_threshold: BigUint,
    pub voting_power: BigUint,
}

/// What a tier says, as plain mathematics.
pub struct TierView {
    pub name: Seq<u8>,
    pub min_threshold: nat,
    pub voting_power: nat,
}

impl View for Tier {
    type V = TierView;

    open spec fn view(&self) -> TierView {
        TierView {
            name: self.name@,
            min_threshold: self.min_threshold@,
            voting_power: self.voting_power@,
        }
    }
}

impl Clone for Tier {
    fn clone(&self) -> (r: Self)
        ensures
            r@ == self@,
    {
        let name: Vec<u8> = self.name.clone();
        assert(name@ =~= self.name@);
        Tier {
            name,
            min_threshold: self.min_threshold.clone(),
            voting_power: self.voting_power.clone(),
        }
    }
}

/// Whether `balance` reaches the threshold of `tier`.
pub open spec fn qualifies(tier: TierView, balance: nat) -> bool {
    tier.min_threshold <= balance
}

/// Whether the tier at position `i` is the choice for `balance` among the
/// first `n` tiers: it qualifies, no qualifying tier among them has a greater
/// threshold, and every qualifying tier before it has a smaller one.
pub open spec fn is_choice_among(tiers: Seq<TierView>, balance: nat, n: int, i: int) -> bool {
    &&& 0 <= i < n <= tiers.len()
    &&& qualifies(tiers[i], balance)
    &&& forall|j: int|
        0 <= j < n && qualifies(#[trigger] tiers[j], balance) ==> tiers[j].min_threshold
            <= tiers[i].min_threshold
    &&& forall|j: int|
        0 <= j < i && qualifies(#[trigger] tiers[j], balance) ==> tiers[j].min_threshold
            < tiers[i].min_threshold
}

/// Whether the tier at position `i` is the one that `balance` resolves to:
/// the earliest of the qualifying tiers with the greatest threshold.
pub open spec fn is_choice(tiers: Seq<TierView>, balance: nat, i: int) -> bool {
    is_choice_among(tiers, balance, tiers.len() as int, i)
}

/// The tier that `balance` resolves to, if any tier qualifies.
pub open spec fn resolved(tiers: Seq<TierView>, balance: nat) -> Option<TierView> {
    if exists|i: int| is_choice(tiers, balance, i) {
        Some(tiers[choose|i: int| is_choice(tiers, balance, i)])
    } else {
        None
    }
}

/// The voting power that `balance` carries: that of its tier, or zero without one.
pub open spec fn voting_weight(tiers: Seq<TierView>, balance: nat) -> nat {
    match resolved(tiers, balance) {
        Some(tier) => tier.voting_power,
        None => 0,
    }
}

/// A balance resolves to one position at most.
pub proof fn lemma_choice_unique(tiers: Seq<TierView>, balance: nat, i: int, j: int)
    requires
        is_choice(tiers, balance, i),
        is_choice(tiers, balance, j),
    ensures
        i == j,
{
}

/// Among the first `n` tiers one is the choice exactly when one qualifies.
pub proof fn lemma_choice_exists(tiers: Seq<TierView>, balance: nat, n: int)
    requires
        0 <= n <= tiers.len(),
    ensures
        (exists|i: int| is_choice_among(tiers, balance, n, i)) <==> (exists|j: int|
            0 <= j < n && qualifies(#[trigger] tiers[j], balance)),
    decreases n,
{
    if n > 0 {
        let m: int = n - 1;
        lemma_choice_exists(tiers, balance, m);
        if exists|j: int| 0 <= j < n && qualifies(#[trigger] tiers[j], balance) {
            if exists|i: int| is_choice_among(tiers, balance, m, i) {
                let b = choose|i: int| is_choice_among(tiers, balance, m, i);
                if qualifies(tiers[m], balance) && tiers[m].min_threshold
                    > tiers[b].min_threshold {
                    assert(is_choice_among(tiers, balance, n, m));
                } else {
                    assert(is_choice_among(tiers, balance, n, b));
                }
            } else {
                assert(qualifies(tiers[m], balance));
                assert(is_choice_among(tiers, balance, n, m));
            }
        }
    }
}

/// A balance resolves to a tier exactly when it reaches the threshold of
/// some tier, and then to the earliest of those with the greatest threshold.
pub proof fn law_resolved(tiers: Seq<TierView>, balance: nat)
    ensures
        resolved(tiers, balance) is Some <==> exists|j: int|
            0 <= j < tiers.len() && qualifies(#[trigger] tiers[j], balance),
        forall|i: int| is_choice(tiers, balance, i) ==> resolved(tiers, balance) == Some(tiers[i]),
{
    let n: int = tiers.len() as int;
    lemma_choice_exists(tiers, balance, n);
    if exists|i: int| is_choice_among(tiers, balance, n, i) {
        let w = choose|i: int| is_choice_among(tiers, balance, n, i);
        assert(is_choice(tiers, balance, w));
    }
    if exists|i: int| is_choice(tiers, balance, i) {
        let w = choose|i: int| is_choice(tiers, balance, i);
        assert(is_choice_among(tiers, balance, n, w));
    }
    assert forall|i: int| is_choice(tiers, balance, i) implies resolved(tiers, balance) == Some(
        tiers[i],
    ) by {
        lemma_choice_unique(tiers, balance, i, choose|k: int| is_choice(tiers, balance, k));
    }
}

/// Of two qualifying tiers with the same threshold, the later one is never
/// the choice.
pub proof fn law_earliest_wins(tiers: Seq<TierView>, balance: nat, i: int, j: int)
    requires
        0 <= i < j < tiers.len(),
        qualifies(tiers[i], balance),
        tiers[i].min_threshold == tiers[j].min_threshold,
    ensures
        !is_choice(tiers, balance, j),
{
}

/// Without tiers no balance resolves to a tier, and every voting weight is zero.
pub proof fn law_no_tiers_no_tier(balance: nat)
    ensures
        resolved(Seq::<TierView>::empty(), balance) is None,
        voting_weight(Seq::<TierView>::empty(), balance) == 0,
{
}

/// The tiers, in the order in which they were added.
///
/// Thresholds need not rise along the table, and two tiers may share one.
pub struct TierTable {
    tiers: Vec<Tier>,
}

impl View for TierTable {
    type V = Seq<TierView>;

    closed spec fn view(&self) -> Seq<TierView> {
        self.tiers@.map_values(|t: Tier| t@)
    }
}

impl TierTable {
    /// The table without tiers.
    pub fn new() -> (r: TierTable)
        ensures
            r@ == Seq::<TierView>::empty(),
    {
        let r = TierTable { tiers: Vec::new() };
        assert(r@ =~= Seq::<TierView>::empty());
        r
    }

    /// The table that holds `tiers`, in that order.
    pub fn from_list(tiers: Vec<Tier>) -> (r: TierTable)
        ensures
            r@ == tiers@.map_values(|t: Tier| t@),
    {
        TierTable { tiers }
    }

    /// Appends a tier. Nothing is asked of its threshold or its name.
    pub fn add_tier(&mut self, name: Vec<u8>, min_threshold: BigUint, voting_power: BigUint)
        ensures
            final(self)@ == old(self)@.push(
                TierView {
                    name: name@,
                    min_threshold: min_threshold@,
                    voting_power: voting_power@,
                },
            ),
    {
        let tier = Tier { name, min_threshold, voting_power };
        self.tiers.push(tier);
        assert(self@ =~= old(self)@.push(tier@));
    }

    /// Removes every tier.
    pub fn clear_all_tiers(&mut self)
        ensures
            final(self)@ == Seq::<TierView>::empty(),
    {
        self.tiers.clear();
        assert(self@ =~= Seq::<TierView>::empty());
    }

    /// The tiers, in the order in which they were added.
    pub fn list_tiers(&self) -> (r: Vec<Tier>)
        ensures
            r@.map_values(|t: Tier| t@) == self@,
    {
        let mut r: Vec<Tier> = Vec::new();
        let mut i: usize = 0;
        while i < self.tiers.len()
            invariant
                i <= self.tiers@.len(),
                r@.len() == i,
                forall|k: int| 0 <= k < i ==> r@[k]@ == self.tiers@[k]@,
            decreases self.tiers@.len() - i,
        {
            r.push(self.tiers[i].clone());
            i = i + 1;
        }
        assert(r@.map_values(|t: Tier| t@) =~= self@);
        r
    }

    /// The tier for `balance`: of the tiers whose threshold it reaches, the
    /// one with the greatest threshold, and of several such the earliest.
    pub fn resolve_tier(&self, balance: &BigUint) -> (r: Option<Tier>)
        ensures
            match r {
                Some(tier) => resolved(self@, balance@) == Some(tier@),
                None => resolved(self@, balance@) is None,
            },
            r is None <==> forall|j: int| 0 <= j < self@.len() ==> !qualifies(self@[j], balance@),
    {
        let mut best: Option<usize> = None;
        let mut i: usize = 0;
        while i < self.tiers.len()
            invariant
                i <= self.tiers@.len(),
                self@.len() == self.tiers@.len(),
                match best {
                    Some(b) => is_choice_among(self@, balance@, i as int, b as int),
                    None => forall|j: int| 0 <= j < i ==> !qualifies(#[trigger] self@[j], balance@),
                },
            decreases self.tiers@.len() - i,
        {
            let tier = &self.tiers[i];
            assert(self@[i as int] == tier@);
            if !balance.lt(&tier.min_threshold) {
                let better: bool = match best {
                    Some(b) => {
                        assert(self@[b as int] == self.tiers@[b as int]@);
                        tier.min_threshold.gt(&self.tiers[b].min_threshold)
                    },
                    None => true,
                };
                if better {
                    best = Some(i);
                }
            }
            i = i + 1;
        }
        match best {
            Some(b) => {
                proof {
                    let chosen: int = choose|k: int| is_choice(self@, balance@, k);
                    lemma_choice_unique(self@, balance@, b as int, chosen);
                }
                Some(self.tiers[b].clone())
            },
            None => None,
        }
    }

    /// The voting power for `balance`: that of its tier, or zero without one.
    pub fn resolve_voting_weight(&self, balance: &BigUint) -> (r: BigUint)
        ensures
            r@ == voting_weight(self@, balance@),
    {
        match self.resolve_tier(balance) {
            Some(tier) => tier.voting_power,
            None => BigUint::zero(),
        }
    }
}

} // verus!
