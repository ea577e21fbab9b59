//! The balances of the members.

use vstd::prelude::*;
use crate::biguint::BigUint;
use crate::identity::Identity;

verus! {

/// Whether the entries hold a line for `identity`.
pub open spec fn holds(entries: Seq<(Identity, nat)>, identity: Identity) -> bool {
    exists|i: int| 0 <= i < entries.len() && (#[trigger] entries[i]).0 == identity
}

/// A position at which the entries hold a line for `identity`.
pub open spec fn index_of(entries: Seq<(Identity, nat)>, identity: Identity) -> int {
    choose|i: int| 0 <= i < entries.len() && (#[trigger] entries[i]).0 == identity
}

/// The balance of `identity`: what its line says, or zero without a line.
pub open spec fn balance_of(entries: Seq<(Identity, nat)>, identity: Identity) -> nat {
    if holds(entries, identity) {
        entries[index_of(entries, identity)].1
    } else {
        0
    }
}

/// Every balance is positive and no identity has two lines.
pub open spec fn valid(entries: Seq<(Identity, nat)>) -> bool {
    &&& forall|i: int| 0 <= i < entries.len() ==> (#[trigger] entries[i]).1 > 0
    &&& forall|i: int, j: int|
        0 <= i < j < entries.len() ==> (#[trigger] entries[i]).0 != (#[trigger] entries[j]).0
}

/// The entries after `amount` is added to the balance of `identity`.
///
/// An existing line keeps its place. A new line goes to the end, and only
/// where there is something to record.
pub open spec fn credited(entries: Seq<(Identity, nat)>, identity: Identity, amount: nat) -> Seq<
    (Identity, nat),
> {
    if holds(entries, identity) {
        let i = index_of(entries, identity);
        entries.update(i, (identity, entries[i].1 + amount))
    } else if amount > 0 {
        entries.push((identity, amount))
    } else {
        entries
    }
}

/// The entries after `amount` is taken from the balance of `identity`.
///
/// A line that would drop to zero or below is removed; the lines after it
/// move up by one.
pub open spec fn debited(entries: Seq<(Identity, nat)>, identity: Identity, amount: nat) -> Seq<
    (Identity, nat),
> {
    if holds(entries, identity) {
        let i = index_of(entries, identity);
        if amount < entries[i].1 {
            entries.update(i, (identity, (entries[i].1 - amount) as nat))
        } else {
            entries.remove(i)
        }
    } else {
        entries
    }
}

/// In valid entries an identity has one position at most.
pub proof fn lemma_position(entries: Seq<(Identity, nat)>, identity: Identity, i: int)
    requires
        valid(entries),
        0 <= i < entries.len(),
        entries[i].0 == identity,
    ensures
        holds(entries, identity),
        index_of(entries, identity) == i,
        balance_of(entries, identity) == entries[i].1,
{
    let k = index_of(entries, identity);
    if k < i {
        assert(entries[k].0 != entries[i].0);
    } else if i < k {
        assert(entries[i].0 != entries[k].0);
    }
}

/// Crediting keeps the entries valid, raises one balance by the amount and
/// leaves every other balance as it was.
pub proof fn lemma_credited(entries: Seq<(Identity, nat)>, identity: Identity, amount: nat)
    requires
        valid(entries),
    ensures
        valid(credited(entries, identity, amount)),
        balance_of(credited(entries, identity, amount), identity) == balance_of(entries, identity)
            + amount,
        holds(credited(entries, identity, amount), identity) <==> balance_of(entries, identity)
            + amount > 0,
        forall|other: Identity|
            other != identity ==> balance_of(credited(entries, identity, amount), other)
                == balance_of(entries, other),
        forall|other: Identity|
            other != identity ==> holds(credited(entries, identity, amount), other) == holds(
                entries,
                other,
            ),
{
    let after = credited(entries, identity, amount);
    if holds(entries, identity) {
        let i = index_of(entries, identity);
        assert(after[i].0 == identity);
        assert(forall|k: int| 0 <= k < after.len() ==> (#[trigger] after[k]).0 == entries[k].0);
        assert(valid(after));
        lemma_position(after, identity, i);
    } else if amount > 0 {
        let i = entries.len() as int;
        assert(after[i].0 == identity);
        assert(forall|k: int| 0 <= k < entries.len() ==> #[trigger] after[k] == entries[k]);
        assert(valid(after));
        lemma_position(after, identity, i);
    }
    assert forall|other: Identity| other != identity implies balance_of(after, other)
        == balance_of(entries, other) && holds(after, other) == holds(entries, other) by {
        if holds(entries, other) {
            let j = index_of(entries, other);
            assert(after[j] == entries[j]);
            lemma_position(entries, other, j);
            lemma_position(after, other, j);
        } else if holds(after, other) {
            let j = index_of(after, other);
            assert(entries[j].0 == other);
        }
    }
}

/// Debiting keeps the entries valid, lowers one balance by the amount, to
/// zero at the least, and leaves every other balance as it was. An identity
/// whose balance reaches zero has no line any more.
pub proof fn lemma_debited(entries: Seq<(Identity, nat)>, identity: Identity, amount: nat)
    requires
        valid(entries),
    ensures
        valid(debited(entries, identity, amount)),
        balance_of(debited(entries, identity, amount), identity) == if amount <= balance_of(
            entries,
            identity,
        ) {
            balance_of(entries, identity) - amount
        } else {
            0
        },
        holds(debited(entries, identity, amount), identity) <==> amount < balance_of(
            entries,
            identity,
        ),
        forall|other: Identity|
            other != identity ==> balance_of(debited(entries, identity, amount), other)
                == balance_of(entries, other),
        forall|other: Identity|
            other != identity ==> holds(debited(entries, identity, amount), other) == holds(
                entries,
                other,
            ),
{
    let after = debited(entries, identity, amount);
    if holds(entries, identity) {
        let i = index_of(entries, identity);
        lemma_position(entries, identity, i);
        if amount < entries[i].1 {
            assert(after[i].0 == identity);
            assert(forall|k: int| 0 <= k < after.len() ==> (#[trigger] after[k]).0 == entries[k].0);
            assert(valid(after));
            lemma_position(after, identity, i);
            assert forall|other: Identity| other != identity implies balance_of(after, other)
                == balance_of(entries, other) && holds(after, other) == holds(entries, other) by {
                if holds(entries, other) {
                    let j = index_of(entries, other);
                    assert(after[j] == entries[j]);
                    lemma_position(entries, other, j);
                    lemma_position(after, other, j);
                } else if holds(after, other) {
                    let j = index_of(after, other);
                    assert(entries[j].0 == other);
                }
            }
        } else {
            assert(forall|k: int| 0 <= k < i ==> #[trigger] after[k] == entries[k]);
            assert(forall|k: int| i <= k < after.len() ==> #[trigger] after[k] == entries[k + 1]);
            assert(valid(after)) by {
                assert forall|a: int, b: int| 0 <= a < b < after.len() implies (#[trigger] after[a]).0
                    != (#[trigger] after[b]).0 by {
                    let a0 = if a < i { a } else { a + 1 };
                    let b0 = if b < i { b } else { b + 1 };
                    assert(entries[a0].0 != entries[b0].0);
                }
                assert forall|a: int| 0 <= a < after.len() implies (#[trigger] after[a]).1 > 0 by {
                    let a0 = if a < i { a } else { a + 1 };
                    assert(entries[a0].1 > 0);
                }
            }
            if holds(after, identity) {
                let k = index_of(after, identity);
                let k0 = if k < i { k } else { k + 1 };
                assert(entries[k0].0 == identity);
                lemma_position(entries, identity, k0);
            }
            assert forall|other: Identity| other != identity implies balance_of(after, other)
                == balance_of(entries, other) && holds(after, other) == holds(entries, other) by {
                if holds(entries, other) {
                    let j = index_of(entries, other);
                    lemma_position(entries, other, j);
                    let j1 = if j < i { j } else { j - 1 };
                    assert(after[j1] == entries[j]);
                    lemma_position(after, other, j1);
                } else if holds(after, other) {
                    let j = index_of(after, other);
                    let j0 = if j < i { j } else { j + 1 };
                    assert(entries[j0].0 == other);
                }
            }
        }
    }
}

/// Two deposits add up: after `x` and then `y` are added to the balance of
/// `a`, that balance has grown by `x + y`. For an identity that had no
/// balance it is `x + y`.
pub proof fn law_deposits_add_up(entries: Seq<(Identity, nat)>, a: Identity, x: nat, y: nat)
    requires
        valid(entries),
    ensures
        balance_of(credited(credited(entries, a, x), a, y), a) == balance_of(entries, a) + x + y,
        !holds(entries, a) ==> balance_of(credited(credited(entries, a, x), a, y), a) == x + y,
{
    lemma_credited(entries, a, x);
    lemma_credited(credited(entries, a, x), a, y);
}

/// A withdrawal within the deposit is subtracted: after `x` is added to the
/// balance of `a` and `y <= x` is taken from it, that balance has grown by
/// `x - y`. For an identity that had no balance it is `x - y`.
pub proof fn law_withdrawal_is_subtracted(
    entries: Seq<(Identity, nat)>,
    a: Identity,
    x: nat,
    y: nat,
)
    requires
        valid(entries),
        x >= y,
    ensures
        balance_of(debited(credited(entries, a, x), a, y), a) == balance_of(entries, a) + x - y,
        !holds(entries, a) ==> balance_of(debited(credited(entries, a, x), a, y), a) == x - y,
{
    lemma_credited(entries, a, x);
    lemma_debited(credited(entries, a, x), a, y);
}

/// A withdrawal beyond the balance empties it: after `x` is added to the
/// balance of `a` and `y` is taken from it, where `y` is at least what `a`
/// then has, the balance is zero and `a` has no line. For an identity that
/// had no balance this is so whenever `x < y`.
pub proof fn law_overdraft_removes_member(
    entries: Seq<(Identity, nat)>,
    a: Identity,
    x: nat,
    y: nat,
)
    requires
        valid(entries),
        balance_of(entries, a) + x <= y,
    ensures
        balance_of(debited(credited(entries, a, x), a, y), a) == 0,
        !holds(debited(credited(entries, a, x), a, y), a),
{
    lemma_credited(entries, a, x);
    lemma_debited(credited(entries, a, x), a, y);
}

/// To have a line is to have a positive balance.
pub proof fn law_listed_means_positive(entries: Seq<(Identity, nat)>, a: Identity)
    requires
        valid(entries),
    ensures
        holds(entries, a) <==> balance_of(entries, a) > 0,
{
    if holds(entries, a) {
        lemma_position(entries, a, index_of(entries, a));
    }
}

/// One line of the ledger as plain mathematics.
pub open spec fn entry_view(entry: (Identity, BigUint)) -> (Identity, nat) {
    (entry.0, entry.1@)
}

/// The lines of a list as plain mathematics.
pub open spec fn entries_view(entries: Seq<(Identity, BigUint)>) -> Seq<(Identity, nat)> {
    entries.map_values(|e: (Identity, BigUint)| entry_view(e))
}

/// The balance of every member.
///
/// An identity without a line has the balance zero, and no line records a
/// zero: to have a line is to have a positive balance. The lines stand in the
/// order in which their identities first received points.
pub struct MemberLedger {
    entries: Vec<(Identity, BigUint)>,
}

impl View for MemberLedger {
    type V = Seq<(Identity, nat)>;

    closed spec fn view(&self) -> Seq<(Identity, nat)> {
        entries_view(self.entries@)
    }
}

impl MemberLedger {
    /// Every balance is positive and no identity has two lines.
    pub open spec fn wf(&self) -> bool {
        valid(self@)
    }

    /// The ledger without entries.
    pub fn new() -> (r: MemberLedger)
        ensures
            r.wf(),
            r@ == Seq::<(Identity, nat)>::empty(),
    {
        let r = MemberLedger { entries: Vec::new() };
        assert(r@ =~= Seq::<(Identity, nat)>::empty());
        r
    }

    /// The ledger that holds `entries`, in that order, where they are valid:
    /// every balance positive, no identity twice.
    pub fn from_entries(entries: Vec<(Identity, BigUint)>) -> (r: Option<MemberLedger>)
        ensures
            match r {
                Some(ledger) => ledger.wf() && ledger@ == entries_view(entries@),
                None => !valid(entries_view(entries@)),
            },
    {
        let ghost model = entries_view(entries@);
        let mut i: usize = 0;
        while i < entries.len()
            invariant
                i <= entries@.len(),
                model == entries_view(entries@),
                forall|a: int| 0 <= a < i ==> (#[trigger] model[a]).1 > 0,
                forall|a: int, b: int|
                    0 <= a < b < i ==> (#[trigger] model[a]).0 != (#[trigger] model[b]).0,
            decreases entries@.len() - i,
        {
            if entries[i].1.is_zero() {
                assert(model[i as int].1 == 0);
                return None;
            }
            let mut j: usize = 0;
            while j < i
                invariant
                    j <= i < entries@.len(),
                    model == entries_view(entries@),
                    forall|a: int| 0 <= a < j ==> (#[trigger] model[a]).0 != model[i as int].0,
                decreases i - j,
            {
                if entries[j].0 == entries[i].0 {
                    assert(model[j as int].0 == model[i as int].0);
                    return None;
                }
                j = j + 1;
            }
            i = i + 1;
        }
        Some(MemberLedger { entries })
    }

    /// Where the line of `identity` stands, if it has one.
    fn position(&self, identity: &Identity) -> (r: Option<usize>)
        ensures
            match r {
                Some(i) => i < self@.len() && self@[i as int].0 == *identity,
                None => !holds(self@, *identity),
            },
            self@.len() == self.entries@.len(),
    {
        let mut i: usize = 0;
        while i < self.entries.len()
            invariant
                i <= self.entries@.len(),
                self@.len() == self.entries@.len(),
                forall|j: int| 0 <= j < i ==> (#[trigger] self@[j]).0 != *identity,
            decreases self.entries@.len() - i,
        {
            if self.entries[i].0 == *identity {
                return Some(i);
            }
            i = i + 1;
        }
        None
    }

    /// The balance of `identity`; zero where it has no line.
    pub fn get_balance(&self, identity: &Identity) -> (r: BigUint)
        requires
            self.wf(),
        ensures
            r@ == balance_of(self@, *identity),
    {
        match self.position(identity) {
            Some(i) => {
                proof {
                    lemma_position(self@, *identity, i as int);
                }
                self.entries[i].1.clone()
            },
            None => BigUint::zero(),
        }
    }

    /// Adds `amount` to the balance of `identity`.
    pub fn add_points(&mut self, identity: Identity, amount: BigUint)
        requires
            old(self).wf(),
        ensures
            final(self).wf(),
            final(self)@ == credited(old(self)@, identity, amount@),
            balance_of(final(self)@, identity) == balance_of(old(self)@, identity) + amount@,
            forall|other: Identity|
                other != identity ==> balance_of(final(self)@, other) == balance_of(
                    old(self)@,
                    other,
                ),
    {
        proof {
            lemma_credited(self@, identity, amount@);
        }
        match self.position(&identity) {
            Some(i) => {
                proof {
                    lemma_position(self@, identity, i as int);
                }
                let sum: BigUint = self.entries[i].1.add(&amount);
                self.entries.set(i, (identity, sum));
                assert(self@ =~= credited(old(self)@, identity, amount@));
            },
            None => {
                if !amount.is_zero() {
                    self.entries.push((identity, amount));
                    assert(self@ =~= credited(old(self)@, identity, amount@));
                }
            },
        }
    }

    /// Takes `amount` from the balance of `identity`. A balance that the
    /// amount meets or exceeds is gone, and its line with it.
    pub fn remove_points(&mut self, identity: &Identity, amount: &BigUint)
        requires
            old(self).wf(),
        ensures
            final(self).wf(),
            final(self)@ == debited(old(self)@, *identity, amount@),
            balance_of(final(self)@, *identity) == if amount@ <= balance_of(old(self)@, *identity) {
                balance_of(old(self)@, *identity) - amount@
            } else {
                0
            },
            holds(final(self)@, *identity) <==> amount@ < balance_of(old(self)@, *identity),
            forall|other: Identity|
                other != *identity ==> balance_of(final(self)@, other) == balance_of(
                    old(self)@,
                    other,
                ),
    {
        proof {
            lemma_debited(self@, *identity, amount@);
        }
        match self.position(identity) {
            Some(i) => {
                proof {
                    lemma_position(self@, *identity, i as int);
                }
                if amount.lt(&self.entries[i].1) {
                    let rest: BigUint = self.entries[i].1.sub(amount);
                    self.entries.set(i, (*identity, rest));
                    assert(self@ =~= debited(old(self)@, *identity, amount@));
                } else {
                    self.entries.remove(i);
                    assert(self@ =~= debited(old(self)@, *identity, amount@));
                }
            },
            None => {},
        }
    }

    /// The lines of the ledger, in order.
    pub fn list_entries(&self) -> (r: Vec<(Identity, BigUint)>)
        ensures
            entries_view(r@) == self@,
    {
        let mut r: Vec<(Identity, BigUint)> = Vec::new();
        let mut i: usize = 0;
        while i < self.entries.len()
            invariant
                i <= self.entries@.len(),
                r@.len() == i,
                forall|k: int| 0 <= k < i ==> entry_view(r@[k]) == entry_view(self.entries@[k]),
            decreases self.entries@.len() - i,
        {
            r.push((self.entries[i].0, self.entries[i].1.clone()));
            i = i + 1;
        }
        assert(entries_view(r@) =~= self@);
        r
    }
}

} // verus!
