//! The contract: authorization, ledger and tiers behind one set of operations.

use vstd::prelude::*;
use crate::biguint::BigUint;
use crate::error::AuthorizationError;
use crate::identity::Identity;
use crate::ledger::{balance_of, credited, debited, entries_view, valid, MemberLedger};
use crate::ledger::{lemma_credited, lemma_debited};
use crate::registry::AuthorizationRegistry;
use crate::tiers::{law_no_tiers_no_tier, resolved, voting_weight, Tier, TierTable, TierView};

verus! {

/// The state of the contract as plain mathematics: its three records.
pub struct ContractView {
    pub managers: Set<Identity>,
    pub members: Seq<(Identity, nat)>,
    pub tiers: Seq<TierView>,
}

impl ContractView {
    /// The state after deployment by `caller`.
    pub open spec fn init(caller: Identity) -> ContractView {
        ContractView {
            managers: Set::<Identity>::empty().insert(caller),
            members: Seq::<(Identity, nat)>::empty(),
            tiers: Seq::<TierView>::empty(),
        }
    }

    /// The ledger holds no zero balance and no identity twice.
    pub open spec fn valid(self) -> bool {
        valid(self.members)
    }

    /// What a caller gets who asks for a manager's right.
    pub open spec fn manager_check(self, caller: Identity) -> Result<(), AuthorizationError> {
        if self.managers.contains(caller) {
            Ok(())
        } else {
            Err(AuthorizationError::NotManager)
        }
    }

    /// What a caller gets who asks for the owner's right.
    pub open spec fn owner_check(caller: Identity, owner: Identity) -> Result<
        (),
        AuthorizationError,
    > {
        if caller == owner {
            Ok(())
        } else {
            Err(AuthorizationError::NotOwner)
        }
    }

    /// The state after `caller` asks to make `address` a manager.
    pub open spec fn add_manager(
        self,
        caller: Identity,
        owner: Identity,
        address: Identity,
    ) -> ContractView {
        if caller == owner {
            ContractView { managers: self.managers.insert(address), ..self }
        } else {
            self
        }
    }

    /// The state after `caller` asks to take `address` out of the managers.
    pub open spec fn remove_manager(
        self,
        caller: Identity,
        owner: Identity,
        address: Identity,
    ) -> ContractView {
        if caller == owner {
            ContractView { managers: self.managers.remove(address), ..self }
        } else {
            self
        }
    }

    /// The state after `caller` asks to add `amount` to the balance of `address`.
    pub open spec fn add_points(self, caller: Identity, address: Identity, amount: nat) -> ContractView {
        if self.managers.contains(caller) {
            ContractView { members: credited(self.members, address, amount), ..self }
        } else {
            self
        }
    }

    /// The state after `caller` asks to take `amount` from the balance of `address`.
    pub open spec fn remove_points(
        self,
        caller: Identity,
        address: Identity,
        amount: nat,
    ) -> ContractView {
        if self.managers.contains(caller) {
            ContractView { members: debited(self.members, address, amount), ..self }
        } else {
            self
        }
    }

    /// The state after `caller` asks to append `tier`.
    pub open spec fn add_tier(self, caller: Identity, tier: TierView) -> ContractView {
        if self.managers.contains(caller) {
            ContractView { tiers: self.tiers.push(tier), ..self }
        } else {
            self
        }
    }

    /// The state after `caller` asks to remove every tier.
    pub open spec fn clear_all_tiers(self, caller: Identity) -> ContractView {
        if self.managers.contains(caller) {
            ContractView { tiers: Seq::<TierView>::empty(), ..self }
        } else {
            self
        }
    }

    /// The balance of `address`.
    pub open spec fn balance(self, address: Identity) -> nat {
        balance_of(self.members, address)
    }

    /// The tier of `address`, if its balance reaches one.
    pub open spec fn tier_of(self, address: Identity) -> Option<TierView> {
        resolved(self.tiers, self.balance(address))
    }

    /// The voting weight of `address`.
    pub open spec fn vote_weight(self, address: Identity) -> nat {
        voting_weight(self.tiers, self.balance(address))
    }
}

/// A caller who is not a manager is refused, and none of the records changes.
pub proof fn law_non_manager_changes_nothing(
    state: ContractView,
    caller: Identity,
    address: Identity,
    amount: nat,
    tier: TierView,
)
    requires
        !state.managers.contains(caller),
    ensures
        state.manager_check(caller) == Err::<(), AuthorizationError>(
            AuthorizationError::NotManager,
        ),
        state.add_points(caller, address, amount) == state,
        state.remove_points(caller, address, amount) == state,
        state.add_tier(caller, tier) == state,
        state.clear_all_tiers(caller) == state,
{
}

/// Only the owner changes the managers. Anyone else is refused, a manager
/// too, and the state stays as it is. At the owner's call the change is made,
/// and to make it a second time changes nothing more.
pub proof fn law_owner_gate(
    state: ContractView,
    caller: Identity,
    owner: Identity,
    address: Identity,
)
    ensures
        caller != owner ==> {
            &&& ContractView::owner_check(caller, owner) == Err::<(), AuthorizationError>(
                AuthorizationError::NotOwner,
            )
            &&& state.add_manager(caller, owner, address) == state
            &&& state.remove_manager(caller, owner, address) == state
        },
        caller == owner ==> {
            &&& ContractView::owner_check(caller, owner) is Ok
            &&& state.add_manager(caller, owner, address).managers.contains(address)
            &&& !state.remove_manager(caller, owner, address).managers.contains(address)
            &&& state.add_manager(caller, owner, address).add_manager(caller, owner, address)
                == state.add_manager(caller, owner, address)
            &&& state.remove_manager(caller, owner, address).remove_manager(caller, owner, address)
                == state.remove_manager(caller, owner, address)
        },
{
    if caller == owner {
        let added = state.add_manager(caller, owner, address);
        assert(added.managers.insert(address) =~= added.managers);
        let removed = state.remove_manager(caller, owner, address);
        assert(removed.managers.remove(address) =~= removed.managers);
    }
}

/// Once a manager has cleared the tiers, no address has a tier, whatever its
/// balance, and every voting weight is zero.
pub proof fn law_cleared_tiers_resolve_none(
    state: ContractView,
    caller: Identity,
    address: Identity,
)
    requires
        state.managers.contains(caller),
    ensures
        state.clear_all_tiers(caller).tier_of(address) is None,
        state.clear_all_tiers(caller).vote_weight(address) == 0,
{
    law_no_tiers_no_tier(state.balance(address));
}

/// No operation puts a zero balance or a second line into the ledger.
pub proof fn law_ledger_stays_valid(
    state: ContractView,
    caller: Identity,
    owner: Identity,
    address: Identity,
    amount: nat,
    tier: TierView,
)
    requires
        state.valid(),
    ensures
        ContractView::init(caller).valid(),
        state.add_manager(caller, owner, address).valid(),
        state.remove_manager(caller, owner, address).valid(),
        state.add_points(caller, address, amount).valid(),
        state.remove_points(caller, address, amount).valid(),
        state.add_tier(caller, tier).valid(),
        state.clear_all_tiers(caller).valid(),
{
    lemma_credited(state.members, address, amount);
    lemma_debited(state.members, address, amount);
}

/// The contract's state, and the operations that read and change it.
///
/// Reading is open to everyone. Balances and tiers change only at a
/// manager's call, the managers only at the owner's. Who calls, and who the
/// owner is, the platform tells; an operation takes both as arguments. A
/// refused call changes nothing.
pub struct ExperienceContract {
    managers: AuthorizationRegistry,
    members: MemberLedger,
    tiers: TierTable,
}

impl View for ExperienceContract {
    type V = ContractView;

    closed spec fn view(&self) -> ContractView {
        ContractView { managers: self.managers@, members: self.members@, tiers: self.tiers@ }
    }
}

impl ExperienceContract {
    /// The records are well formed, each by its own rule.
    pub closed spec fn wf(&self) -> bool {
        self.managers.wf() && self.members.wf()
    }

    /// A well-formed contract has a valid ledger.
    pub proof fn lemma_wf_valid(&self)
        requires
            self.wf(),
        ensures
            self@.valid(),
    {
    }

    /// Deploys the contract: `caller` becomes the only manager, and there are
    /// no members and no tiers.
    pub fn init(caller: Identity) -> (r: ExperienceContract)
        ensures
            r.wf(),
            r@ == ContractView::init(caller),
    {
        ExperienceContract {
            managers: AuthorizationRegistry::initialize(caller),
            members: MemberLedger::new(),
            tiers: TierTable::new(),
        }
    }

    /// Takes up records that were kept elsewhere. The ledger's entries must
    /// be valid: every balance positive, no identity twice.
    pub fn restore(
        managers: &Vec<Identity>,
        members: Vec<(Identity, BigUint)>,
        tiers: Vec<Tier>,
    ) -> (r: Option<ExperienceContract>)
        ensures
            match r {
                Some(c) => c.wf() && c@ == (ContractView {
                    managers: managers@.to_set(),
                    members: entries_view(members@),
                    tiers: tiers@.map_values(|t: Tier| t@),
                }),
                None => !valid(entries_view(members@)),
            },
    {
        match MemberLedger::from_entries(members) {
            Some(ledger) => Some(
                ExperienceContract {
                    managers: AuthorizationRegistry::from_list(managers),
                    members: ledger,
                    tiers: TierTable::from_list(tiers),
                },
            ),
            None => None,
        }
    }

    /// Runs when the contract's code is replaced. The records need no
    /// migration, so the state stays as it is.
    pub fn upgrade(&mut self)
        ensures
            *final(self) == *old(self),
    {
    }

    /// Refuses a caller who is not a manager.
    pub fn require_caller_is_manager(&self, caller: Identity) -> (r: Result<
        (),
        AuthorizationError,
    >)
        ensures
            r == self@.manager_check(caller),
    {
        self.managers.require_manager(&caller)
    }

    /// Refuses a caller who is not the owner.
    pub fn require_caller_is_owner(caller: Identity, owner: Identity) -> (r: Result<
        (),
        AuthorizationError,
    >)
        ensures
            r == ContractView::owner_check(caller, owner),
    {
        if caller == owner {
            Ok(())
        } else {
            Err(AuthorizationError::NotOwner)
        }
    }

    /// Makes `address` a manager, at the owner's call. Adding a manager
    /// again changes nothing.
    pub fn add_manager_endpoint(&mut self, caller: Identity, owner: Identity, address: Identity) -> (r:
        Result<(), AuthorizationError>)
        requires
            old(self).wf(),
        ensures
            final(self).wf(),
            r == ContractView::owner_check(caller, owner),
            final(self)@ == old(self)@.add_manager(caller, owner, address),
            r is Err ==> *final(self) == *old(self),
    {
        match Self::require_caller_is_owner(caller, owner) {
            Ok(()) => {
                self.managers.add_manager(address);
                Ok(())
            },
            Err(e) => Err(e),
        }
    }

    /// Takes `address` out of the managers, at the owner's call. Removing
    /// one who is no manager changes nothing.
    pub fn remove_manager_endpoint(
        &mut self,
        caller: Identity,
        owner: Identity,
        address: Identity,
    ) -> (r: Result<(), AuthorizationError>)
        requires
            old(self).wf(),
        ensures
            final(self).wf(),
            r == ContractView::owner_check(caller, owner),
            final(self)@ == old(self)@.remove_manager(caller, owner, address),
            r is Err ==> *final(self) == *old(self),
    {
        match Self::require_caller_is_owner(caller, owner) {
            Ok(()) => {
                self.managers.remove_manager(&address);
                Ok(())
            },
            Err(e) => Err(e),
        }
    }

    /// Adds `amount` to the balance of `address`, at a manager's call.
    pub fn add_points_endpoint(&mut self, caller: Identity, address: Identity, amount: BigUint) -> (r:
        Result<(), AuthorizationError>)
        requires
            old(self).wf(),
        ensures
            final(self).wf(),
            r == old(self)@.manager_check(caller),
            final(self)@ == old(self)@.add_points(caller, address, amount@),
            r is Err ==> *final(self) == *old(self),
    {
        match self.require_caller_is_manager(caller) {
            Ok(()) => {
                self.members.add_points(address, amount);
                Ok(())
            },
            Err(e) => Err(e),
        }
    }

    /// Takes `amount` from the balance of `address`, at a manager's call. A
    /// balance that the amount meets or exceeds drops to zero, and the
    /// member leaves the ledger.
    pub fn remove_points_endpoint(
        &mut self,
        caller: Identity,
        address: Identity,
        amount: BigUint,
    ) -> (r: Result<(), AuthorizationError>)
        requires
            old(self).wf(),
        ensures
            final(self).wf(),
            r == old(self)@.manager_check(caller),
            final(self)@ == old(self)@.remove_points(caller, address, amount@),
            r is Err ==> *final(self) == *old(self),
    {
        match self.require_caller_is_manager(caller) {
            Ok(()) => {
                self.members.remove_points(&address, &amount);
                Ok(())
            },
            Err(e) => Err(e),
        }
    }

    /// Appends a tier, at a manager's call.
    pub fn add_tier_endpoint(
        &mut self,
        caller: Identity,
        name: Vec<u8>,
        min_threshold: BigUint,
        voting_power: BigUint,
    ) -> (r: Result<(), AuthorizationError>)
        requires
            old(self).wf(),
        ensures
            final(self).wf(),
            r == old(self)@.manager_check(caller),
            final(self)@ == old(self)@.add_tier(
                caller,
                TierView {
                    name: name@,
                    min_threshold: min_threshold@,
                    voting_power: voting_power@,
                },
            ),
            r is Err ==> *final(self) == *old(self),
    {
        match self.require_caller_is_manager(caller) {
            Ok(()) => {
                self.tiers.add_tier(name, min_threshold, voting_power);
                Ok(())
            },
            Err(e) => Err(e),
        }
    }

    /// Removes every tier, at a manager's call.
    pub fn clear_all_tiers_endpoint(&mut self, caller: Identity) -> (r: Result<
        (),
        AuthorizationError,
    >)
        requires
            old(self).wf(),
        ensures
            final(self).wf(),
            r == old(self)@.manager_check(caller),
            final(self)@ == old(self)@.clear_all_tiers(caller),
            r is Err ==> *final(self) == *old(self),
    {
        match self.require_caller_is_manager(caller) {
            Ok(()) => {
                self.tiers.clear_all_tiers();
                Ok(())
            },
            Err(e) => Err(e),
        }
    }

    /// The balance of `address`.
    pub fn get_member_points_view(&self, address: Identity) -> (r: BigUint)
        requires
            self.wf(),
        ensures
            r@ == self@.balance(address),
    {
        self.members.get_balance(&address)
    }

    /// The tier of `address`, if its balance reaches one.
    pub fn get_member_tier_internal(&self, address: &Identity) -> (r: Option<Tier>)
        requires
            self.wf(),
        ensures
            match r {
                Some(tier) => self@.tier_of(*address) == Some(tier@),
                None => self@.tier_of(*address) is None,
            },
    {
        let member_points: BigUint = self.members.get_balance(address);
        self.tiers.resolve_tier(&member_points)
    }

    /// The tier of `address` as name, threshold and voting power.
    pub fn get_member_tier_view(&self, address: Identity) -> (r: Option<(Vec<u8>, BigUint, BigUint)>)
        requires
            self.wf(),
        ensures
            match r {
                Some(t) => self@.tier_of(address) == Some(
                    TierView { name: t.0@, min_threshold: t.1@, voting_power: t.2@ },
                ),
                None => self@.tier_of(address) is None,
            },
    {
        match self.get_member_tier_internal(&address) {
            Some(tier) => Some((tier.name, tier.min_threshold, tier.voting_power)),
            None => None,
        }
    }

    /// The voting weight of `address`: the voting power of its tier, or zero
    /// without one.
    pub fn get_dao_vote_weight_view(&self, address: Identity) -> (r: BigUint)
        requires
            self.wf(),
        ensures
            r@ == self@.vote_weight(address),
    {
        match self.get_member_tier_internal(&address) {
            Some(tier) => tier.voting_power,
            None => BigUint::zero(),
        }
    }

    /// The members with their balances, in the ledger's order. None of the
    /// balances is zero.
    pub fn get_dao_members_view(&self) -> (r: Vec<(Identity, BigUint)>)
        requires
            self.wf(),
        ensures
            entries_view(r@) == self@.members,
            forall|i: int| 0 <= i < r@.len() ==> (#[trigger] r@[i]).1@ > 0,
    {
        let r = self.members.list_entries();
        assert forall|i: int| 0 <= i < r@.len() implies (#[trigger] r@[i]).1@ > 0 by {
            assert(entries_view(r@)[i].1 > 0);
        }
        r
    }

    /// The tiers as name, threshold and voting power, in the table's order.
    pub fn get_all_tiers_view(&self) -> (r: Vec<(Vec<u8>, BigUint, BigUint)>)
        ensures
            r@.len() == self@.tiers.len(),
            forall|i: int|
                0 <= i < r@.len() ==> self@.tiers[i] == (TierView {
                    name: (#[trigger] r@[i]).0@,
                    min_threshold: r@[i].1@,
                    voting_power: r@[i].2@,
                }),
    {
        let tiers: Vec<Tier> = self.tiers.list_tiers();
        let mut r: Vec<(Vec<u8>, BigUint, BigUint)> = Vec::new();
        let mut i: usize = 0;
        assert(forall|k: int|
            0 <= k < tiers@.len() ==> self@.tiers[k] == tiers@.map_values(|t: Tier| t@)[k]);
        while i < tiers.len()
            invariant
                i <= tiers@.len(),
                tiers@.len() == self@.tiers.len(),
                r@.len() == i,
                forall|k: int| 0 <= k < tiers@.len() ==> self@.tiers[k] == (#[trigger] tiers@[k])@,
                forall|k: int|
                    0 <= k < i ==> self@.tiers[k] == (TierView {
                        name: (#[trigger] r@[k]).0@,
                        min_threshold: r@[k].1@,
                        voting_power: r@[k].2@,
                    }),
            decreases tiers@.len() - i,
        {
            let tier: &Tier = &tiers[i];
            let name: Vec<u8> = tier.name.clone();
            assert(name@ =~= tier.name@);
            r.push((name, tier.min_threshold.clone(), tier.voting_power.clone()));
            i = i + 1;
        }
        r
    }

    /// The managers, each once, in no particular order.
    pub fn get_managers_view(&self) -> (r: Vec<Identity>)
        requires
            self.wf(),
        ensures
            r@.no_duplicates(),
            r@.to_set() == self@.managers,
    {
        self.managers.list_managers()
    }

    /// The registry of managers.
    pub fn managers(&self) -> (r: &AuthorizationRegistry)
        ensures
            r@ == self@.managers,
            self.wf() ==> r.wf(),
    {
        &self.managers
    }

    /// The ledger.
    pub fn members(&self) -> (r: &MemberLedger)
        ensures
            r@ == self@.members,
            self.wf() ==> r.wf(),
    {
        &self.members
    }

    /// The table of tiers.
    pub fn tiers(&self) -> (r: &TierTable)
        ensures
            r@ == self@.tiers,
    {
        &self.tiers
    }
}

} // verus!
