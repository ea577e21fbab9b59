//! Who may change the ledger.

use vstd::prelude::*;
use crate::error::AuthorizationError;
use crate::identity::Identity;

verus! {

/// The set of managers.
///
/// Managers are the identities allowed to change balances and tiers. The
/// registry itself does not decide who may add or remove a manager; that is
/// the owner's right, which the contract checks.
pub struct AuthorizationRegistry {
    managers: Vec<Identity>,
}

impl View for AuthorizationRegistry {
    type V = Set<Identity>;

    closed spec fn view(&self) -> Set<Identity> {
        self.managers@.to_set()
    }
}

impl AuthorizationRegistry {
    /// No manager is stored twice.
    pub closed spec fn wf(&self) -> bool {
        self.managers@.no_duplicates()
    }

    /// The registry with `caller` as its only manager.
    pub fn initialize(caller: Identity) -> (r: AuthorizationRegistry)
        ensures
            r.wf(),
            r@ == Set::<Identity>::empty().insert(caller),
    {
        let mut managers: Vec<Identity> = Vec::new();
        proof {
            managers@.lemma_push_to_set_commute(caller);
            assert(managers@.to_set() =~= Set::<Identity>::empty());
        }
        managers.push(caller);
        AuthorizationRegistry { managers }
    }

    /// The registry that holds exactly the identities listed in `managers`.
    pub fn from_list(managers: &Vec<Identity>) -> (r: AuthorizationRegistry)
        ensures
            r.wf(),
            r@ == managers@.to_set(),
    {
        let mut r = AuthorizationRegistry { managers: Vec::new() };
        let mut i: usize = 0;
        assert(managers@.take(0).to_set() =~= r@);
        while i < managers.len()
            invariant
                i <= managers@.len(),
                r.wf(),
                r@ == managers@.take(i as int).to_set(),
            decreases managers@.len() - i,
        {
            proof {
                managers@.take(i as int).lemma_push_to_set_commute(managers@[i as int]);
                assert(managers@.take(i + 1) =~= managers@.take(i as int).push(managers@[i as int]));
            }
            r.add_manager(managers[i]);
            i = i + 1;
        }
        assert(managers@.take(i as int) =~= managers@);
        r
    }

    /// Where `identity` is stored, if it is a manager.
    fn position(&self, identity: &Identity) -> (r: Option<usize>)
        ensures
            match r {
                Some(i) => i < self.managers@.len() && self.managers@[i as int] == *identity,
                None => !self@.contains(*identity),
            },
    {
        let mut i: usize = 0;
        while i < self.managers.len()
            invariant
                i <= self.managers@.len(),
                forall|j: int| 0 <= j < i ==> self.managers@[j] != *identity,
            decreases self.managers@.len() - i,
        {
            if self.managers[i] == *identity {
                return Some(i);
            }
            i = i + 1;
        }
        None
    }

    /// Whether `identity` is a manager.
    pub fn is_manager(&self, identity: &Identity) -> (r: bool)
        ensures
            r == self@.contains(*identity),
    {
        self.position(identity).is_some()
    }

    /// Refuses a caller who is not a manager.
    pub fn require_manager(&self, caller: &Identity) -> (r: Result<(), AuthorizationError>)
        ensures
            r == if self@.contains(*caller) {
                Ok::<(), AuthorizationError>(())
            } else {
                Err::<(), AuthorizationError>(AuthorizationError::NotManager)
            },
    {
        if self.is_manager(caller) {
            Ok(())
        } else {
            Err(AuthorizationError::NotManager)
        }
    }

    /// Makes `identity` a manager; nothing changes if it already is one.
    pub fn add_manager(&mut self, identity: Identity)
        requires
            old(self).wf(),
        ensures
            final(self).wf(),
            final(self)@ == old(self)@.insert(identity),
    {
        if self.position(&identity).is_none() {
            proof {
                self.managers@.lemma_push_to_set_commute(identity);
            }
            self.managers.push(identity);
        } else {
            assert(self@.insert(identity) =~= self@);
        }
    }

    /// Takes `identity` out of the managers; nothing changes if it is not one.
    pub fn remove_manager(&mut self, identity: &Identity)
        requires
            old(self).wf(),
        ensures
            final(self).wf(),
            final(self)@ == old(self)@.remove(*identity),
    {
        match self.position(identity) {
            Some(i) => {
                let ghost before = self.managers@;
                self.managers.swap_remove(i);
                proof {
                    let after = self.managers@;
                    let last: int = before.len() - 1;
                    assert forall|y: Identity|
                        after.contains(y) <==> before.contains(y) && y != *identity by {
                        if after.contains(y) {
                            let k: int = choose|k: int| 0 <= k < after.len() && after[k] == y;
                            if k == i {
                                assert(before[last] == y);
                            } else {
                                assert(before[k] == y);
                            }
                        }
                        if before.contains(y) && y != *identity {
                            let k: int = choose|k: int| 0 <= k < before.len() && before[k] == y;
                            if k == last {
                                assert(after[i as int] == y);
                            } else {
                                assert(after[k] == y);
                            }
                        }
                    }
                    assert(after.to_set() =~= before.to_set().remove(*identity));
                }
            },
            None => {
                assert(self@.remove(*identity) =~= self@);
            },
        }
    }

    /// The managers, each once, in no particular order.
    pub fn list_managers(&self) -> (r: Vec<Identity>)
        requires
            self.wf(),
        ensures
            r@.no_duplicates(),
            r@.to_set() == self@,
    {
        let r: Vec<Identity> = self.managers.clone();
        assert(r@ =~= self.managers@);
        r
    }
}

} // verus!
