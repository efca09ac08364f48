//! Two-step transfer of an owner role: the owner nominates a pending owner,
//! who then accepts.

use vstd::prelude::*;

verus! {

/// An owner and, while a transfer is under way, the nominated next owner.
#[derive(Debug)]
pub struct Ownership {
    pub owner: String,
    pub pending_owner: Option<String>,
}

impl Clone for Ownership {
    fn clone(&self) -> (r: Self)
        ensures
            r == *self,
    {
        Ownership {
            owner: self.owner.clone(),
            pending_owner: match &self.pending_owner {
                Some(p) => Some(p.clone()),
                None => None,
            },
        }
    }
}

/// The view of an optional address.
pub open spec fn opt_view(o: Option<String>) -> Option<Seq<char>> {
    match o {
        Some(s) => Some(s@),
        None => None,
    }
}

impl Ownership {
    /// `owner`'s ownership with no transfer under way.
    pub fn new(owner: String) -> (r: Self)
        ensures
            r.owner == owner,
            r.pending_owner is None,
    {
        Ownership { owner: owner, pending_owner: None }
    }

    /// Whether `owner` is the current owner.
    pub fn validate(&self, owner: &String) -> (r: bool)
        ensures
            r == (self.owner@ == owner@),
    {
        if self.owner == *owner {
            true
        } else {
            false
        }
    }

    /// `pending_owner` takes over if it is the nominated owner; returns whether it did.
    pub fn accept_ownership(&mut self, pending_owner: &String) -> (r: bool)
        ensures
            (r, *final(self)) == accept_spec(*old(self), pending_owner@),
    {
        let matches = match &self.pending_owner {
            Some(p) => *p == *pending_owner,
            None => false,
        };
        if matches {
            self.owner = self.pending_owner.take().unwrap();
            true
        } else {
            false
        }
    }
}

/// The outcome of `caller` accepting: whether it took over, and the ownership after.
pub open spec fn accept_spec(o: Ownership, caller: Seq<char>) -> (bool, Ownership) {
    if opt_view(o.pending_owner) == Some(caller) {
        (true, Ownership { owner: o.pending_owner->0, pending_owner: None })
    } else {
        (false, o)
    }
}

/// The owner's nomination of `next` as pending owner.
pub open spec fn nominate_spec(o: Ownership, next: String) -> Ownership {
    Ownership { pending_owner: Some(next), ..o }
}

/// A nomination followed by the nominee's acceptance hands the role over: the
/// nominee becomes the owner and no transfer is pending any more.
pub proof fn lemma_nominate_then_accept(o: Ownership, next: String)
    ensures
        accept_spec(nominate_spec(o, next), next@) == (true, Ownership { owner: next, pending_owner: None }),
{
}

/// Only the nominee can accept: anyone else leaves the ownership unchanged.
pub proof fn lemma_only_nominee_accepts(o: Ownership, next: String, caller: Seq<char>)
    requires
        caller != next@,
    ensures
        accept_spec(nominate_spec(o, next), caller) == (false, nominate_spec(o, next)),
{
}

} // verus!
