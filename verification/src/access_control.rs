//! Role-based access control: accounts hold roles, and each role has an admin
//! role whose holders may grant and revoke it.

use crate::assoc_map::AssocMap;
use crate::errors::StdError;
use vstd::prelude::*;

verus! {

/// The admin role of every role that has none of its own.
pub const DEFAULT_ADMIN_ROLE: &'static str = "__DEFAULT_ADMIN__";

/// Why an access check failed.
#[derive(Debug)]
pub enum AccessControlError {
    Std(StdError),
    UnauthorizedAccount { account: String, needed_role: String },
}

/// The role assignments and the admin role of each role.
pub struct AccessControl {
    roles: AssocMap<(String, String), ()>,
    admin_roles: AssocMap<String, String>,
}

/// The admin role of `role`: its own if it has one, the default admin role otherwise.
pub open spec fn role_admin_spec(admin_roles: Map<Seq<char>, Seq<char>>, role: Seq<char>) -> Seq<char> {
    if admin_roles.contains_key(role) {
        admin_roles[role]
    } else {
        DEFAULT_ADMIN_ROLE@
    }
}

impl AccessControl {
    /// The (role, account) pairs granted.
    pub closed spec fn role_set(&self) -> Set<(Seq<char>, Seq<char>)> {
        self.roles@.dom()
    }

    /// The admin role set for each role that has one.
    pub closed spec fn admin_map(&self) -> Map<Seq<char>, Seq<char>> {
        self.admin_roles@.map_values(|s: String| s@)
    }

    /// The internal maps are well formed.
    pub closed spec fn wf(&self) -> bool {
        self.roles.wf() && self.admin_roles.wf()
    }

    /// Whether `account` holds `role`.
    pub open spec fn has_role_spec(&self, role: Seq<char>, account: Seq<char>) -> bool {
        self.role_set().contains((role, account))
    }

    /// No roles granted and no admin roles set.
    pub fn new() -> (r: AccessControl)
        ensures
            r.wf(),
            r.role_set() == Set::<(Seq<char>, Seq<char>)>::empty(),
            r.admin_map() == Map::<Seq<char>, Seq<char>>::empty(),
    {
        let r = AccessControl { roles: AssocMap::new(), admin_roles: AssocMap::new() };
        assert(r.roles@.dom() =~= Set::empty());
        assert(r.admin_roles@.map_values(|s: String| s@) =~= Map::empty());
        r
    }

    /// `admin` granting `role` to `account`: allowed to holders of the admin role of `role`.
    pub fn grant_role(&mut self, admin: &String, role: &String, account: &String) -> (r: Result<(), AccessControlError>)
        requires
            old(self).wf(),
        ensures
            final(self).wf(),
            final(self).admin_map() == old(self).admin_map(),
            r is Ok <==> old(self).has_role_spec(role_admin_spec(old(self).admin_map(), role@), admin@),
            r is Ok ==> final(self).role_set() == old(self).role_set().insert((role@, account@)),
            r matches Err(e) ==> *final(self) == *old(self) && e is UnauthorizedAccount
                && e->needed_role@ == role_admin_spec(old(self).admin_map(), role@) && e->account == *admin,
    {
        match self.check_is_admin(role, admin) {
            Ok(()) => {},
            Err(e) => return Err(e),
        }
        self._grant_role(role, account);
        Ok(())
    }

    /// `admin` revoking `role` from `account`: allowed to holders of the admin role of `role`.
    pub fn revoke_role(&mut self, admin: &String, role: &String, account: &String) -> (r: Result<(), AccessControlError>)
        requires
            old(self).wf(),
        ensures
            final(self).wf(),
            final(self).admin_map() == old(self).admin_map(),
            r is Ok <==> old(self).has_role_spec(role_admin_spec(old(self).admin_map(), role@), admin@),
            r is Ok ==> final(self).role_set() == old(self).role_set().remove((role@, account@)),
            r matches Err(e) ==> *final(self) == *old(self) && e is UnauthorizedAccount
                && e->needed_role@ == role_admin_spec(old(self).admin_map(), role@) && e->account == *admin,
    {
        match self.check_is_admin(role, admin) {
            Ok(()) => {},
            Err(e) => return Err(e),
        }
        self._revoke_role(role, account);
        Ok(())
    }

    /// Makes `admin` the admin role of `role`.
    pub fn set_role_admin(&mut self, role: &String, admin: &String)
        requires
            old(self).wf(),
        ensures
            final(self).wf(),
            final(self).role_set() == old(self).role_set(),
            final(self).admin_map() == old(self).admin_map().insert(role@, admin@),
    {
        self.admin_roles.insert(role.clone(), admin.clone());
        assert(self.admin_roles@.map_values(|s: String| s@) =~= old(self).admin_roles@.map_values(
            |s: String| s@,
        ).insert(role@, admin@));
    }

    /// Succeeds when `admin` holds the admin role of `role`.
    pub fn check_is_admin(&self, role: &String, admin: &String) -> (r: Result<(), AccessControlError>)
        requires
            self.wf(),
        ensures
            r is Ok <==> self.has_role_spec(role_admin_spec(self.admin_map(), role@), admin@),
            r matches Err(e) ==> e is UnauthorizedAccount && e->needed_role@ == role_admin_spec(
                self.admin_map(),
                role@,
            ) && e->account == *admin,
    {
        let admin_role = self.get_role_admin(role);
        self.check_role(&admin_role, admin)
    }

    /// Succeeds when `account` holds `role`.
    pub fn check_role(&self, role: &String, account: &String) -> (r: Result<(), AccessControlError>)
        requires
            self.wf(),
        ensures
            r is Ok <==> self.has_role_spec(role@, account@),
            r matches Err(e) ==> e is UnauthorizedAccount && e->needed_role@ == role@ && e->account == *account,
    {
        if self.has_role(role, account) {
            Ok(())
        } else {
            Err(AccessControlError::UnauthorizedAccount { account: account.clone(), needed_role: role.clone() })
        }
    }

    /// The admin role of `role`.
    pub fn get_role_admin(&self, role: &String) -> (r: String)
        requires
            self.wf(),
        ensures
            r@ == role_admin_spec(self.admin_map(), role@),
    {
        match self.admin_roles.get(role) {
            Some(admin_role) => admin_role.clone(),
            None => String::from_str(DEFAULT_ADMIN_ROLE),
        }
    }

    /// Whether `account` holds `role`.
    pub fn has_role(&self, role: &String, account: &String) -> (r: bool)
        requires
            self.wf(),
        ensures
            r == self.has_role_spec(role@, account@),
    {
        self.roles.contains_key(&(role.clone(), account.clone()))
    }

    /// Grants `role` to `account` without checks; returns whether it was newly granted.
    pub fn _grant_role(&mut self, role: &String, account: &String) -> (r: bool)
        requires
            old(self).wf(),
        ensures
            final(self).wf(),
            r == !old(self).has_role_spec(role@, account@),
            final(self).role_set() == old(self).role_set().insert((role@, account@)),
            final(self).admin_map() == old(self).admin_map(),
            !r ==> *final(self) == *old(self),
    {
        if self.has_role(role, account) {
            assert(old(self).role_set().insert((role@, account@)) =~= old(self).role_set());
            false
        } else {
            self.roles.insert((role.clone(), account.clone()), ());
            assert(self.roles@.dom() =~= old(self).roles@.dom().insert((role@, account@)));
            true
        }
    }

    /// Revokes `role` from `account` without checks; returns whether it was held.
    pub fn _revoke_role(&mut self, role: &String, account: &String) -> (r: bool)
        requires
            old(self).wf(),
        ensures
            final(self).wf(),
            r == old(self).has_role_spec(role@, account@),
            final(self).role_set() == old(self).role_set().remove((role@, account@)),
            final(self).admin_map() == old(self).admin_map(),
            !r ==> *final(self) == *old(self),
    {
        if !self.has_role(role, account) {
            assert(old(self).role_set().remove((role@, account@)) =~= old(self).role_set());
            false
        } else {
            let _ = self.roles.remove(&(role.clone(), account.clone()));
            assert(self.roles@.dom() =~= old(self).roles@.dom().remove((role@, account@)));
            true
        }
    }

    /// The granted (role, account) pairs, for writing them out.
    pub fn role_entries(&self) -> (r: &Vec<((String, String), ())>)
        requires
            self.wf(),
        ensures
            forall|i: int| 0 <= i < r@.len() ==> #[trigger] self.role_set().contains(r@[i].0@),
            forall|p: (Seq<char>, Seq<char>)| #[trigger] self.role_set().contains(p)
                ==> exists|i: int| 0 <= i < r@.len() && r@[i].0@ == p,
    {
        let r = self.roles.entries();
        assert forall|i: int| 0 <= i < r@.len() implies #[trigger] self.role_set().contains(r@[i].0@) by {
            let _ = r@[i];
        }
        r
    }

    /// The (role, admin role) pairs set, for writing them out.
    pub fn admin_role_entries(&self) -> (r: &Vec<(String, String)>)
        requires
            self.wf(),
        ensures
            forall|i: int| #![trigger r@[i]] 0 <= i < r@.len() ==> self.admin_map().contains_key(r@[i].0@)
                && self.admin_map()[r@[i].0@] == r@[i].1@,
            forall|k: Seq<char>| #[trigger] self.admin_map().contains_key(k)
                ==> exists|i: int| 0 <= i < r@.len() && r@[i].0@ == k,
    {
        let r = self.admin_roles.entries();
        assert forall|k: Seq<char>| #[trigger] self.admin_map().contains_key(k)
            implies exists|i: int| 0 <= i < r@.len() && r@[i].0@ == k by {
            assert(self.admin_roles@.contains_key(k));
        }
        r
    }
}

/// Granting a role and then asking for it answers yes, and revoking it then
/// answers no; other pairs are untouched by either.
pub proof fn lemma_grant_then_revoke(ac: AccessControl, role: Seq<char>, account: Seq<char>, other: (Seq<char>, Seq<char>))
    requires
        other != (role, account),
    ensures
        ac.role_set().insert((role, account)).contains((role, account)),
        !ac.role_set().insert((role, account)).remove((role, account)).contains((role, account)),
        ac.role_set().insert((role, account)).contains(other) == ac.role_set().contains(other),
        ac.role_set().remove((role, account)).contains(other) == ac.role_set().contains(other),
{
}

/// A role with no admin role of its own is administered by the default admin role.
pub proof fn lemma_default_admin(admin_roles: Map<Seq<char>, Seq<char>>, role: Seq<char>)
    requires
        !admin_roles.contains_key(role),
    ensures
        role_admin_spec(admin_roles, role) == DEFAULT_ADMIN_ROLE@,
{
}

} // verus!
