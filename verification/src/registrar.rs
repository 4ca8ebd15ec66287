//! The registrar of the consortium: the organizations, identified by the
//! account that created them, and the accounts that belong to each.

use vstd::prelude::*;
use crate::system::{AccountId, Origin, ensure_signed};
use crate::table::{
    assoc_map, distinct_keys, lemma_assoc_absent, lemma_assoc_at, lemma_assoc_push,
    lemma_assoc_update, lemma_distinct_push,
};

verus! {

/// Why a call was refused.
#[derive(Clone, Copy, PartialEq, Eq, Debug, Structural)]
pub enum Error {
    /// The organization exists already.
    OrganizationExists,
    /// There is no such organization.
    InvalidOrganization,
    /// The account belongs to the organization already.
    MemberOfOrganization,
}

/// Why a call was refused.
pub type DispatchError = crate::system::DispatchError<Error>;

/// What a call announces to the outside.
#[derive(Clone, PartialEq, Eq, Debug)]
pub enum Event {
    /// An organization was created: its creator, its name.
    CreatedOrganization(AccountId, Vec<u8>),
    /// An account was added to an organization: the organization, the kind
    /// of membership.
    AddedToOrganization(AccountId, Vec<u8>),
}

pub type RawEvent = Event;

/// What is to be recorded with the identity registry once the registrar has
/// accepted a call.
#[derive(Clone, PartialEq, Eq, Debug)]
pub enum IdentityRecord {
    /// An attribute of an identity: the identity, who states it, its name,
    /// its value. It does not expire.
    Attribute(AccountId, AccountId, Vec<u8>, Vec<u8>),
    /// A delegate of an identity: the identity, who states it, the delegate,
    /// the kind of delegate. It does not expire.
    Delegate(AccountId, AccountId, AccountId, Vec<u8>),
}

pub enum IdentityRecordView {
    Attribute(AccountId, AccountId, Seq<u8>, Seq<u8>),
    Delegate(AccountId, AccountId, AccountId, Seq<u8>),
}

impl View for IdentityRecord {
    type V = IdentityRecordView;

    open spec fn view(&self) -> IdentityRecordView {
        match *self {
            IdentityRecord::Attribute(identity, issuer, name, value) => {
                IdentityRecordView::Attribute(identity, issuer, name@, value@)
            },
            IdentityRecord::Delegate(identity, issuer, delegate, kind) => {
                IdentityRecordView::Delegate(identity, issuer, delegate, kind@)
            },
        }
    }
}

/// The name of the attribute that holds an organization's name: `Org`.
pub open spec fn org_attribute() -> Seq<u8> {
    seq![79u8, 114u8, 103u8]
}

/// The kind of delegate that a member of an organization is: `OrgMember`.
pub open spec fn member_delegate() -> Seq<u8> {
    seq![79u8, 114u8, 103u8, 77u8, 101u8, 109u8, 98u8, 101u8, 114u8]
}

/// The name of the attribute that holds an organization's name.
pub fn org_attribute_name() -> (name: Vec<u8>)
    ensures
        name@ == org_attribute(),
{
    let name = vec![79u8, 114u8, 103u8];
    assert(name@ =~= org_attribute());
    name
}

/// The kind of delegate that a member of an organization is.
pub fn member_delegate_type() -> (kind: Vec<u8>)
    ensures
        kind@ == member_delegate(),
{
    let kind = vec![79u8, 114u8, 103u8, 77u8, 101u8, 109u8, 98u8, 101u8, 114u8];
    assert(kind@ =~= member_delegate());
    kind
}

/// What the registrar holds. An organization that is missing from
/// `members_of` has no members.
pub struct ModuleView {
    pub organizations: Seq<AccountId>,
    pub members_of: Map<AccountId, Seq<AccountId>>,
}

impl ModuleView {
    /// Nothing registered.
    pub open spec fn empty() -> ModuleView {
        ModuleView { organizations: Seq::empty(), members_of: Map::empty() }
    }

    /// The members of an organization, oldest first.
    pub open spec fn members(self, org: AccountId) -> Seq<AccountId> {
        if self.members_of.dom().contains(org) {
            self.members_of[org]
        } else {
            Seq::empty()
        }
    }

    /// Why an account cannot be added to an organization, if it cannot.
    pub open spec fn add_error(self, org: AccountId, account: AccountId) -> Option<Error> {
        if !self.organizations.contains(org) {
            Some(Error::InvalidOrganization)
        } else if self.members(org).contains(account) {
            Some(Error::MemberOfOrganization)
        } else {
            None
        }
    }

    /// The registrar with one more organization.
    pub open spec fn with_organization(self, owner: AccountId) -> ModuleView {
        ModuleView { organizations: self.organizations.push(owner), ..self }
    }

    /// The registrar with one more member of an organization.
    pub open spec fn with_member(self, org: AccountId, account: AccountId) -> ModuleView {
        ModuleView {
            members_of: self.members_of.insert(org, self.members(org).push(account)),
            ..self
        }
    }
}

#[derive(Clone, PartialEq, Eq, Debug)]
struct MembersEntry {
    org: AccountId,
    members: Vec<AccountId>,
}

spec fn member_pairs(entries: Seq<MembersEntry>) -> Seq<(AccountId, Seq<AccountId>)> {
    Seq::new(entries.len(), |i: int| (entries[i].org, entries[i].members@))
}

/// The registrar's storage.
#[derive(PartialEq, Eq, Debug)]
pub struct Module {
    organizations: Vec<AccountId>,
    members: Vec<MembersEntry>,
}

impl View for Module {
    type V = ModuleView;

    closed spec fn view(&self) -> ModuleView {
        ModuleView {
            organizations: self.organizations@,
            members_of: assoc_map(member_pairs(self.members@)),
        }
    }
}

fn copy_accounts(accounts: &Vec<AccountId>) -> (copy: Vec<AccountId>)
    ensures
        copy@ == accounts@,
{
    let mut copy: Vec<AccountId> = Vec::new();
    let mut i: usize = 0;
    while i < accounts.len()
        invariant
            i <= accounts.len(),
            copy@ == accounts@.subrange(0, i as int),
        decreases accounts.len() - i,
    {
        copy.push(accounts[i]);
        assert(accounts@.subrange(0, i + 1) =~= accounts@.subrange(0, i as int).push(
            accounts@[i as int],
        ));
        i += 1;
    }
    assert(accounts@.subrange(0, accounts@.len() as int) =~= accounts@);
    copy
}

fn position_of(accounts: &Vec<AccountId>, account: AccountId) -> (found: Option<usize>)
    ensures
        found is Some <==> accounts@.contains(account),
        found is Some ==> found->Some_0 < accounts@.len() && accounts@[found->Some_0 as int]
            == account,
{
    let mut i: usize = 0;
    while i < accounts.len()
        invariant
            i <= accounts.len(),
            forall|j: int| 0 <= j < i ==> accounts@[j] != account,
        decreases accounts.len() - i,
    {
        if accounts[i] == account {
            return Some(i);
        }
        i += 1;
    }
    None
}

impl Clone for Module {
    /// A registrar that holds the same.
    fn clone(&self) -> (copy: Self)
        ensures
            copy@ == self@,
    {
        proof {
            use_type_invariant(self);
        }
        let mut members: Vec<MembersEntry> = Vec::new();
        let mut i: usize = 0;
        while i < self.members.len()
            invariant
                i <= self.members.len(),
                members@.len() == i,
                forall|j: int|
                    0 <= j < i ==> members@[j].org == self.members@[j].org && members@[j].members@
                        == self.members@[j].members@,
            decreases self.members.len() - i,
        {
            members.push(
                MembersEntry {
                    org: self.members[i].org,
                    members: copy_accounts(&self.members[i].members),
                },
            );
            i += 1;
        }
        assert(member_pairs(members@) =~= member_pairs(self.members@));
        Module { organizations: copy_accounts(&self.organizations), members }
    }
}

impl Module {
    #[verifier::type_invariant]
    spec fn well_formed(self) -> bool {
        distinct_keys(member_pairs(self.members@))
    }

    /// A registrar that holds nothing.
    pub fn new() -> (module: Module)
        ensures
            module@ == ModuleView::empty(),
    {
        let module = Module { organizations: Vec::new(), members: Vec::new() };
        assert(module@.members_of =~= Map::empty());
        module
    }

    /// The organizations, oldest first.
    pub fn organizations(&self) -> (organizations: Vec<AccountId>)
        ensures
            organizations@ == self@.organizations,
    {
        copy_accounts(&self.organizations)
    }

    fn find_members(&self, org: AccountId) -> (found: Option<usize>)
        ensures
            match found {
                Some(i) => i < self.members@.len() && self.members@[i as int].org == org,
                None => forall|j: int|
                    0 <= j < self.members@.len() ==> (#[trigger] self.members@[j]).org != org,
            },
    {
        let mut i: usize = 0;
        while i < self.members.len()
            invariant
                i <= self.members@.len(),
                forall|j: int| 0 <= j < i ==> (#[trigger] self.members@[j]).org != org,
            decreases self.members@.len() - i,
        {
            if self.members[i].org == org {
                return Some(i);
            }
            i += 1;
        }
        None
    }

    /// The members of an organization, oldest first.
    pub fn members_of(&self, org: &AccountId) -> (members: Vec<AccountId>)
        ensures
            members@ == self@.members(*org),
    {
        proof {
            use_type_invariant(self);
        }
        match self.find_members(*org) {
            Some(i) => {
                proof {
                    lemma_assoc_at(member_pairs(self.members@), i as int);
                }
                copy_accounts(&self.members[i].members)
            },
            None => {
                proof {
                    lemma_assoc_absent(member_pairs(self.members@), *org);
                }
                Vec::new()
            },
        }
    }

    /// Creates the organization of `owner`, unless it exists. What is handed
    /// back is to be recorded with the identity registry: the name of the
    /// organization, as an attribute of its owner.
    pub fn create_org(&mut self, owner: &AccountId, org_name: Vec<u8>) -> (result: Result<
        IdentityRecord,
        Error,
    >)
        ensures
            match result {
                Ok(record) => {
                    &&& !old(self)@.organizations.contains(*owner)
                    &&& final(self)@ == old(self)@.with_organization(*owner)
                    &&& record@ == IdentityRecordView::Attribute(
                        *owner,
                        *owner,
                        org_attribute(),
                        org_name@,
                    )
                },
                Err(e) => {
                    &&& old(self)@.organizations.contains(*owner)
                    &&& e == Error::OrganizationExists
                    &&& final(self)@ == old(self)@
                },
            },
    {
        proof {
            use_type_invariant(&*self);
        }
        if position_of(&self.organizations, *owner).is_some() {
            return Err(Error::OrganizationExists);
        }
        let mut organizations: Vec<AccountId> = Vec::new();
        core::mem::swap(&mut self.organizations, &mut organizations);
        organizations.push(*owner);
        self.organizations = organizations;
        Ok(IdentityRecord::Attribute(*owner, *owner, org_attribute_name(), org_name))
    }

    /// Adds `account` to the organization `org`, if that exists and the
    /// account is not a member yet. What is handed back is to be recorded
    /// with the identity registry: the account, as a delegate of the
    /// organization.
    pub fn add_to_org(&mut self, org: &AccountId, account: &AccountId) -> (result: Result<
        IdentityRecord,
        Error,
    >)
        ensures
            match result {
                Ok(record) => {
                    &&& old(self)@.add_error(*org, *account) is None
                    &&& final(self)@ == old(self)@.with_member(*org, *account)
                    &&& record@ == IdentityRecordView::Delegate(
                        *org,
                        *org,
                        *account,
                        member_delegate(),
                    )
                },
                Err(e) => {
                    &&& old(self)@.add_error(*org, *account) == Some(e)
                    &&& final(self)@ == old(self)@
                },
            },
    {
        proof {
            use_type_invariant(&*self);
        }
        if position_of(&self.organizations, *org).is_none() {
            return Err(Error::InvalidOrganization);
        }
        let ghost before = member_pairs(self.members@);
        let found = self.find_members(*org);
        match found {
            Some(i) => {
                proof {
                    lemma_assoc_at(before, i as int);
                }
                if position_of(&self.members[i].members, *account).is_some() {
                    return Err(Error::MemberOfOrganization);
                }
                let ghost listed = before[i as int].1.push(*account);
                proof {
                    lemma_assoc_update(before, i as int, listed);
                }
                let mut entries: Vec<MembersEntry> = Vec::new();
                core::mem::swap(&mut self.members, &mut entries);
                entries[i].members.push(*account);
                assert(member_pairs(entries@) =~= before.update(i as int, (*org, listed)));
                self.members = entries;
            },
            None => {
                let ghost listed = Seq::<AccountId>::empty().push(*account);
                proof {
                    lemma_assoc_absent(before, *org);
                    lemma_assoc_push(before, *org, listed);
                    lemma_distinct_push(before, *org, listed);
                }
                let mut members: Vec<AccountId> = Vec::new();
                members.push(*account);
                let mut entries: Vec<MembersEntry> = Vec::new();
                core::mem::swap(&mut self.members, &mut entries);
                entries.push(MembersEntry { org: *org, members });
                assert(member_pairs(entries@) =~= before.push((*org, listed)));
                self.members = entries;
            },
        }
        Ok(IdentityRecord::Delegate(*org, *org, *account, member_delegate_type()))
    }

    /// Creates the organization of the caller and names it. The dispatch
    /// origin must be signed.
    pub fn create_organization(&mut self, origin: Origin, org_name: Vec<u8>) -> (result: Result<
        (IdentityRecord, Event),
        DispatchError,
    >)
        ensures
            match result {
                Ok((record, event)) => {
                    &&& origin is Signed
                    &&& !old(self)@.organizations.contains(origin->Signed_0)
                    &&& final(self)@ == old(self)@.with_organization(origin->Signed_0)
                    &&& record@ == IdentityRecordView::Attribute(
                        origin->Signed_0,
                        origin->Signed_0,
                        org_attribute(),
                        org_name@,
                    )
                    &&& event matches Event::CreatedOrganization(who, name) && who
                        == origin->Signed_0 && name@ == org_name@
                },
                Err(e) => {
                    &&& final(self)@ == old(self)@
                    &&& e == if !(origin is Signed) {
                        DispatchError::BadOrigin
                    } else {
                        DispatchError::Module(Error::OrganizationExists)
                    }
                    &&& origin is Signed ==> old(self)@.organizations.contains(origin->Signed_0)
                },
            },
    {
        let who = match ensure_signed::<Error>(origin) {
            Ok(who) => who,
            Err(e) => {
                return Err(e);
            },
        };
        let mut name: Vec<u8> = Vec::new();
        let mut i: usize = 0;
        while i < org_name.len()
            invariant
                i <= org_name.len(),
                name@ == org_name@.subrange(0, i as int),
            decreases org_name.len() - i,
        {
            name.push(org_name[i]);
            assert(org_name@.subrange(0, i + 1) =~= org_name@.subrange(0, i as int).push(
                org_name@[i as int],
            ));
            i += 1;
        }
        assert(org_name@.subrange(0, org_name@.len() as int) =~= org_name@);
        match self.create_org(&who, org_name) {
            Ok(record) => Ok((record, Event::CreatedOrganization(who, name))),
            Err(e) => Err(DispatchError::Module(e)),
        }
    }

    /// Adds an account to the organization of the caller. The dispatch
    /// origin must be signed.
    pub fn add_to_organization(&mut self, origin: Origin, account: AccountId) -> (result: Result<
        (IdentityRecord, Event),
        DispatchError,
    >)
        ensures
            match result {
                Ok((record, event)) => {
                    &&& origin is Signed
                    &&& old(self)@.add_error(origin->Signed_0, account) is None
                    &&& final(self)@ == old(self)@.with_member(origin->Signed_0, account)
                    &&& record@ == IdentityRecordView::Delegate(
                        origin->Signed_0,
                        origin->Signed_0,
                        account,
                        member_delegate(),
                    )
                    &&& event matches Event::AddedToOrganization(who, kind) && who
                        == origin->Signed_0 && kind@ == member_delegate()
                },
                Err(e) => {
                    &&& final(self)@ == old(self)@
                    &&& e == if !(origin is Signed) {
                        DispatchError::BadOrigin
                    } else {
                        DispatchError::Module(old(self)@.add_error(origin->Signed_0, account)->Some_0)
                    }
                    &&& origin is Signed ==> old(self)@.add_error(origin->Signed_0, account)
                        is Some
                },
            },
    {
        let who = match ensure_signed::<Error>(origin) {
            Ok(who) => who,
            Err(e) => {
                return Err(e);
            },
        };
        match self.add_to_org(&who, &account) {
            Ok(record) => Ok((record, Event::AddedToOrganization(who, member_delegate_type()))),
            Err(e) => Err(DispatchError::Module(e)),
        }
    }

    /// Whether an account belongs to an organization: whether, for one of
    /// the organizations, `valid_delegate` says that the account is a
    /// delegate of it. The organizations are asked oldest first, up to the
    /// first that says yes.
    pub fn part_of_organization<F: Fn(AccountId, AccountId) -> bool>(
        &self,
        account: &AccountId,
        valid_delegate: &F,
    ) -> (member: bool)
        requires
            forall|org: AccountId| call_requires(valid_delegate, (org, *account)),
        ensures
            member ==> exists|i: int|
                0 <= i < self@.organizations.len() && call_ensures(
                    valid_delegate,
                    (#[trigger] self@.organizations[i], *account),
                    true,
                ),
            !member ==> forall|i: int|
                0 <= i < self@.organizations.len() ==> call_ensures(
                    valid_delegate,
                    (#[trigger] self@.organizations[i], *account),
                    false,
                ),
    {
        let mut i: usize = 0;
        while i < self.organizations.len()
            invariant
                i <= self.organizations.len(),
                forall|org: AccountId| call_requires(valid_delegate, (org, *account)),
                forall|j: int|
                    0 <= j < i ==> call_ensures(
                        valid_delegate,
                        (#[trigger] self.organizations@[j], *account),
                        false,
                    ),
            decreases self.organizations.len() - i,
        {
            if valid_delegate(self.organizations[i], *account) {
                return true;
            }
            i += 1;
        }
        false
    }
}

/// Lets a call in if a member of the consortium signed it.
pub struct EnsureOrg;

impl EnsureOrg {
    /// The account that signed the call, if it belongs to an organization;
    /// the origin itself otherwise.
    pub fn try_origin<F: Fn(AccountId, AccountId) -> bool>(
        registrar: &Module,
        o: Origin,
        valid_delegate: &F,
    ) -> (checked: Result<AccountId, Origin>)
        requires
            forall|org: AccountId, account: AccountId|
                call_requires(valid_delegate, (org, account)),
        ensures
            match checked {
                Ok(who) => o == Origin::Signed(who) && exists|i: int|
                    0 <= i < registrar@.organizations.len() && call_ensures(
                        valid_delegate,
                        (#[trigger] registrar@.organizations[i], who),
                        true,
                    ),
                Err(origin) => origin == o && (o is Signed ==> forall|i: int|
                    0 <= i < registrar@.organizations.len() ==> call_ensures(
                        valid_delegate,
                        (#[trigger] registrar@.organizations[i], o->Signed_0),
                        false,
                    )),
            },
    {
        match o {
            Origin::Signed(who) => {
                if registrar.part_of_organization(&who, valid_delegate) {
                    Ok(who)
                } else {
                    Err(o)
                }
            },
            _ => Err(o),
        }
    }

    /// An origin that the check lets in once its account is a member.
    pub fn successful_origin() -> (origin: Origin)
        ensures
            origin == Origin::Signed(0),
    {
        Origin::Signed(0)
    }
}

/// An organization can be created once: after it was, creating it again is
/// refused, and it stays in the list whatever members are added.
pub proof fn organization_is_created_once(state: ModuleView, owner: AccountId)
    ensures
        state.with_organization(owner).organizations.contains(owner),
        forall|org: AccountId, account: AccountId|
            state.with_organization(owner).with_member(org, account).organizations.contains(owner),
{
    let created = state.with_organization(owner);
    assert(created.organizations[state.organizations.len() as int] == owner);
}

/// An account can be added to an organization once: after it was, adding it
/// again is refused because it is a member.
pub proof fn member_is_added_once(state: ModuleView, org: AccountId, account: AccountId)
    requires
        state.add_error(org, account) is None,
    ensures
        state.with_member(org, account).members(org).last() == account,
        state.with_member(org, account).add_error(org, account) == Some(
            Error::MemberOfOrganization,
        ),
{
    let added = state.with_member(org, account);
    assert(added.members(org)[state.members(org).len() as int] == account);
}

} // verus!
