use supply_chain::registrar::{
    member_delegate_type, org_attribute_name, DispatchError, EnsureOrg, Error, Event,
    IdentityRecord, Module,
};
use supply_chain::system::Origin;

const NORTHWIND: u64 = 100;
const ACME: u64 = 200;
const ALICE: u64 = 1;
const BOB: u64 = 2;

#[test]
fn registrar_names() {
    assert_eq!(org_attribute_name(), b"Org".to_vec());
    assert_eq!(member_delegate_type(), b"OrgMember".to_vec());
}

#[test]
fn organization_is_created_once_per_owner() {
    let mut registrar = Module::new();
    assert_eq!(registrar.organizations(), Vec::<u64>::new());
    assert_eq!(
        registrar.create_org(&NORTHWIND, b"Northwind".to_vec()),
        Ok(IdentityRecord::Attribute(NORTHWIND, NORTHWIND, b"Org".to_vec(), b"Northwind".to_vec()))
    );
    assert!(registrar.create_org(&ACME, b"Acme".to_vec()).is_ok());
    assert_eq!(registrar.organizations(), vec![NORTHWIND, ACME]);
    let before = registrar.clone();
    assert_eq!(registrar.create_org(&NORTHWIND, b"Again".to_vec()), Err(Error::OrganizationExists));
    assert_eq!(registrar, before);
}

#[test]
fn members_are_added_once_and_only_to_organizations() {
    let mut registrar = Module::new();
    let before = registrar.clone();
    assert_eq!(registrar.add_to_org(&NORTHWIND, &ALICE), Err(Error::InvalidOrganization));
    assert_eq!(registrar, before);

    registrar.create_org(&NORTHWIND, b"Northwind".to_vec()).unwrap();
    registrar.create_org(&ACME, b"Acme".to_vec()).unwrap();
    assert_eq!(
        registrar.add_to_org(&NORTHWIND, &ALICE),
        Ok(IdentityRecord::Delegate(NORTHWIND, NORTHWIND, ALICE, b"OrgMember".to_vec()))
    );
    assert!(registrar.add_to_org(&NORTHWIND, &BOB).is_ok());
    assert!(registrar.add_to_org(&ACME, &ALICE).is_ok());
    assert_eq!(registrar.members_of(&NORTHWIND), vec![ALICE, BOB]);
    assert_eq!(registrar.members_of(&ACME), vec![ALICE]);
    assert_eq!(registrar.members_of(&ALICE), Vec::<u64>::new());

    let before = registrar.clone();
    assert_eq!(registrar.add_to_org(&NORTHWIND, &ALICE), Err(Error::MemberOfOrganization));
    assert_eq!(registrar, before);
}

#[test]
fn calls_need_a_signature() {
    let mut registrar = Module::new();
    let before = registrar.clone();
    assert_eq!(
        registrar.create_organization(Origin::Unsigned, b"x".to_vec()),
        Err(DispatchError::BadOrigin)
    );
    assert_eq!(registrar.add_to_organization(Origin::Root, ALICE), Err(DispatchError::BadOrigin));
    assert_eq!(registrar, before);

    assert_eq!(
        registrar.create_organization(Origin::Signed(NORTHWIND), b"Northwind".to_vec()),
        Ok((
            IdentityRecord::Attribute(NORTHWIND, NORTHWIND, b"Org".to_vec(), b"Northwind".to_vec()),
            Event::CreatedOrganization(NORTHWIND, b"Northwind".to_vec())
        ))
    );
    assert_eq!(
        registrar.create_organization(Origin::Signed(NORTHWIND), b"Northwind".to_vec()),
        Err(DispatchError::Module(Error::OrganizationExists))
    );
    assert_eq!(
        registrar.add_to_organization(Origin::Signed(NORTHWIND), ALICE),
        Ok((
            IdentityRecord::Delegate(NORTHWIND, NORTHWIND, ALICE, b"OrgMember".to_vec()),
            Event::AddedToOrganization(NORTHWIND, b"OrgMember".to_vec())
        ))
    );
    assert_eq!(
        registrar.add_to_organization(Origin::Signed(NORTHWIND), ALICE),
        Err(DispatchError::Module(Error::MemberOfOrganization))
    );
    assert_eq!(
        registrar.add_to_organization(Origin::Signed(ACME), ALICE),
        Err(DispatchError::Module(Error::InvalidOrganization))
    );
}

#[test]
fn membership_asks_each_organization_up_to_the_first_yes() {
    let mut registrar = Module::new();
    for org in [10, 20, 30] {
        registrar.create_org(&org, vec![]).unwrap();
    }
    let asked = std::cell::RefCell::new(vec![]);
    let delegate_of_20 = |org: u64, account: u64| {
        asked.borrow_mut().push((org, account));
        org == 20 && account == ALICE
    };
    assert!(registrar.part_of_organization(&ALICE, &delegate_of_20));
    assert_eq!(*asked.borrow(), vec![(10, ALICE), (20, ALICE)]);
    asked.borrow_mut().clear();
    assert!(!registrar.part_of_organization(&BOB, &delegate_of_20));
    assert_eq!(*asked.borrow(), vec![(10, BOB), (20, BOB), (30, BOB)]);
    assert!(!Module::new().part_of_organization(&ALICE, &|_, _| true));
}

#[test]
fn origin_check_lets_members_in() {
    let mut registrar = Module::new();
    registrar.create_org(&NORTHWIND, vec![]).unwrap();
    let is_delegate = |org: u64, account: u64| org == NORTHWIND && account == ALICE;
    assert_eq!(EnsureOrg::try_origin(&registrar, Origin::Signed(ALICE), &is_delegate), Ok(ALICE));
    assert_eq!(
        EnsureOrg::try_origin(&registrar, Origin::Signed(BOB), &is_delegate),
        Err(Origin::Signed(BOB))
    );
    assert_eq!(EnsureOrg::try_origin(&registrar, Origin::Root, &is_delegate), Err(Origin::Root));
    assert_eq!(EnsureOrg::try_origin(&registrar, Origin::Unsigned, &is_delegate), Err(Origin::Unsigned));
    assert_eq!(EnsureOrg::successful_origin(), Origin::Signed(0));
}
