//! The registry of products: master data of trade items, registered once by
//! their owner and looked up by identifier.

use vstd::prelude::*;
use crate::system::{AccountId, Moment, Origin, admitted, ensure_admitted};
use crate::table::{
    assoc_map, copy_bytes, copy_ids, distinct_keys, ids_view, lemma_assoc_absent, lemma_assoc_at,
    lemma_assoc_push, lemma_assoc_update, lemma_distinct_push, same_bytes,
};

verus! {

/// Longest product identifier, in bytes.
pub const PRODUCT_ID_MAX_LENGTH: usize = 14;

/// Longest name of a property, in bytes.
pub const PRODUCT_PROP_NAME_MAX_LENGTH: usize = 10;

/// Longest value of a property, in bytes.
pub const PRODUCT_PROP_VALUE_MAX_LENGTH: usize = 20;

/// Largest number of properties of one product.
pub const PRODUCT_MAX_PROPS: usize = 3;

pub type ProductId = Vec<u8>;

pub type PropName = Vec<u8>;

pub type PropValue = Vec<u8>;

/// A name and a value that describe a product.
#[derive(Clone, PartialEq, Eq, Debug)]
pub struct ProductProperty {
    name: PropName,
    value: PropValue,
}

pub struct ProductPropertyView {
    pub name: Seq<u8>,
    pub value: Seq<u8>,
}

impl View for ProductProperty {
    type V = ProductPropertyView;

    closed spec fn view(&self) -> ProductPropertyView {
        ProductPropertyView { name: self.name@, value: self.value@ }
    }
}

impl ProductProperty {
    pub fn new(name: &[u8], value: &[u8]) -> (property: Self)
        ensures
            property@ == (ProductPropertyView { name: name@, value: value@ }),
    {
        Self { name: copy_bytes(name), value: copy_bytes(value) }
    }

    pub fn name(&self) -> (name: &[u8])
        ensures
            name@ == self@.name,
    {
        self.name.as_slice()
    }

    pub fn value(&self) -> (value: &[u8])
        ensures
            value@ == self@.value,
    {
        self.value.as_slice()
    }

    /// A property with the same contents.
    pub fn duplicate(&self) -> (copy: Self)
        ensures
            copy@ == self@,
    {
        Self::new(self.name(), self.value())
    }
}

/// The values of a list of properties, in order.
pub open spec fn props_view(props: Seq<ProductProperty>) -> Seq<ProductPropertyView> {
    Seq::new(props.len(), |i: int| props[i]@)
}

/// The values of the properties given with a product, if any were given.
pub open spec fn props_given(props: Option<Vec<ProductProperty>>) -> Option<
    Seq<ProductPropertyView>,
> {
    match props {
        Some(list) => Some(props_view(list@)),
        None => None,
    }
}

/// Master data of a trade item.
#[derive(Clone, PartialEq, Eq, Debug)]
pub struct Product {
    pub id: ProductId,
    pub owner: AccountId,
    pub props: Option<Vec<ProductProperty>>,
    pub registered: Moment,
}

pub struct ProductView {
    pub id: Seq<u8>,
    pub owner: AccountId,
    pub props: Option<Seq<ProductPropertyView>>,
    pub registered: Moment,
}

impl View for Product {
    type V = ProductView;

    open spec fn view(&self) -> ProductView {
        ProductView {
            id: self.id@,
            owner: self.owner,
            props: props_given(self.props),
            registered: self.registered,
        }
    }
}

fn copy_props(props: &Vec<ProductProperty>) -> (copy: Vec<ProductProperty>)
    ensures
        props_view(copy@) == props_view(props@),
{
    let mut copy: Vec<ProductProperty> = Vec::new();
    let mut i: usize = 0;
    while i < props.len()
        invariant
            i <= props.len(),
            copy@.len() == i,
            forall|j: int| 0 <= j < i ==> copy@[j]@ == props@[j]@,
        decreases props.len() - i,
    {
        copy.push(props[i].duplicate());
        i += 1;
    }
    assert(props_view(copy@) =~= props_view(props@));
    copy
}

impl Product {
    /// A product with the same contents.
    pub fn duplicate(&self) -> (copy: Self)
        ensures
            copy@ == self@,
    {
        Product {
            id: copy_bytes(self.id.as_slice()),
            owner: self.owner,
            props: match &self.props {
                Some(list) => Some(copy_props(list)),
                None => None,
            },
            registered: self.registered,
        }
    }
}

/// Why a registration was refused.
#[derive(Clone, Copy, PartialEq, Eq, Debug, Structural)]
pub enum Error {
    ProductIdMissing,
    ProductIdTooLong,
    ProductIdExists,
    ProductTooManyProps,
    ProductInvalidPropName,
    ProductInvalidPropValue,
}

/// Why a call was refused.
pub type DispatchError = crate::system::DispatchError<Error>;

/// What a registration announces to the outside.
#[derive(Clone, PartialEq, Eq, Debug)]
pub enum Event {
    /// A product was registered: the caller, the product, its owner.
    ProductRegistered(AccountId, ProductId, AccountId),
}

pub type RawEvent = Event;

pub enum EventView {
    ProductRegistered(AccountId, Seq<u8>, AccountId),
}

impl View for Event {
    type V = EventView;

    open spec fn view(&self) -> EventView {
        match *self {
            Event::ProductRegistered(who, id, owner) => EventView::ProductRegistered(
                who,
                id@,
                owner,
            ),
        }
    }
}

/// What is wrong with a product identifier, if anything: it is empty, or
/// longer than `PRODUCT_ID_MAX_LENGTH`.
pub open spec fn product_id_error(id: Seq<u8>) -> Option<Error> {
    if id.len() == 0 {
        Some(Error::ProductIdMissing)
    } else if id.len() > PRODUCT_ID_MAX_LENGTH {
        Some(Error::ProductIdTooLong)
    } else {
        None
    }
}

/// What is wrong with one property, if anything: its name is too long, or
/// else its value is.
pub open spec fn prop_error(prop: ProductPropertyView) -> Option<Error> {
    if prop.name.len() > PRODUCT_PROP_NAME_MAX_LENGTH {
        Some(Error::ProductInvalidPropName)
    } else if prop.value.len() > PRODUCT_PROP_VALUE_MAX_LENGTH {
        Some(Error::ProductInvalidPropValue)
    } else {
        None
    }
}

/// What is wrong with the first faulty property among the first `upto`, if
/// one of them is faulty.
pub open spec fn first_prop_error(props: Seq<ProductPropertyView>, upto: nat) -> Option<Error>
    decreases upto,
{
    if upto == 0 {
        None
    } else {
        match first_prop_error(props, (upto - 1) as nat) {
            Some(e) => Some(e),
            None => prop_error(props[upto - 1]),
        }
    }
}

/// What is wrong with the properties given with a product, if anything:
/// there are more than `PRODUCT_MAX_PROPS`, or else one of them is faulty.
/// No properties given is in order.
pub open spec fn props_error(props: Option<Seq<ProductPropertyView>>) -> Option<Error> {
    match props {
        None => None,
        Some(list) => if list.len() > PRODUCT_MAX_PROPS {
            Some(Error::ProductTooManyProps)
        } else {
            first_prop_error(list, list.len())
        },
    }
}

/// Without a faulty property among the first `upto`, each of them is in
/// order; and the error found is that of the first faulty one.
pub proof fn first_prop_error_is_first(props: Seq<ProductPropertyView>, upto: nat)
    requires
        upto <= props.len(),
    ensures
        first_prop_error(props, upto) is None <==> forall|i: int|
            0 <= i < upto ==> prop_error(#[trigger] props[i]) is None,
        first_prop_error(props, upto) is Some ==> exists|i: int|
            0 <= i < upto && first_prop_error(props, upto) == prop_error(#[trigger] props[i])
                && first_prop_error(props, i as nat) is None,
    decreases upto,
{
    if upto > 0 {
        first_prop_error_is_first(props, (upto - 1) as nat);
        if first_prop_error(props, (upto - 1) as nat) is None {
            if prop_error(props[upto - 1]) is Some {
                assert(first_prop_error(props, upto) == prop_error(props[upto - 1]));
            }
        }
    }
}

#[derive(PartialEq, Eq, Debug)]
struct ProductEntry {
    key: ProductId,
    product: Product,
}

#[derive(PartialEq, Eq, Debug)]
struct OrganizationEntry {
    owner: AccountId,
    products: Vec<ProductId>,
}

#[derive(PartialEq, Eq, Debug)]
struct OwnerEntry {
    key: ProductId,
    owner: AccountId,
}

spec fn product_pairs(entries: Seq<ProductEntry>) -> Seq<(Seq<u8>, ProductView)> {
    Seq::new(entries.len(), |i: int| (entries[i].key@, entries[i].product@))
}

spec fn organization_pairs(entries: Seq<OrganizationEntry>) -> Seq<(AccountId, Seq<Seq<u8>>)> {
    Seq::new(entries.len(), |i: int| (entries[i].owner, ids_view(entries[i].products@)))
}

spec fn owner_pairs(entries: Seq<OwnerEntry>) -> Seq<(Seq<u8>, AccountId)> {
    Seq::new(entries.len(), |i: int| (entries[i].key@, entries[i].owner))
}

/// What the registry holds, as maps, and the time at which a call is
/// executed. An owner that is missing from `products_of` has no products.
pub struct ModuleView {
    pub products: Map<Seq<u8>, ProductView>,
    pub products_of: Map<AccountId, Seq<Seq<u8>>>,
    pub owner_of: Map<Seq<u8>, AccountId>,
    pub now: Moment,
}

impl ModuleView {
    /// The identifiers listed for an owner, oldest first.
    pub open spec fn products_of_org(self, owner: AccountId) -> Seq<Seq<u8>> {
        if self.products_of.dom().contains(owner) {
            self.products_of[owner]
        } else {
            Seq::empty()
        }
    }

    /// Whether a product is registered under an identifier.
    pub open spec fn exists_product(self, id: Seq<u8>) -> bool {
        self.products.dom().contains(id)
    }

    /// Why a registration is refused, if it is. The checks are made in this
    /// order: the caller, the identifier, the properties, whether the
    /// identifier is taken.
    pub open spec fn register_error(
        self,
        origin: Origin,
        may_invoke: bool,
        id: Seq<u8>,
        props: Option<Seq<ProductPropertyView>>,
    ) -> Option<DispatchError> {
        if !admitted(origin, may_invoke) {
            Some(DispatchError::BadOrigin)
        } else if product_id_error(id) is Some {
            Some(DispatchError::Module(product_id_error(id)->Some_0))
        } else if props_error(props) is Some {
            Some(DispatchError::Module(props_error(props)->Some_0))
        } else if self.products.dom().contains(id) {
            Some(DispatchError::Module(Error::ProductIdExists))
        } else {
            None
        }
    }

    /// The registry after a registration that is not refused: the product
    /// is stored with the current time, listed for its owner, and its owner
    /// is recorded.
    pub open spec fn after_registration(
        self,
        id: Seq<u8>,
        owner: AccountId,
        props: Option<Seq<ProductPropertyView>>,
    ) -> ModuleView {
        ModuleView {
            products: self.products.insert(
                id,
                ProductView { id, owner, props, registered: self.now },
            ),
            products_of: self.products_of.insert(owner, self.products_of_org(owner).push(id)),
            owner_of: self.owner_of.insert(id, owner),
            now: self.now,
        }
    }
}

/// The registry's storage, and the time at which a call is executed.
#[derive(PartialEq, Eq, Debug)]
pub struct Module {
    products: Vec<ProductEntry>,
    organizations: Vec<OrganizationEntry>,
    owners: Vec<OwnerEntry>,
    now: Moment,
}

impl View for Module {
    type V = ModuleView;

    closed spec fn view(&self) -> ModuleView {
        ModuleView {
            products: assoc_map(product_pairs(self.products@)),
            products_of: assoc_map(organization_pairs(self.organizations@)),
            owner_of: assoc_map(owner_pairs(self.owners@)),
            now: self.now,
        }
    }
}

impl Clone for Module {
    /// A registry that holds the same.
    fn clone(&self) -> (copy: Self)
        ensures
            copy@ == self@,
    {
        proof {
            use_type_invariant(self);
        }
        let mut products: Vec<ProductEntry> = Vec::new();
        let mut i: usize = 0;
        while i < self.products.len()
            invariant
                i <= self.products.len(),
                products@.len() == i,
                forall|j: int|
                    0 <= j < i ==> products@[j].key@ == self.products@[j].key@
                        && products@[j].product@ == self.products@[j].product@,
            decreases self.products.len() - i,
        {
            products.push(
                ProductEntry {
                    key: copy_bytes(self.products[i].key.as_slice()),
                    product: self.products[i].product.duplicate(),
                },
            );
            i += 1;
        }
        assert(product_pairs(products@) =~= product_pairs(self.products@));
        let mut organizations: Vec<OrganizationEntry> = Vec::new();
        let mut i: usize = 0;
        while i < self.organizations.len()
            invariant
                i <= self.organizations.len(),
                organizations@.len() == i,
                forall|j: int|
                    0 <= j < i ==> organizations@[j].owner == self.organizations@[j].owner
                        && ids_view(organizations@[j].products@) == ids_view(
                        self.organizations@[j].products@,
                    ),
            decreases self.organizations.len() - i,
        {
            organizations.push(
                OrganizationEntry {
                    owner: self.organizations[i].owner,
                    products: copy_ids(self.organizations[i].products.as_slice()),
                },
            );
            i += 1;
        }
        assert(organization_pairs(organizations@) =~= organization_pairs(self.organizations@));
        let mut owners: Vec<OwnerEntry> = Vec::new();
        let mut i: usize = 0;
        while i < self.owners.len()
            invariant
                i <= self.owners.len(),
                owners@.len() == i,
                forall|j: int|
                    0 <= j < i ==> owners@[j].key@ == self.owners@[j].key@ && owners@[j].owner
                        == self.owners@[j].owner,
            decreases self.owners.len() - i,
        {
            owners.push(
                OwnerEntry {
                    key: copy_bytes(self.owners[i].key.as_slice()),
                    owner: self.owners[i].owner,
                },
            );
            i += 1;
        }
        assert(owner_pairs(owners@) =~= owner_pairs(self.owners@));
        Module { products, organizations, owners, now: self.now }
    }
}

impl Module {
    #[verifier::type_invariant]
    spec fn well_formed(self) -> bool {
        &&& distinct_keys(product_pairs(self.products@))
        &&& distinct_keys(organization_pairs(self.organizations@))
        &&& distinct_keys(owner_pairs(self.owners@))
    }

    /// A registry that holds nothing, at time 0.
    pub fn new() -> (module: Module)
        ensures
            module@ == (ModuleView {
                products: Map::empty(),
                products_of: Map::empty(),
                owner_of: Map::empty(),
                now: 0,
            }),
    {
        let module = Module {
            products: Vec::new(),
            organizations: Vec::new(),
            owners: Vec::new(),
            now: 0,
        };
        assert(module@.products =~= Map::empty());
        assert(module@.products_of =~= Map::empty());
        assert(module@.owner_of =~= Map::empty());
        module
    }

    /// Sets the time at which the calls that follow are executed.
    pub fn set_timestamp(&mut self, now: Moment)
        ensures
            final(self)@ == (ModuleView { now, ..old(self)@ }),
    {
        proof {
            use_type_invariant(&*self);
        }
        self.now = now;
    }

    fn new_product() -> (builder: ProductBuilder)
        ensures
            builder.pending() == (ProductView {
                id: Seq::<u8>::empty(),
                owner: 0,
                props: None,
                registered: 0,
            }),
    {
        ProductBuilder::default()
    }

    fn find_product(&self, id: &[u8]) -> (found: Option<usize>)
        ensures
            match found {
                Some(i) => i < self.products@.len() && self.products@[i as int].key@ == id@,
                None => forall|j: int|
                    0 <= j < self.products@.len() ==> (#[trigger] self.products@[j]).key@ != id@,
            },
    {
        let mut i: usize = 0;
        while i < self.products.len()
            invariant
                i <= self.products@.len(),
                forall|j: int| 0 <= j < i ==> (#[trigger] self.products@[j]).key@ != id@,
            decreases self.products@.len() - i,
        {
            if same_bytes(self.products[i].key.as_slice(), id) {
                return Some(i);
            }
            i += 1;
        }
        None
    }

    fn find_organization(&self, owner: AccountId) -> (found: Option<usize>)
        ensures
            match found {
                Some(i) => i < self.organizations@.len() && self.organizations@[i as int].owner
                    == owner,
                None => forall|j: int|
                    0 <= j < self.organizations@.len() ==> (
                    #[trigger] self.organizations@[j]).owner != owner,
            },
    {
        let mut i: usize = 0;
        while i < self.organizations.len()
            invariant
                i <= self.organizations@.len(),
                forall|j: int| 0 <= j < i ==> (#[trigger] self.organizations@[j]).owner != owner,
            decreases self.organizations@.len() - i,
        {
            if self.organizations[i].owner == owner {
                return Some(i);
            }
            i += 1;
        }
        None
    }

    fn find_owner(&self, id: &[u8]) -> (found: Option<usize>)
        ensures
            match found {
                Some(i) => i < self.owners@.len() && self.owners@[i as int].key@ == id@,
                None => forall|j: int|
                    0 <= j < self.owners@.len() ==> (#[trigger] self.owners@[j]).key@ != id@,
            },
    {
        let mut i: usize = 0;
        while i < self.owners.len()
            invariant
                i <= self.owners@.len(),
                forall|j: int| 0 <= j < i ==> (#[trigger] self.owners@[j]).key@ != id@,
            decreases self.owners@.len() - i,
        {
            if same_bytes(self.owners[i].key.as_slice(), id) {
                return Some(i);
            }
            i += 1;
        }
        None
    }

    /// The product stored under `id`, if there is one.
    pub fn product_by_id(&self, id: &[u8]) -> (product: Option<&Product>)
        ensures
            match product {
                Some(p) => self@.products.dom().contains(id@) && self@.products[id@] == p@,
                None => !self@.products.dom().contains(id@),
            },
    {
        proof {
            use_type_invariant(self);
        }
        match self.find_product(id) {
            Some(i) => {
                proof {
                    lemma_assoc_at(product_pairs(self.products@), i as int);
                }
                Some(&self.products[i].product)
            },
            None => {
                proof {
                    lemma_assoc_absent(product_pairs(self.products@), id@);
                }
                None
            },
        }
    }

    /// Whether a product is registered under `id`.
    pub fn contains_product(&self, id: &[u8]) -> (known: bool)
        ensures
            known == self@.exists_product(id@),
    {
        self.product_by_id(id).is_some()
    }

    /// The identifiers listed for `owner`, oldest first.
    pub fn products_of_org(&self, owner: AccountId) -> (ids: Vec<ProductId>)
        ensures
            ids_view(ids@) == self@.products_of_org(owner),
    {
        proof {
            use_type_invariant(self);
        }
        match self.find_organization(owner) {
            Some(i) => {
                proof {
                    lemma_assoc_at(organization_pairs(self.organizations@), i as int);
                }
                copy_ids(self.organizations[i].products.as_slice())
            },
            None => {
                proof {
                    lemma_assoc_absent(organization_pairs(self.organizations@), owner);
                }
                let ids: Vec<ProductId> = Vec::new();
                assert(ids_view(ids@) =~= Seq::<Seq<u8>>::empty());
                ids
            },
        }
    }

    /// The owner recorded for `id`, if there is one.
    pub fn owner_of(&self, id: &[u8]) -> (owner: Option<AccountId>)
        ensures
            match owner {
                Some(o) => self@.owner_of.dom().contains(id@) && self@.owner_of[id@] == o,
                None => !self@.owner_of.dom().contains(id@),
            },
    {
        proof {
            use_type_invariant(self);
        }
        match self.find_owner(id) {
            Some(i) => {
                proof {
                    lemma_assoc_at(owner_pairs(self.owners@), i as int);
                }
                Some(self.owners[i].owner)
            },
            None => {
                proof {
                    lemma_assoc_absent(owner_pairs(self.owners@), id@);
                }
                None
            },
        }
    }

    /// Stores `product` under `id`, in place of what was stored there.
    pub fn insert_product(&mut self, id: ProductId, product: Product)
        ensures
            final(self)@ == (ModuleView {
                products: old(self)@.products.insert(id@, product@),
                ..old(self)@
            }),
    {
        proof {
            use_type_invariant(&*self);
        }
        let ghost before = product_pairs(self.products@);
        let found = self.find_product(id.as_slice());
        let mut entries: Vec<ProductEntry> = Vec::new();
        core::mem::swap(&mut self.products, &mut entries);
        match found {
            Some(i) => {
                proof {
                    lemma_assoc_update(before, i as int, product@);
                }
                entries.set(i, ProductEntry { key: id, product });
                assert(product_pairs(entries@) =~= before.update(i as int, (id@, product@)));
            },
            None => {
                proof {
                    lemma_assoc_push(before, id@, product@);
                    lemma_distinct_push(before, id@, product@);
                }
                entries.push(ProductEntry { key: id, product });
                assert(product_pairs(entries@) =~= before.push((id@, product@)));
            },
        }
        self.products = entries;
    }

    fn append_product_of_org(&mut self, owner: AccountId, id: ProductId)
        ensures
            final(self)@ == (ModuleView {
                products_of: old(self)@.products_of.insert(
                    owner,
                    old(self)@.products_of_org(owner).push(id@),
                ),
                ..old(self)@
            }),
    {
        proof {
            use_type_invariant(&*self);
        }
        let ghost before = organization_pairs(self.organizations@);
        let found = self.find_organization(owner);
        let mut entries: Vec<OrganizationEntry> = Vec::new();
        core::mem::swap(&mut self.organizations, &mut entries);
        match found {
            Some(i) => {
                let ghost listed = before[i as int].1.push(id@);
                proof {
                    lemma_assoc_at(before, i as int);
                    lemma_assoc_update(before, i as int, listed);
                }
                entries[i].products.push(id);
                assert(ids_view(entries@[i as int].products@) =~= listed);
                assert(organization_pairs(entries@) =~= before.update(i as int, (owner, listed)));
            },
            None => {
                let ghost listed = Seq::<Seq<u8>>::empty().push(id@);
                proof {
                    lemma_assoc_absent(before, owner);
                    lemma_assoc_push(before, owner, listed);
                    lemma_distinct_push(before, owner, listed);
                }
                let mut products: Vec<ProductId> = Vec::new();
                products.push(id);
                assert(ids_view(products@) =~= listed);
                entries.push(OrganizationEntry { owner, products });
                assert(organization_pairs(entries@) =~= before.push((owner, listed)));
            },
        }
        self.organizations = entries;
    }

    fn insert_owner(&mut self, id: ProductId, owner: AccountId)
        ensures
            final(self)@ == (ModuleView {
                owner_of: old(self)@.owner_of.insert(id@, owner),
                ..old(self)@
            }),
    {
        proof {
            use_type_invariant(&*self);
        }
        let ghost before = owner_pairs(self.owners@);
        let found = self.find_owner(id.as_slice());
        let mut entries: Vec<OwnerEntry> = Vec::new();
        core::mem::swap(&mut self.owners, &mut entries);
        match found {
            Some(i) => {
                proof {
                    lemma_assoc_update(before, i as int, owner);
                }
                entries.set(i, OwnerEntry { key: id, owner });
                assert(owner_pairs(entries@) =~= before.update(i as int, (id@, owner)));
            },
            None => {
                proof {
                    lemma_assoc_push(before, id@, owner);
                    lemma_distinct_push(before, id@, owner);
                }
                entries.push(OwnerEntry { key: id, owner });
                assert(owner_pairs(entries@) =~= before.push((id@, owner)));
            },
        }
        self.owners = entries;
    }

    /// Accepts an identifier that is not empty and not too long.
    pub fn validate_product_id(id: &[u8]) -> (checked: Result<(), Error>)
        ensures
            checked is Ok <==> product_id_error(id@) is None,
            checked is Err ==> product_id_error(id@) == Some(checked->Err_0),
    {
        if id.len() == 0 {
            return Err(Error::ProductIdMissing);
        }
        if id.len() > PRODUCT_ID_MAX_LENGTH {
            return Err(Error::ProductIdTooLong);
        }
        Ok(())
    }

    /// Accepts an identifier under which no product is stored.
    pub fn validate_new_product(&self, id: &[u8]) -> (checked: Result<(), Error>)
        ensures
            checked is Ok <==> !self@.products.dom().contains(id@),
            checked is Err ==> checked->Err_0 == Error::ProductIdExists,
    {
        match self.product_by_id(id) {
            Some(_) => Err(Error::ProductIdExists),
            None => Ok(()),
        }
    }

    /// Accepts at most `PRODUCT_MAX_PROPS` properties, each with a name and
    /// a value that are not too long; the error is that of the first faulty
    /// property.
    pub fn validate_product_props(props: &Option<Vec<ProductProperty>>) -> (checked: Result<
        (),
        Error,
    >)
        ensures
            checked is Ok <==> props_error(props_given(*props)) is None,
            checked is Err ==> props_error(props_given(*props)) == Some(checked->Err_0),
    {
        match props {
            None => Ok(()),
            Some(list) => {
                let ghost given = props_view(list@);
                assert(props_given(*props) == Some(given));
                if list.len() > PRODUCT_MAX_PROPS {
                    return Err(Error::ProductTooManyProps);
                }
                let mut i: usize = 0;
                while i < list.len()
                    invariant
                        i <= list.len(),
                        given == props_view(list@),
                        props_given(*props) == Some(given),
                        list.len() <= PRODUCT_MAX_PROPS,
                        first_prop_error(given, i as nat) is None,
                    decreases list.len() - i,
                {
                    let prop = &list[i];
                    assert(given[i as int] == prop@);
                    if prop.name().len() > PRODUCT_PROP_NAME_MAX_LENGTH {
                        proof {
                            assert(first_prop_error(given, (i + 1) as nat) == Some(
                                Error::ProductInvalidPropName,
                            ));
                            lemma_first_error_stays(given, (i + 1) as nat, given.len());
                        }
                        return Err(Error::ProductInvalidPropName);
                    }
                    if prop.value().len() > PRODUCT_PROP_VALUE_MAX_LENGTH {
                        proof {
                            assert(first_prop_error(given, (i + 1) as nat) == Some(
                                Error::ProductInvalidPropValue,
                            ));
                            lemma_first_error_stays(given, (i + 1) as nat, given.len());
                        }
                        return Err(Error::ProductInvalidPropValue);
                    }
                    assert(first_prop_error(given, (i + 1) as nat) is None);
                    i += 1;
                }
                Ok(())
            },
        }
    }

    /// Registers a product for `owner`. `may_invoke` is the answer of the
    /// authorization to whether this caller may register products.
    ///
    /// On success the product is stored with the current time, listed for
    /// its owner, and its owner is recorded; the announcement is returned.
    /// On refusal nothing changes.
    pub fn register_product(
        &mut self,
        origin: Origin,
        may_invoke: bool,
        id: ProductId,
        owner: AccountId,
        props: Option<Vec<ProductProperty>>,
    ) -> (result: Result<Event, DispatchError>)
        ensures
            match result {
                Ok(event) => {
                    &&& old(self)@.register_error(origin, may_invoke, id@, props_given(props))
                        is None
                    &&& final(self)@ == old(self)@.after_registration(
                        id@,
                        owner,
                        props_given(props),
                    )
                    &&& event@ == EventView::ProductRegistered(origin->Signed_0, id@, owner)
                },
                Err(e) => {
                    &&& old(self)@.register_error(origin, may_invoke, id@, props_given(props))
                        == Some(e)
                    &&& final(self)@ == old(self)@
                },
            },
    {
        proof {
            use_type_invariant(&*self);
        }
        let who = match ensure_admitted::<Error>(origin, may_invoke) {
            Ok(who) => who,
            Err(e) => {
                return Err(e);
            },
        };
        if let Err(e) = Self::validate_product_id(id.as_slice()) {
            return Err(DispatchError::Module(e));
        }
        if let Err(e) = Self::validate_product_props(&props) {
            return Err(DispatchError::Module(e));
        }
        if let Err(e) = self.validate_new_product(id.as_slice()) {
            return Err(DispatchError::Module(e));
        }
        let ghost given = props_given(props);
        let product = Self::new_product().identified_by(copy_bytes(id.as_slice())).owned_by(
            owner,
        ).registered_on(self.now).with_props(props).build();
        assert(product@ == (ProductView { id: id@, owner, props: given, registered: self.now }));

        self.insert_product(copy_bytes(id.as_slice()), product);
        self.append_product_of_org(owner, copy_bytes(id.as_slice()));
        self.insert_owner(copy_bytes(id.as_slice()), owner);

        Ok(Event::ProductRegistered(who, id, owner))
    }
}

/// Once an error is found among the first properties, it is the error of
/// every longer prefix.
proof fn lemma_first_error_stays(props: Seq<ProductPropertyView>, found: nat, upto: nat)
    requires
        found <= upto,
        first_prop_error(props, found) is Some,
    ensures
        first_prop_error(props, upto) == first_prop_error(props, found),
    decreases upto,
{
    if found < upto {
        lemma_first_error_stays(props, found, (upto - 1) as nat);
    }
}

/// Collects the fields of a product that is about to be registered.
pub struct ProductBuilder {
    id: ProductId,
    owner: AccountId,
    props: Option<Vec<ProductProperty>>,
    registered: Moment,
}

impl ProductBuilder {
    /// The product that `build` would return now.
    pub closed spec fn pending(self) -> ProductView {
        ProductView {
            id: self.id@,
            owner: self.owner,
            props: props_given(self.props),
            registered: self.registered,
        }
    }

    pub fn identified_by(self, id: ProductId) -> (builder: Self)
        ensures
            builder.pending() == (ProductView { id: id@, ..self.pending() }),
    {
        let mut builder = self;
        builder.id = id;
        builder
    }

    pub fn owned_by(self, owner: AccountId) -> (builder: Self)
        ensures
            builder.pending() == (ProductView { owner: owner, ..self.pending() }),
    {
        let mut builder = self;
        builder.owner = owner;
        builder
    }

    pub fn with_props(self, props: Option<Vec<ProductProperty>>) -> (builder: Self)
        ensures
            builder.pending() == (ProductView { props: props_given(props), ..self.pending() }),
    {
        let mut builder = self;
        builder.props = props;
        builder
    }

    pub fn registered_on(self, registered: Moment) -> (builder: Self)
        ensures
            builder.pending() == (ProductView { registered: registered, ..self.pending() }),
    {
        let mut builder = self;
        builder.registered = registered;
        builder
    }

    pub fn build(self) -> (product: Product)
        ensures
            product@ == self.pending(),
    {
        Product { id: self.id, owner: self.owner, props: self.props, registered: self.registered }
    }
}

impl Default for ProductBuilder {
    fn default() -> (builder: Self)
        ensures
            builder.pending() == (ProductView {
                id: Seq::<u8>::empty(),
                owner: 0,
                props: None,
                registered: 0,
            }),
    {
        ProductBuilder { id: Vec::new(), owner: 0, props: None, registered: 0 }
    }
}

/// A registration with an admissible identifier and admissible properties,
/// by an admitted caller, is accepted exactly if the identifier is not
/// taken. After it the product exists, belongs to the owner named, and a
/// second registration under the same identifier is refused because the
/// product exists, whatever owner it names.
pub proof fn registration_succeeds_once(
    state: ModuleView,
    origin: Origin,
    id: Seq<u8>,
    owner: AccountId,
    props: Option<Seq<ProductPropertyView>>,
    other_owner: AccountId,
)
    requires
        admitted(origin, true),
        product_id_error(id) is None,
        props_error(props) is None,
        !state.exists_product(id),
    ensures
        state.register_error(origin, true, id, props) is None,
        state.after_registration(id, owner, props).exists_product(id),
        state.after_registration(id, owner, props).owner_of[id] == owner,
        state.after_registration(id, owner, props).products_of_org(owner).last() == id,
        state.after_registration(id, owner, props).register_error(origin, true, id, props) == Some(
            DispatchError::Module(Error::ProductIdExists),
        ),
{
}

} // verus!
