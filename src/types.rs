use vstd::prelude::*;

verus! {

/// A quantity of an asset. All arithmetic on it is checked.
pub type Balance = u128;

/// The largest amount, also used as the "unlimited" allowance marker.
pub const MAX_BALANCE: u128 = 0xffff_ffff_ffff_ffff_ffff_ffff_ffff_ffffu128;

/// Opaque 32-byte identifier of a holder or an operator.
#[derive(Clone, Copy, Debug, PartialEq, Eq)]
pub struct AccountId(pub [u8; 32]);

impl View for AccountId {
    type V = Seq<u8>;

    open spec fn view(&self) -> Seq<u8> {
        self.0@
    }
}

/// Identifier of an asset: a tagged union of unsigned encodings and raw bytes.
/// Two identifiers are equal only when both the tag and the payload match.
#[derive(Clone, Debug, PartialEq, Eq)]
pub enum Id {
    U8(u8),
    U16(u16),
    U32(u32),
    U64(u64),
    U128(u128),
    Bytes(Vec<u8>),
}

/// Mathematical value of an [`Id`].
pub ghost enum IdView {
    U8(u8),
    U16(u16),
    U32(u32),
    U64(u64),
    U128(u128),
    Bytes(Seq<u8>),
}

impl View for Id {
    type V = IdView;

    open spec fn view(&self) -> IdView {
        match self {
            Id::U8(v) => IdView::U8(*v),
            Id::U16(v) => IdView::U16(*v),
            Id::U32(v) => IdView::U32(*v),
            Id::U64(v) => IdView::U64(*v),
            Id::U128(v) => IdView::U128(*v),
            Id::Bytes(b) => IdView::Bytes(b@),
        }
    }
}

/// View of an optional identifier (`None` is the aggregate key).
pub open spec fn opt_id(id: Option<Id>) -> Option<IdView> {
    match id {
        Some(i) => Some(i@),
        None => None,
    }
}

/// View of an optional account (`None` stands for "all owners").
pub open spec fn opt_account(a: Option<AccountId>) -> Option<Seq<u8>> {
    match a {
        Some(x) => Some(x@),
        None => None,
    }
}

fn bytes_equal(a: &Vec<u8>, b: &Vec<u8>) -> (r: bool)
    ensures
        r == (a@ == b@),
{
    if a.len() != b.len() {
        return false;
    }
    let mut i: usize = 0;
    while i < a.len()
        invariant
            a@.len() == b@.len(),
            0 <= i <= a@.len(),
            forall|j: int| 0 <= j < i ==> a@[j] == b@[j],
        decreases a@.len() - i,
    {
        if a[i] != b[i] {
            return false;
        }
        i = i + 1;
    }
    assert(a@ =~= b@);
    true
}

fn bytes_copy(a: &Vec<u8>) -> (r: Vec<u8>)
    ensures
        r@ == a@,
{
    let mut r: Vec<u8> = Vec::new();
    let mut i: usize = 0;
    while i < a.len()
        invariant
            0 <= i <= a@.len(),
            r@ =~= a@.subrange(0, i as int),
        decreases a@.len() - i,
    {
        r.push(a[i]);
        i = i + 1;
    }
    assert(r@ =~= a@);
    r
}

/// A key that can be compared and duplicated with known results.
pub trait TableKey: View + Sized {
    /// Equality of the two keys' views.
    fn same_key(&self, other: &Self) -> (r: bool)
        ensures
            r == (self@ == other@),
    ;

    /// A copy with the same view.
    fn key_clone(&self) -> (r: Self)
        ensures
            r@ == self@,
    ;
}

/// A stored value that can be copied with a known result.
pub trait TableValue: Sized {
    fn copy_value(&self) -> (r: Self)
        ensures
            r == *self,
    ;
}

impl TableValue for u128 {
    fn copy_value(&self) -> (r: Self) {
        *self
    }
}

impl TableValue for u32 {
    fn copy_value(&self) -> (r: Self) {
        *self
    }
}

impl TableValue for () {
    fn copy_value(&self) -> (r: Self) {
        ()
    }
}

impl TableValue for AccountId {
    fn copy_value(&self) -> (r: Self) {
        AccountId(self.0)
    }
}

impl TableValue for String {
    fn copy_value(&self) -> (r: Self) {
        self.clone()
    }
}

impl TableKey for AccountId {
    fn same_key(&self, other: &Self) -> (r: bool) {
        let mut i: usize = 0;
        while i < 32
            invariant
                0 <= i <= 32,
                self@.len() == 32,
                other@.len() == 32,
                forall|j: int| 0 <= j < i ==> self@[j] == other@[j],
            decreases 32 - i,
        {
            if self.0[i] != other.0[i] {
                return false;
            }
            i = i + 1;
        }
        assert(self@ =~= other@);
        true
    }

    fn key_clone(&self) -> (r: Self) {
        AccountId(self.0)
    }
}

impl TableKey for Id {
    fn same_key(&self, other: &Self) -> (r: bool) {
        match (self, other) {
            (Id::U8(a), Id::U8(b)) => *a == *b,
            (Id::U16(a), Id::U16(b)) => *a == *b,
            (Id::U32(a), Id::U32(b)) => *a == *b,
            (Id::U64(a), Id::U64(b)) => *a == *b,
            (Id::U128(a), Id::U128(b)) => *a == *b,
            (Id::Bytes(a), Id::Bytes(b)) => bytes_equal(a, b),
            _ => false,
        }
    }

    fn key_clone(&self) -> (r: Self) {
        match self {
            Id::U8(v) => Id::U8(*v),
            Id::U16(v) => Id::U16(*v),
            Id::U32(v) => Id::U32(*v),
            Id::U64(v) => Id::U64(*v),
            Id::U128(v) => Id::U128(*v),
            Id::Bytes(b) => Id::Bytes(bytes_copy(b)),
        }
    }
}

/// Compares two optional identifiers by their views.
pub fn same_opt_id(a: &Option<Id>, b: &Option<Id>) -> (r: bool)
    ensures
        r == (opt_id(*a) == opt_id(*b)),
{
    match (a, b) {
        (Some(x), Some(y)) => x.same_key(y),
        (None, None) => true,
        _ => false,
    }
}

/// Copies an optional identifier.
pub fn clone_opt_id(a: &Option<Id>) -> (r: Option<Id>)
    ensures
        opt_id(r) == opt_id(*a),
{
    match a {
        Some(x) => Some(x.key_clone()),
        None => None,
    }
}

/// Key of a balance entry: an owner and an asset, or `None` for the
/// owner's count of distinct assets held.
#[derive(Clone, Debug, PartialEq, Eq)]
pub struct BalancesKey {
    pub owner: AccountId,
    pub id: Option<Id>,
}

impl View for BalancesKey {
    type V = (Seq<u8>, Option<IdView>);

    open spec fn view(&self) -> (Seq<u8>, Option<IdView>) {
        (self.owner@, opt_id(self.id))
    }
}

impl TableKey for BalancesKey {
    fn same_key(&self, other: &Self) -> (r: bool) {
        self.owner.same_key(&other.owner) && same_opt_id(&self.id, &other.id)
    }

    fn key_clone(&self) -> (r: Self) {
        BalancesKey { owner: self.owner.key_clone(), id: clone_opt_id(&self.id) }
    }
}

/// Key of a supply entry: an asset, or `None` for the count of distinct
/// assets in existence.
#[derive(Clone, Debug, PartialEq, Eq)]
pub struct SupplyKey {
    pub id: Option<Id>,
}

impl View for SupplyKey {
    type V = Option<IdView>;

    open spec fn view(&self) -> Option<IdView> {
        opt_id(self.id)
    }
}

impl TableKey for SupplyKey {
    fn same_key(&self, other: &Self) -> (r: bool) {
        same_opt_id(&self.id, &other.id)
    }

    fn key_clone(&self) -> (r: Self) {
        SupplyKey { id: clone_opt_id(&self.id) }
    }
}

/// Key of an approval entry: owner, operator, and an asset or `None` for a
/// blanket approval over all assets.
#[derive(Clone, Debug, PartialEq, Eq)]
pub struct ApprovalsKey {
    pub owner: AccountId,
    pub operator: AccountId,
    pub id: Option<Id>,
}

impl View for ApprovalsKey {
    type V = (Seq<u8>, Seq<u8>, Option<IdView>);

    open spec fn view(&self) -> (Seq<u8>, Seq<u8>, Option<IdView>) {
        (self.owner@, self.operator@, opt_id(self.id))
    }
}

impl TableKey for ApprovalsKey {
    fn same_key(&self, other: &Self) -> (r: bool) {
        self.owner.same_key(&other.owner) && self.operator.same_key(&other.operator)
            && same_opt_id(&self.id, &other.id)
    }

    fn key_clone(&self) -> (r: Self) {
        ApprovalsKey {
            owner: self.owner.key_clone(),
            operator: self.operator.key_clone(),
            id: clone_opt_id(&self.id),
        }
    }
}

/// Key of an enumeration list: an owner, or `None` for all owners.
#[derive(Clone, Debug, PartialEq, Eq)]
pub struct EnumerableKey {
    pub owner: Option<AccountId>,
}

impl View for EnumerableKey {
    type V = Option<Seq<u8>>;

    open spec fn view(&self) -> Option<Seq<u8>> {
        opt_account(self.owner)
    }
}

impl TableKey for EnumerableKey {
    fn same_key(&self, other: &Self) -> (r: bool) {
        match (&self.owner, &other.owner) {
            (Some(a), Some(b)) => a.same_key(b),
            (None, None) => true,
            _ => false,
        }
    }

    fn key_clone(&self) -> (r: Self) {
        match &self.owner {
            Some(a) => EnumerableKey { owner: Some(a.key_clone()) },
            None => EnumerableKey { owner: None },
        }
    }
}

/// Key of a fungible allowance: owner and spender.
#[derive(Clone, Debug, PartialEq, Eq)]
pub struct AllowancesKey {
    pub owner: AccountId,
    pub spender: AccountId,
}

impl View for AllowancesKey {
    type V = (Seq<u8>, Seq<u8>);

    open spec fn view(&self) -> (Seq<u8>, Seq<u8>) {
        (self.owner@, self.spender@)
    }
}

impl TableKey for AllowancesKey {
    fn same_key(&self, other: &Self) -> (r: bool) {
        self.owner.same_key(&other.owner) && self.spender.same_key(&other.spender)
    }

    fn key_clone(&self) -> (r: Self) {
        AllowancesKey { owner: self.owner.key_clone(), spender: self.spender.key_clone() }
    }
}

/// Key of an asset attribute: the asset and the attribute's name.
#[derive(Clone, Debug, PartialEq, Eq)]
pub struct AttributesKey {
    pub id: Id,
    pub key: String,
}

impl View for AttributesKey {
    type V = (IdView, Seq<char>);

    open spec fn view(&self) -> (IdView, Seq<char>) {
        (self.id@, self.key@)
    }
}

impl TableKey for AttributesKey {
    fn same_key(&self, other: &Self) -> (r: bool) {
        self.id.same_key(&other.id) && self.key == other.key
    }

    fn key_clone(&self) -> (r: Self) {
        AttributesKey { id: self.id.key_clone(), key: self.key.clone() }
    }
}

} // verus!
