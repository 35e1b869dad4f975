use vstd::prelude::*;
use vstd::slice::slice_to_vec;
use vstd::utf8::encode_utf8;

verus! {

/// Identity of a tradable asset: a token contract, or a denomination held
/// directly on the host ledger.
#[derive(Debug, PartialEq, Eq)]
pub enum AssetInfo {
    Token { contract_addr: String },
    NativeToken { denom: String },
}

/// An asset together with a quantity of it.
#[derive(Debug, PartialEq, Eq)]
pub struct Asset {
    pub info: AssetInfo,
    pub amount: u128,
}

/// Canonical form of an [`AssetInfo`]: a token contract is held by its
/// canonical address bytes.
#[derive(Debug, PartialEq, Eq)]
pub enum AssetInfoRaw {
    Token { contract_addr: Vec<u8> },
    NativeToken { denom: String },
}

/// Canonical form of an [`Asset`].
#[derive(Debug, PartialEq, Eq)]
pub struct AssetRaw {
    pub info: AssetInfoRaw,
    pub amount: u128,
}

/// A registered pool, as callers see it.
#[derive(Debug, PartialEq, Eq)]
pub struct PairInfo {
    pub asset_infos: [AssetInfo; 2],
    pub contract_addr: String,
    pub liquidity_token: String,
    pub asset_decimals: [u8; 2],
}

/// A registered pool, with canonical addresses, as the registry keeps it.
#[derive(Debug, PartialEq, Eq)]
pub struct PairInfoRaw {
    pub asset_infos: [AssetInfoRaw; 2],
    pub contract_addr: Vec<u8>,
    pub liquidity_token: Vec<u8>,
    pub asset_decimals: [u8; 2],
}

/// Native funds attached to a call: a denomination and an amount.
#[derive(Debug, PartialEq, Eq)]
pub struct Coin {
    pub denom: String,
    pub amount: u128,
}

impl AssetInfo {
    /// The denomination or the contract address, as text.
    pub open spec fn label(&self) -> Seq<char> {
        match self {
            AssetInfo::Token { contract_addr } => contract_addr@,
            AssetInfo::NativeToken { denom } => denom@,
        }
    }

    /// Structural equality: same variant and same text.
    pub open spec fn same_as(&self, other: &AssetInfo) -> bool {
        &&& (self is NativeToken) == (other is NativeToken)
        &&& self.label() == other.label()
    }

    pub fn is_native_token(&self) -> (r: bool)
        ensures
            r == (self is NativeToken),
    {
        match self {
            AssetInfo::NativeToken { .. } => true,
            AssetInfo::Token { .. } => false,
        }
    }

    /// Whether two asset identities are structurally equal.
    pub fn equal(&self, other: &AssetInfo) -> (r: bool)
        ensures
            r == self.same_as(other),
    {
        match (self, other) {
            (AssetInfo::NativeToken { denom: a }, AssetInfo::NativeToken { denom: b }) => a.eq(b),
            (AssetInfo::Token { contract_addr: a }, AssetInfo::Token { contract_addr: b }) => a.eq(b),
            _ => false,
        }
    }

    /// A copy of this identity.
    pub fn duplicate(&self) -> (r: AssetInfo)
        ensures
            r.same_as(self),
    {
        match self {
            AssetInfo::NativeToken { denom } => AssetInfo::NativeToken { denom: denom.clone() },
            AssetInfo::Token { contract_addr } => AssetInfo::Token {
                contract_addr: contract_addr.clone(),
            },
        }
    }
}

impl Asset {
    /// Same identity and same amount.
    pub open spec fn same_as(&self, other: &Asset) -> bool {
        self.info.same_as(&other.info) && self.amount == other.amount
    }

    /// A copy of this asset.
    pub fn duplicate(&self) -> (r: Asset)
        ensures
            r.same_as(self),
    {
        Asset { info: self.info.duplicate(), amount: self.amount }
    }
}

/// The canonical byte encoding of an asset identity: the UTF-8 bytes of a
/// denomination, or the canonical address bytes of a token contract.
pub open spec fn raw_bytes(info: &AssetInfoRaw) -> Seq<u8> {
    match info {
        AssetInfoRaw::Token { contract_addr } => contract_addr@,
        AssetInfoRaw::NativeToken { denom } => encode_utf8(denom@),
    }
}

impl AssetInfoRaw {
    /// Same variant and same bytes.
    pub open spec fn same_as(&self, other: &AssetInfoRaw) -> bool {
        &&& (self is NativeToken) == (other is NativeToken)
        &&& raw_bytes(self) == raw_bytes(other)
    }

    /// The canonical byte encoding of this identity.
    pub fn as_bytes(&self) -> (r: Vec<u8>)
        ensures
            r@ == raw_bytes(self),
    {
        match self {
            AssetInfoRaw::NativeToken { denom } => slice_to_vec(denom.as_str().as_bytes()),
            AssetInfoRaw::Token { contract_addr } => contract_addr.clone(),
        }
    }

    pub fn is_native_token(&self) -> (r: bool)
        ensures
            r == (self is NativeToken),
    {
        match self {
            AssetInfoRaw::NativeToken { .. } => true,
            AssetInfoRaw::Token { .. } => false,
        }
    }

    /// A copy of this identity.
    pub fn duplicate(&self) -> (r: AssetInfoRaw)
        ensures
            r.same_as(self),
    {
        match self {
            AssetInfoRaw::NativeToken { denom } => AssetInfoRaw::NativeToken { denom: denom.clone() },
            AssetInfoRaw::Token { contract_addr } => AssetInfoRaw::Token {
                contract_addr: contract_addr.clone(),
            },
        }
    }
}

impl AssetRaw {
    /// Same identity and same amount.
    pub open spec fn same_as(&self, other: &AssetRaw) -> bool {
        self.info.same_as(&other.info) && self.amount == other.amount
    }

    /// A copy of this asset.
    pub fn duplicate(&self) -> (r: AssetRaw)
        ensures
            r.same_as(self),
    {
        AssetRaw { info: self.info.duplicate(), amount: self.amount }
    }
}

impl PairInfoRaw {
    /// Same assets, addresses and decimals.
    pub open spec fn same_as(&self, other: &PairInfoRaw) -> bool {
        &&& self.asset_infos[0].same_as(&other.asset_infos[0])
        &&& self.asset_infos[1].same_as(&other.asset_infos[1])
        &&& self.contract_addr@ == other.contract_addr@
        &&& self.liquidity_token@ == other.liquidity_token@
        &&& self.asset_decimals == other.asset_decimals
    }

    /// A copy of this record.
    pub fn duplicate(&self) -> (r: PairInfoRaw)
        ensures
            r.same_as(self),
    {
        PairInfoRaw {
            asset_infos: [self.asset_infos[0].duplicate(), self.asset_infos[1].duplicate()],
            contract_addr: self.contract_addr.clone(),
            liquidity_token: self.liquidity_token.clone(),
            asset_decimals: self.asset_decimals,
        }
    }
}

/// Amount of the first entry of `assets` that is `info`, or zero if none is.
pub open spec fn amount_in(assets: Seq<Asset>, info: AssetInfo) -> int
    decreases assets.len(),
{
    if assets.len() == 0 {
        0
    } else if assets[0].info.same_as(&info) {
        assets[0].amount as int
    } else {
        amount_in(assets.subrange(1, assets.len() as int), info)
    }
}

/// Position of the first entry of `assets` that is `info`, or -1 if none is.
pub open spec fn index_in(assets: Seq<Asset>, info: AssetInfo) -> int
    decreases assets.len(),
{
    if assets.len() == 0 {
        -1
    } else if assets[0].info.same_as(&info) {
        0
    } else {
        let r = index_in(assets.subrange(1, assets.len() as int), info);
        if r < 0 {
            -1
        } else {
            r + 1
        }
    }
}

/// The first entry for `info` is an entry for `info`, and holds the amount.
pub proof fn lemma_index_in_matches(assets: Seq<Asset>, info: AssetInfo)
    ensures
        -1 <= index_in(assets, info) < assets.len(),
        index_in(assets, info) >= 0 ==> assets[index_in(assets, info)].info.same_as(&info)
            && amount_in(assets, info) == assets[index_in(assets, info)].amount,
        index_in(assets, info) < 0 ==> amount_in(assets, info) == 0,
    decreases assets.len(),
{
    if assets.len() > 0 && !assets[0].info.same_as(&info) {
        let rest = assets.subrange(1, assets.len() as int);
        lemma_index_in_matches(rest, info);
        if index_in(rest, info) >= 0 {
            assert(rest[index_in(rest, info)] == assets[index_in(rest, info) + 1]);
        }
    }
}

/// What `assets` holds of an identity depends only on the identity's
/// variant and text.
pub proof fn lemma_lookup_respects_identity(assets: Seq<Asset>, x: AssetInfo, y: AssetInfo)
    requires
        x.same_as(&y),
    ensures
        amount_in(assets, x) == amount_in(assets, y),
        index_in(assets, x) == index_in(assets, y),
    decreases assets.len(),
{
    if assets.len() > 0 {
        lemma_lookup_respects_identity(assets.subrange(1, assets.len() as int), x, y);
    }
}

/// Position of the first entry of `assets` that is `info`.
pub fn find_index(assets: &Vec<Asset>, info: &AssetInfo) -> (r: Option<usize>)
    ensures
        r is Some <==> index_in(assets@, *info) >= 0,
        r is Some ==> r->0 == index_in(assets@, *info),
{
    let mut j: usize = 0;
    assert(assets@.subrange(0, assets@.len() as int) =~= assets@);
    while j < assets.len()
        invariant
            j <= assets@.len(),
            index_in(assets@, *info) == ({
                let r = index_in(assets@.subrange(j as int, assets@.len() as int), *info);
                if r < 0 {
                    -1
                } else {
                    r + j
                }
            }),
        decreases assets.len() - j,
    {
        let ghost rest = assets@.subrange(j as int, assets@.len() as int);
        assert(rest[0] == assets@[j as int]);
        if assets[j].info.equal(info) {
            return Some(j);
        }
        assert(rest.subrange(1, rest.len() as int) =~= assets@.subrange(j + 1, assets@.len() as int));
        j = j + 1;
    }
    assert(assets@.subrange(j as int, assets@.len() as int).len() == 0);
    None
}

/// The UTF-8 bytes of an identity's text.
pub open spec fn label_bytes(info: AssetInfo) -> Seq<u8> {
    encode_utf8(info.label())
}

impl AssetInfo {
    /// The UTF-8 bytes of the denomination or the contract address.
    pub fn label_bytes(&self) -> (r: Vec<u8>)
        ensures
            r@ == label_bytes(*self),
    {
        match self {
            AssetInfo::NativeToken { denom } => slice_to_vec(denom.as_str().as_bytes()),
            AssetInfo::Token { contract_addr } => slice_to_vec(contract_addr.as_str().as_bytes()),
        }
    }
}

/// Amount of the first coin of `funds` in `denom`, or zero if none is.
pub open spec fn coin_amount_in(funds: Seq<Coin>, denom: Seq<char>) -> int
    decreases funds.len(),
{
    if funds.len() == 0 {
        0
    } else if funds[0].denom@ == denom {
        funds[0].amount as int
    } else {
        coin_amount_in(funds.subrange(1, funds.len() as int), denom)
    }
}

/// The amount of native funds in `denom` among `funds`: that of its first
/// coin in `denom`, or zero.
pub fn find_coin_amount(funds: &Vec<Coin>, denom: &String) -> (r: u128)
    ensures
        r == coin_amount_in(funds@, denom@),
{
    let mut j: usize = 0;
    assert(funds@.subrange(0, funds@.len() as int) =~= funds@);
    while j < funds.len()
        invariant
            j <= funds@.len(),
            coin_amount_in(funds@, denom@) == coin_amount_in(
                funds@.subrange(j as int, funds@.len() as int),
                denom@,
            ),
        decreases funds.len() - j,
    {
        let ghost rest = funds@.subrange(j as int, funds@.len() as int);
        assert(rest[0] == funds@[j as int]);
        if funds[j].denom.eq(denom) {
            return funds[j].amount;
        }
        assert(rest.subrange(1, rest.len() as int) =~= funds@.subrange(j + 1, funds@.len() as int));
        j = j + 1;
    }
    assert(funds@.subrange(j as int, funds@.len() as int).len() == 0);
    0
}

} // verus!
