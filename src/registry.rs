use vstd::prelude::*;

use crate::asset::{raw_bytes, AssetInfoRaw, AssetRaw, Coin, PairInfoRaw};
use crate::wire::{copy_range, parse_reply_address, reply_address};
use crate::bytes::{
    bytes_lt, compare_bytes, lemma_bytes_lt_irreflexive, lemma_bytes_lt_total,
    lemma_bytes_lt_transitive,
};

verus! {

/// Identifier that the registry gives the reply to a pool instantiation.
pub const CREATE_PAIR_REPLY_ID: u64 = 1;

/// Page size of the pair listing when none is asked for.
pub const DEFAULT_LIMIT: u32 = 10;

/// Largest page size of the pair listing.
pub const MAX_LIMIT: u32 = 30;

/// The registry's settings.
#[derive(Debug, PartialEq, Eq)]
pub struct Config {
    /// Canonical address of the only account that may change the registry.
    pub owner: Vec<u8>,
    pub pair_code_id: u64,
    pub token_code_id: u64,
}

/// A pool creation waiting for the host to report the new pool.
#[derive(Debug, PartialEq, Eq)]
pub struct TmpPairInfo {
    pub pair_key: Vec<u8>,
    pub assets: [AssetRaw; 2],
    pub asset_decimals: [u8; 2],
    /// The account that asked for the pool, which receives the share of
    /// its first deposit.
    pub sender: String,
}

/// A registered pool under its key.
#[derive(Debug, PartialEq, Eq)]
pub struct PairEntry {
    pub key: Vec<u8>,
    pub info: PairInfoRaw,
}

/// The precision of a native denomination, as the owner declared it.
#[derive(Debug, PartialEq, Eq)]
pub struct NativeDecimals {
    pub denom: String,
    pub decimals: u8,
}

/// Why the registry refused a request.
#[derive(Debug, PartialEq, Eq)]
pub enum RegistryError {
    Unauthorized,
    /// Both assets of a new pair are the same.
    SameAsset,
    /// The precision of the first asset is unknown.
    InvalidFirstAsset,
    /// The precision of the second asset is unknown.
    InvalidSecondAsset,
    /// The pair is registered already.
    AlreadyExists,
    /// Another creation waits for its reply.
    CreationPending,
    /// A reply under an identifier that the registry never gave.
    InvalidReplyId,
    /// A reply arrived while no creation was waiting for it.
    NoPendingCreation,
    /// The reply does not hold the address of the new pool.
    MalformedReply,
    /// No pair is registered under the key asked for.
    PairNotFound,
    /// No precision is declared for the denomination asked for.
    DenomNotFound,
    /// The registry holds none of the denomination it is asked to declare.
    ZeroBalance,
}

/// What the host is asked to do to bring a new pool up.
#[derive(Debug, PartialEq, Eq)]
pub struct InstantiatePair {
    pub code_id: u64,
    pub token_code_id: u64,
    pub asset_infos: [AssetInfoRaw; 2],
    pub asset_decimals: [u8; 2],
    pub reply_id: u64,
}

/// What the host is asked to do to move an existing pool to other code.
#[derive(Debug, PartialEq, Eq)]
pub struct MigratePair {
    pub contract: String,
    pub code_id: u64,
}

/// A step of the first deposit into a new pool.
#[derive(Debug, PartialEq, Eq)]
pub enum CreationMsg {
    /// Let `spender` draw `amount` of the token at `token`.
    IncreaseAllowance { token: Vec<u8>, spender: String, amount: u128 },
    /// Draw `amount` of the token at `token` from `owner` to the registry.
    TransferFrom { token: Vec<u8>, owner: String, amount: u128 },
    /// Deposit both assets into the pool, with `funds` attached, minting its
    /// share to `receiver`.
    ProvideLiquidity {
        pair_contract: String,
        assets: [AssetRaw; 2],
        receiver: String,
        funds: Vec<Coin>,
    },
}

/// The pool registry: its settings, the registered pools in ascending key
/// order, the creation under way, and the declared native precisions.
pub struct Registry {
    pub config: Config,
    pub pairs: Vec<PairEntry>,
    pub pending: Option<TmpPairInfo>,
    pub native_decimals: Vec<NativeDecimals>,
}

/// The precision of `info`: declared by the owner for a native
/// denomination that the registry holds some of (`balance`), reported by the
/// token contract (`token_decimals`) for a token.
pub open spec fn resolved_decimals(
    table: Seq<NativeDecimals>,
    info: AssetInfoRaw,
    token_decimals: Option<u8>,
    balance: u128,
) -> Option<u8> {
    match info {
        AssetInfoRaw::NativeToken { denom } => if balance == 0 {
            None
        } else {
            declared_decimals(table, denom@)
        },
        AssetInfoRaw::Token { .. } => token_decimals,
    }
}

/// `m` lets `spender` draw the declared amount of the token asset `a`.
pub open spec fn is_allowance(m: CreationMsg, a: AssetRaw, spender: String) -> bool {
    match m {
        CreationMsg::IncreaseAllowance { token, spender: s, amount } => {
            &&& a.info is Token
            &&& token@ == raw_bytes(&a.info)
            &&& s == spender
            &&& amount == a.amount
        },
        _ => false,
    }
}

/// `m` draws the declared amount of the token asset `a` from `owner`.
pub open spec fn is_pull(m: CreationMsg, a: AssetRaw, owner: String) -> bool {
    match m {
        CreationMsg::TransferFrom { token, owner: o, amount } => {
            &&& a.info is Token
            &&& token@ == raw_bytes(&a.info)
            &&& o == owner
            &&& amount == a.amount
        },
        _ => false,
    }
}

/// Number of steps that bring the asset `a` to the registry: two for a
/// token, none for native funds, which travel with the call.
pub open spec fn pull_steps(a: AssetRaw) -> int {
    if a.info is Token {
        2
    } else {
        0
    }
}

/// `c` carries the native asset `a`.
pub open spec fn coin_of(c: Coin, a: AssetRaw) -> bool {
    &&& a.info is NativeToken
    &&& c.denom@ == a.info->NativeToken_denom@
    &&& c.amount == a.amount
}

/// `funds` carries the native assets among `assets`, ordered by denomination.
pub open spec fn funds_of(funds: Seq<Coin>, assets: [AssetRaw; 2]) -> bool {
    let n0 = assets[0].info is NativeToken;
    let n1 = assets[1].info is NativeToken;
    if n0 && n1 {
        &&& funds.len() == 2
        &&& if bytes_lt(raw_bytes(&assets[1].info), raw_bytes(&assets[0].info)) {
            coin_of(funds[0], assets[1]) && coin_of(funds[1], assets[0])
        } else {
            coin_of(funds[0], assets[0]) && coin_of(funds[1], assets[1])
        }
    } else if n0 {
        funds.len() == 1 && coin_of(funds[0], assets[0])
    } else if n1 {
        funds.len() == 1 && coin_of(funds[0], assets[1])
    } else {
        funds.len() == 0
    }
}

/// `msgs` is the first deposit of `tmp` into the pool at `pair_contract`:
/// nothing when no amount was given; else, for each token asset in turn, an
/// allowance for the pool and a draw from the depositor, then one deposit of
/// both assets, with the native funds attached and the depositor as receiver.
pub open spec fn first_deposit(msgs: Seq<CreationMsg>, tmp: TmpPairInfo, pair_contract: String) -> bool {
    let a0 = tmp.assets[0];
    let a1 = tmp.assets[1];
    if a0.amount == 0 && a1.amount == 0 {
        msgs.len() == 0
    } else {
        let n0 = pull_steps(a0);
        let n1 = pull_steps(a1);
        &&& msgs.len() == n0 + n1 + 1
        &&& a0.info is Token ==> is_allowance(msgs[0], a0, pair_contract) && is_pull(
            msgs[1],
            a0,
            tmp.sender,
        )
        &&& a1.info is Token ==> is_allowance(msgs[n0], a1, pair_contract) && is_pull(
            msgs[n0 + 1],
            a1,
            tmp.sender,
        )
        &&& match msgs[n0 + n1] {
            CreationMsg::ProvideLiquidity { pair_contract: p, assets, receiver, funds } => {
                &&& p == pair_contract
                &&& assets[0].same_as(&a0)
                &&& assets[1].same_as(&a1)
                &&& receiver == tmp.sender
                &&& funds_of(funds@, tmp.assets)
            },
            _ => false,
        }
    }
}

/// `key` comes strictly after the key of the cursor pair `start_after`, if
/// one is given.
pub open spec fn after_bound(start_after: Option<[AssetInfoRaw; 2]>, key: Seq<u8>) -> bool {
    match start_after {
        Some(s) => bytes_lt(key_of(s), key),
        None => true,
    }
}

/// The pools from `start` on are those after the bound.
pub open spec fn is_page_start(
    pairs: Seq<PairEntry>,
    start_after: Option<[AssetInfoRaw; 2]>,
    start: int,
) -> bool {
    &&& 0 <= start <= pairs.len()
    &&& forall|k: int| 0 <= k < start ==> !after_bound(start_after, #[trigger] pairs[k].key@)
    &&& forall|k: int| start <= k < pairs.len() ==> after_bound(start_after, #[trigger] pairs[k].key@)
}

/// Registered pools in strictly ascending key order.
pub open spec fn pairs_sorted(pairs: Seq<PairEntry>) -> bool {
    forall|i: int, j: int|
        0 <= i < j < pairs.len() ==> bytes_lt(#[trigger] pairs[i].key@, #[trigger] pairs[j].key@)
}

/// Some pool is registered under `key`.
pub open spec fn has_key(pairs: Seq<PairEntry>, key: Seq<u8>) -> bool {
    exists|i: int| 0 <= i < pairs.len() && #[trigger] pairs[i].key@ == key
}

/// Each denomination is declared at most once.
pub open spec fn denoms_unique(table: Seq<NativeDecimals>) -> bool {
    forall|i: int, j: int|
        0 <= i < j < table.len() ==> #[trigger] table[i].denom@ != #[trigger] table[j].denom@
}

/// The declared precision of `denom`, if any.
pub open spec fn declared_decimals(table: Seq<NativeDecimals>, denom: Seq<char>) -> Option<u8> {
    if exists|i: int| 0 <= i < table.len() && #[trigger] table[i].denom@ == denom {
        let i = choose|i: int| 0 <= i < table.len() && #[trigger] table[i].denom@ == denom;
        Some(table[i].decimals)
    } else {
        None
    }
}

impl Registry {
    /// The registry's invariant.
    pub open spec fn wf(&self) -> bool {
        &&& pairs_sorted(self.pairs@)
        &&& denoms_unique(self.native_decimals@)
    }

    /// A registry owned by `owner`, with no pools and no declared precision.
    pub fn new(owner: Vec<u8>, pair_code_id: u64, token_code_id: u64) -> (r: Registry)
        ensures
            r.wf(),
            r.config.owner@ == owner@,
            r.config.pair_code_id == pair_code_id,
            r.config.token_code_id == token_code_id,
            r.pairs@.len() == 0,
            r.pending is None,
            r.native_decimals@.len() == 0,
    {
        Registry {
            config: Config { owner, pair_code_id, token_code_id },
            pairs: Vec::new(),
            pending: None,
            native_decimals: Vec::new(),
        }
    }

    /// Whether the registry's invariant holds: pool keys strictly ascending,
    /// each denomination declared once. A registry read back from storage is
    /// checked with this before use.
    pub fn is_well_formed(&self) -> (r: bool)
        ensures
            r == self.wf(),
    {
        let n = self.pairs.len();
        let mut i: usize = 1;
        while i < n
            invariant
                n == self.pairs@.len(),
                1 <= i,
                forall|a: int, b: int|
                    0 <= a < b < i && b < n ==> bytes_lt(
                        #[trigger] self.pairs@[a].key@,
                        #[trigger] self.pairs@[b].key@,
                    ),
            decreases n - i,
        {
            if compare_bytes(&self.pairs[i - 1].key, &self.pairs[i].key) >= 0 {
                return false;
            }
            assert forall|a: int, b: int| 0 <= a < b < i + 1 && b < n implies bytes_lt(
                #[trigger] self.pairs@[a].key@,
                #[trigger] self.pairs@[b].key@,
            ) by {
                if b == i && a < i - 1 {
                    lemma_bytes_lt_transitive(
                        self.pairs@[a].key@,
                        self.pairs@[i - 1].key@,
                        self.pairs@[b].key@,
                    );
                }
            }
            i = i + 1;
        }
        let t = self.native_decimals.len();
        let mut j: usize = 0;
        while j < t
            invariant
                t == self.native_decimals@.len(),
                pairs_sorted(self.pairs@),
                forall|a: int, b: int|
                    0 <= a < b < j && b < t ==> #[trigger] self.native_decimals@[a].denom@
                        != #[trigger] self.native_decimals@[b].denom@,
            decreases t - j,
        {
            let mut k: usize = 0;
            while k < j
                invariant
                    t == self.native_decimals@.len(),
                    k <= j < t,
                    forall|a: int| 0 <= a < k ==> self.native_decimals@[a].denom@ != #[trigger] self.native_decimals@[j as int].denom@,
                decreases j - k,
            {
                if self.native_decimals[k].denom.eq(&self.native_decimals[j].denom) {
                    return false;
                }
                k = k + 1;
            }
            j = j + 1;
        }
        true
    }

    /// Whether `sender` is the owner.
    fn is_owner(&self, sender: &Vec<u8>) -> (r: bool)
        ensures
            r == (sender@ == self.config.owner@),
    {
        compare_bytes(sender, &self.config.owner) == 0
    }

    /// Lets the owner replace any of the settings; those not given stay.
    pub fn execute_update_config(
        &mut self,
        sender: &Vec<u8>,
        owner: Option<Vec<u8>>,
        token_code_id: Option<u64>,
        pair_code_id: Option<u64>,
    ) -> (r: Result<(), RegistryError>)
        ensures
            r is Err <==> sender@ != old(self).config.owner@,
            r is Err ==> r->Err_0 == RegistryError::Unauthorized && *final(self) == *old(self),
            r is Ok ==> {
                &&& final(self).config.owner@ == (match owner {
                    Some(o) => o@,
                    None => old(self).config.owner@,
                })
                &&& final(self).config.token_code_id == (match token_code_id {
                    Some(c) => c,
                    None => old(self).config.token_code_id,
                })
                &&& final(self).config.pair_code_id == (match pair_code_id {
                    Some(c) => c,
                    None => old(self).config.pair_code_id,
                })
                &&& final(self).pairs == old(self).pairs
                &&& final(self).pending == old(self).pending
                &&& final(self).native_decimals == old(self).native_decimals
            },
    {
        if !self.is_owner(sender) {
            return Err(RegistryError::Unauthorized);
        }
        if let Some(o) = owner {
            self.config.owner = o;
        }
        if let Some(c) = token_code_id {
            self.config.token_code_id = c;
        }
        if let Some(c) = pair_code_id {
            self.config.pair_code_id = c;
        }
        Ok(())
    }

    /// Index of the declaration of `denom`, if there is one.
    fn find_denom(&self, denom: &String) -> (r: Option<usize>)
        ensures
            r is Some ==> r->0 < self.native_decimals@.len() && self.native_decimals@[r->0 as int].denom@
                == denom@,
            r is None ==> forall|i: int|
                0 <= i < self.native_decimals@.len() ==> #[trigger] self.native_decimals@[i].denom@
                    != denom@,
    {
        let mut i: usize = 0;
        while i < self.native_decimals.len()
            invariant
                i <= self.native_decimals@.len(),
                forall|k: int| 0 <= k < i ==> #[trigger] self.native_decimals@[k].denom@ != denom@,
            decreases self.native_decimals.len() - i,
        {
            if self.native_decimals[i].denom.eq(denom) {
                return Some(i);
            }
            i = i + 1;
        }
        None
    }

    /// The declared precision of the native denomination `denom`.
    pub fn query_native_token_decimal(&self, denom: &String) -> (r: Result<u8, RegistryError>)
        requires
            self.wf(),
        ensures
            r is Ok <==> declared_decimals(self.native_decimals@, denom@) is Some,
            r is Ok ==> r->Ok_0 == declared_decimals(self.native_decimals@, denom@)->0,
            r is Err ==> r->Err_0 == RegistryError::DenomNotFound,
    {
        match self.find_denom(denom) {
            Some(i) => {
                proof {
                    self.lemma_declared_at(denom@, i as int);
                }
                Ok(self.native_decimals[i].decimals)
            },
            None => Err(RegistryError::DenomNotFound),
        }
    }

    /// Where `denom` is declared at `i`, the declared precision is that one.
    proof fn lemma_declared_at(&self, denom: Seq<char>, i: int)
        requires
            self.wf(),
            0 <= i < self.native_decimals@.len(),
            self.native_decimals@[i].denom@ == denom,
        ensures
            declared_decimals(self.native_decimals@, denom) == Some(self.native_decimals@[i].decimals),
    {
        let t = self.native_decimals@;
        assert(exists|k: int| 0 <= k < t.len() && #[trigger] t[k].denom@ == denom);
        let c = choose|k: int| 0 <= k < t.len() && #[trigger] t[k].denom@ == denom;
        if c < i {
            assert(t[c].denom@ != t[i].denom@);
        } else if i < c {
            assert(t[i].denom@ != t[c].denom@);
        }
    }

    /// Lets the owner declare the precision of a native denomination, or
    /// change it. `balance` is what the registry holds of `denom`: it must
    /// hold some, so that only a denomination that exists is declared.
    pub fn execute_add_native_token_decimals(
        &mut self,
        sender: &Vec<u8>,
        denom: String,
        decimals: u8,
        balance: u128,
    ) -> (r: Result<(), RegistryError>)
        requires
            old(self).wf(),
        ensures
            final(self).wf(),
            r is Ok <==> (sender@ == old(self).config.owner@ && balance > 0),
            r is Err ==> *final(self) == *old(self),
            r is Err ==> r->Err_0 == (if sender@ != old(self).config.owner@ {
                RegistryError::Unauthorized
            } else {
                RegistryError::ZeroBalance
            }),
            r is Ok ==> {
                &&& declared_decimals(final(self).native_decimals@, denom@) == Some(decimals)
                &&& forall|d: Seq<char>|
                    d != denom@ ==> #[trigger] declared_decimals(final(self).native_decimals@, d)
                        == declared_decimals(old(self).native_decimals@, d)
                &&& final(self).config == old(self).config
                &&& final(self).pairs == old(self).pairs
                &&& final(self).pending == old(self).pending
            },
    {
        if !self.is_owner(sender) {
            return Err(RegistryError::Unauthorized);
        }
        if balance == 0 {
            return Err(RegistryError::ZeroBalance);
        }
        let ghost before = self.native_decimals@;
        let ghost idx: int;
        let ghost name = denom@;
        match self.find_denom(&denom) {
            Some(i) => {
                self.native_decimals.set(i, NativeDecimals { denom, decimals });
                proof {
                    idx = i as int;
                }
            },
            None => {
                self.native_decimals.push(NativeDecimals { denom, decimals });
                proof {
                    idx = before.len() as int;
                }
            },
        }
        let ghost after = self.native_decimals@;
        assert(after[idx].denom@ == name);
        assert(denoms_unique(after));
        assert forall|d: Seq<char>| true implies #[trigger] declared_decimals(after, d) == (if d
            == name {
            Some(decimals)
        } else {
            declared_decimals(before, d)
        }) by {
            if d == name {
                self.lemma_declared_at(name, idx);
            } else {
                self.lemma_declared_any(before, d, name);
            }
        }
        Ok(())
    }

    /// How the declared precisions change under one declaration.
    proof fn lemma_declared_any(&self, before: Seq<NativeDecimals>, d: Seq<char>, denom: Seq<char>)
        requires
            self.wf(),
            denoms_unique(before),
            exists|i: int| 0 <= i < self.native_decimals@.len() && #[trigger] self.native_decimals@[i].denom@ == denom,
            forall|i: int| 0 <= i < self.native_decimals@.len() && #[trigger] self.native_decimals@[i].denom@ != denom ==> i < before.len() && before[i] == self.native_decimals@[i],
            forall|i: int| 0 <= i < before.len() && #[trigger] before[i].denom@ != denom ==> i < self.native_decimals@.len() && before[i] == self.native_decimals@[i],
        ensures
            d != denom ==> declared_decimals(self.native_decimals@, d) == declared_decimals(before, d),
    {
        let t = self.native_decimals@;
        if d != denom {
            if exists|k: int| 0 <= k < before.len() && #[trigger] before[k].denom@ == d {
                let k = choose|k: int| 0 <= k < before.len() && #[trigger] before[k].denom@ == d;
                assert(t[k] == before[k]);
                self.lemma_declared_at(d, k);
                let c = choose|k: int| 0 <= k < before.len() && #[trigger] before[k].denom@ == d;
                if c < k {
                    assert(before[c].denom@ != before[k].denom@);
                } else if k < c {
                    assert(before[k].denom@ != before[c].denom@);
                }
            } else {
                assert forall|k: int| 0 <= k < t.len() implies #[trigger] t[k].denom@ != d by {
                    if t[k].denom@ == d {
                        assert(before[k] == t[k]);
                    }
                }
            }
        }
    }

    /// Index of the pool registered under `key`, if there is one.
    fn find_key(&self, key: &Vec<u8>) -> (r: Option<usize>)
        ensures
            r is Some ==> r->0 < self.pairs@.len() && self.pairs@[r->0 as int].key@ == key@,
            r is None <==> !has_key(self.pairs@, key@),
    {
        let mut i: usize = 0;
        while i < self.pairs.len()
            invariant
                i <= self.pairs@.len(),
                forall|k: int| 0 <= k < i ==> #[trigger] self.pairs@[k].key@ != key@,
            decreases self.pairs.len() - i,
        {
            if compare_bytes(&self.pairs[i].key, key) == 0 {
                return Some(i);
            }
            i = i + 1;
        }
        None
    }

    /// The precision of `info`, with `token_decimals` standing for what a
    /// token contract reports and `balance` for what the registry holds of a
    /// native denomination.
    fn resolve_decimals(&self, info: &AssetInfoRaw, token_decimals: Option<u8>, balance: u128) -> (r:
        Option<u8>)
        requires
            self.wf(),
        ensures
            r == resolved_decimals(self.native_decimals@, *info, token_decimals, balance),
    {
        match info {
            AssetInfoRaw::NativeToken { .. } if balance == 0 => None,
            AssetInfoRaw::NativeToken { denom } => match self.query_native_token_decimal(denom) {
                Ok(d) => Some(d),
                Err(_) => None,
            },
            AssetInfoRaw::Token { .. } => token_decimals,
        }
    }

    /// Starts the creation of a pool for the two `assets`, with the amounts
    /// to deposit once it exists; `token_decimals` holds what each token
    /// contract reports of its precision, and `balances` what the registry
    /// holds of each native denomination: a native asset is usable only with
    /// a declared precision and a balance above zero. The creation waits for
    /// the host's reply, and the host is asked to instantiate the pool.
    pub fn execute_create_pair(
        &mut self,
        assets: [AssetRaw; 2],
        token_decimals: [Option<u8>; 2],
        balances: [u128; 2],
        sender: String,
    ) -> (r: Result<InstantiatePair, RegistryError>)
        requires
            old(self).wf(),
        ensures
            final(self).wf(),
            ({
                let table = old(self).native_decimals@;
                let d0 = resolved_decimals(table, assets[0].info, token_decimals[0], balances[0]);
                let d1 = resolved_decimals(table, assets[1].info, token_decimals[1], balances[1]);
                let key = key_of([assets[0].info, assets[1].info]);
                let expected: Result<(), RegistryError> = if assets[0].info.same_as(&assets[1].info) {
                    Err(RegistryError::SameAsset)
                } else if d0 is None {
                    Err(RegistryError::InvalidFirstAsset)
                } else if d1 is None {
                    Err(RegistryError::InvalidSecondAsset)
                } else if has_key(old(self).pairs@, key) {
                    Err(RegistryError::AlreadyExists)
                } else if old(self).pending is Some {
                    Err(RegistryError::CreationPending)
                } else {
                    Ok(())
                };
                &&& r is Ok <==> expected is Ok
                &&& r is Err ==> r->Err_0 == expected->Err_0 && *final(self) == *old(self)
                &&& r is Ok ==> {
                    let msg = r->Ok_0;
                    &&& final(self).pending == Some(
                        TmpPairInfo {
                            pair_key: final(self).pending->0.pair_key,
                            assets,
                            asset_decimals: [d0->0, d1->0],
                            sender,
                        },
                    )
                    &&& final(self).pending->0.pair_key@ == key
                    &&& msg.code_id == old(self).config.pair_code_id
                    &&& msg.token_code_id == old(self).config.token_code_id
                    &&& msg.asset_infos[0].same_as(&assets[0].info)
                    &&& msg.asset_infos[1].same_as(&assets[1].info)
                    &&& msg.asset_decimals == [d0->0, d1->0]
                    &&& msg.reply_id == CREATE_PAIR_REPLY_ID
                    &&& final(self).config == old(self).config
                    &&& final(self).pairs == old(self).pairs
                    &&& final(self).native_decimals == old(self).native_decimals
                }
            }),
    {
        let a0 = assets[0].info.as_bytes();
        let a1 = assets[1].info.as_bytes();
        if assets[0].info.is_native_token() == assets[1].info.is_native_token() && compare_bytes(
            &a0,
            &a1,
        ) == 0 {
            return Err(RegistryError::SameAsset);
        }
        let d0 = match self.resolve_decimals(&assets[0].info, token_decimals[0], balances[0]) {
            Some(d) => d,
            None => return Err(RegistryError::InvalidFirstAsset),
        };
        let d1 = match self.resolve_decimals(&assets[1].info, token_decimals[1], balances[1]) {
            Some(d) => d,
            None => return Err(RegistryError::InvalidSecondAsset),
        };
        let infos = [assets[0].info.duplicate(), assets[1].info.duplicate()];
        let key = pair_key(&infos);
        proof {
            assert(raw_bytes(&infos[0]) == raw_bytes(&assets[0].info));
            assert(raw_bytes(&infos[1]) == raw_bytes(&assets[1].info));
        }
        if self.find_key(&key).is_some() {
            return Err(RegistryError::AlreadyExists);
        }
        if self.pending.is_some() {
            return Err(RegistryError::CreationPending);
        }
        let msg = InstantiatePair {
            code_id: self.config.pair_code_id,
            token_code_id: self.config.token_code_id,
            asset_infos: infos,
            asset_decimals: [d0, d1],
            reply_id: CREATE_PAIR_REPLY_ID,
        };
        self.pending = Some(TmpPairInfo { pair_key: key, assets, asset_decimals: [d0, d1], sender });
        Ok(msg)
    }

    /// Takes up the host's reply to a pool instantiation: the reply must
    /// carry the registry's identifier, a creation must be waiting, and the
    /// reply must name the new pool. The waiting creation is consumed and
    /// returned with the pool's address.
    pub fn reply(&mut self, id: u64, data: &Vec<u8>) -> (r: Result<(TmpPairInfo, Vec<u8>), RegistryError>)
        requires
            old(self).wf(),
        ensures
            final(self).wf(),
            ({
                let expected: Result<(), RegistryError> = if id != CREATE_PAIR_REPLY_ID {
                    Err(RegistryError::InvalidReplyId)
                } else if old(self).pending is None {
                    Err(RegistryError::NoPendingCreation)
                } else if reply_address(data@) is None {
                    Err(RegistryError::MalformedReply)
                } else {
                    Ok(())
                };
                &&& r is Ok <==> expected is Ok
                &&& r is Err ==> r->Err_0 == expected->Err_0 && *final(self) == *old(self)
                &&& r is Ok ==> {
                    &&& r->Ok_0.0 == old(self).pending->0
                    &&& r->Ok_0.1@ == reply_address(data@)->0
                    &&& final(self).pending is None
                    &&& final(self).config == old(self).config
                    &&& final(self).pairs == old(self).pairs
                    &&& final(self).native_decimals == old(self).native_decimals
                }
            }),
    {
        if id != CREATE_PAIR_REPLY_ID {
            return Err(RegistryError::InvalidReplyId);
        }
        if self.pending.is_none() {
            return Err(RegistryError::NoPendingCreation);
        }
        let address = match parse_reply_address(data) {
            Some(a) => a,
            None => return Err(RegistryError::MalformedReply),
        };
        let tmp = self.pending.take();
        match tmp {
            Some(t) => Ok((t, address)),
            None => Err(RegistryError::NoPendingCreation),
        }
    }

    /// Registers `info` under `key`, in key order, replacing what was there.
    fn store_pair(&mut self, key: Vec<u8>, info: PairInfoRaw)
        requires
            old(self).wf(),
        ensures
            final(self).wf(),
            exists|i: int|
                0 <= i < final(self).pairs@.len() && #[trigger] final(self).pairs@[i].key@ == key@
                    && final(self).pairs@[i].info == info,
            forall|i: int|
                0 <= i < old(self).pairs@.len() && #[trigger] old(self).pairs@[i].key@ != key@
                    ==> final(self).pairs@.contains(old(self).pairs@[i]),
            forall|j: int|
                0 <= j < final(self).pairs@.len() && #[trigger] final(self).pairs@[j].key@ != key@
                    ==> old(self).pairs@.contains(final(self).pairs@[j]),
            final(self).config == old(self).config,
            final(self).pending == old(self).pending,
            final(self).native_decimals == old(self).native_decimals,
    {
        let mut i: usize = 0;
        while i < self.pairs.len() && compare_bytes(&self.pairs[i].key, &key) < 0
            invariant
                i <= self.pairs@.len(),
                forall|k: int| 0 <= k < i ==> bytes_lt(#[trigger] self.pairs@[k].key@, key@),
            decreases self.pairs.len() - i,
        {
            i = i + 1;
        }
        let ghost before = self.pairs@;
        let ghost k = key@;
        if i < self.pairs.len() && compare_bytes(&self.pairs[i].key, &key) == 0 {
            self.pairs.set(i, PairEntry { key, info });
            let ghost after = self.pairs@;
            assert(after[i as int].key@ == k);
            assert forall|a: int, b: int| 0 <= a < b < after.len() implies bytes_lt(
                #[trigger] after[a].key@,
                #[trigger] after[b].key@,
            ) by {
                assert(bytes_lt(before[a].key@, before[b].key@));
            }
            assert forall|a: int| 0 <= a < before.len() && #[trigger] before[a].key@ != k implies after.contains(before[a]) by {
                assert(after[a] == before[a]);
            }
            assert forall|b: int| 0 <= b < after.len() && #[trigger] after[b].key@ != k implies before.contains(after[b]) by {
                assert(after[b] == before[b]);
            }
        } else {
            proof {
                if i < before.len() {
                    lemma_bytes_lt_total(before[i as int].key@, k);
                }
            }
            self.pairs.insert(i, PairEntry { key, info });
            let ghost after = self.pairs@;
            assert(after[i as int].key@ == k);
            assert forall|a: int, b: int| 0 <= a < b < after.len() implies bytes_lt(
                #[trigger] after[a].key@,
                #[trigger] after[b].key@,
            ) by {
                if b < i {
                    assert(bytes_lt(before[a].key@, before[b].key@));
                } else if b == i {
                    assert(bytes_lt(before[a].key@, k));
                } else if a == i {
                    if b - 1 > i {
                        assert(bytes_lt(before[i as int].key@, before[b - 1].key@));
                        lemma_bytes_lt_transitive(k, before[i as int].key@, before[b - 1].key@);
                    }
                } else if a < i {
                    assert(bytes_lt(before[a].key@, k));
                    assert(bytes_lt(k, before[i as int].key@));
                    lemma_bytes_lt_transitive(before[a].key@, k, before[i as int].key@);
                    if b - 1 > i {
                        assert(bytes_lt(before[i as int].key@, before[b - 1].key@));
                        lemma_bytes_lt_transitive(before[a].key@, before[i as int].key@, before[b - 1].key@);
                    }
                } else {
                    assert(bytes_lt(before[a - 1].key@, before[b - 1].key@));
                }
            }
            assert forall|a: int| 0 <= a < before.len() && #[trigger] before[a].key@ != k implies after.contains(before[a]) by {
                if a < i {
                    assert(after[a] == before[a]);
                } else {
                    assert(after[a + 1] == before[a]);
                }
            }
            assert forall|b: int| 0 <= b < after.len() && #[trigger] after[b].key@ != k implies before.contains(after[b]) by {
                if b < i {
                    assert(after[b] == before[b]);
                } else {
                    assert(b != i);
                    assert(after[b] == before[b - 1]);
                }
            }
        }
    }

    /// Completes a creation taken up by [`Registry::reply`]: registers the
    /// pool at `pair_contract` (canonically `contract_addr`), whose share
    /// token is `liquidity_token`, and returns the steps of the depositor's
    /// first deposit into it.
    pub fn finish_pair_creation(
        &mut self,
        tmp: TmpPairInfo,
        pair_contract: String,
        contract_addr: Vec<u8>,
        liquidity_token: Vec<u8>,
    ) -> (r: Vec<CreationMsg>)
        requires
            old(self).wf(),
        ensures
            final(self).wf(),
            exists|i: int|
                0 <= i < final(self).pairs@.len() && #[trigger] final(self).pairs@[i].key@
                    == tmp.pair_key@ && ({
                    let info = final(self).pairs@[i].info;
                    &&& info.asset_infos[0].same_as(&tmp.assets[0].info)
                    &&& info.asset_infos[1].same_as(&tmp.assets[1].info)
                    &&& info.contract_addr@ == contract_addr@
                    &&& info.liquidity_token@ == liquidity_token@
                    &&& info.asset_decimals == tmp.asset_decimals
                }),
            forall|i: int|
                0 <= i < old(self).pairs@.len() && #[trigger] old(self).pairs@[i].key@
                    != tmp.pair_key@ ==> final(self).pairs@.contains(old(self).pairs@[i]),
            forall|j: int|
                0 <= j < final(self).pairs@.len() && #[trigger] final(self).pairs@[j].key@
                    != tmp.pair_key@ ==> old(self).pairs@.contains(final(self).pairs@[j]),
            final(self).config == old(self).config,
            final(self).pending == old(self).pending,
            final(self).native_decimals == old(self).native_decimals,
            first_deposit(r@, tmp, pair_contract),
    {
        let info = PairInfoRaw {
            asset_infos: [tmp.assets[0].info.duplicate(), tmp.assets[1].info.duplicate()],
            contract_addr,
            liquidity_token,
            asset_decimals: tmp.asset_decimals,
        };
        let key = copy_range(&tmp.pair_key, 0, tmp.pair_key.len());
        proof {
            assert(tmp.pair_key@.subrange(0, tmp.pair_key@.len() as int) =~= tmp.pair_key@);
        }
        self.store_pair(key, info);
        let mut msgs: Vec<CreationMsg> = Vec::new();
        if tmp.assets[0].amount == 0 && tmp.assets[1].amount == 0 {
            return msgs;
        }
        push_pulls(&mut msgs, &tmp.assets[0], &pair_contract, &tmp.sender);
        push_pulls(&mut msgs, &tmp.assets[1], &pair_contract, &tmp.sender);
        let funds = native_funds(&tmp.assets);
        msgs.push(
            CreationMsg::ProvideLiquidity {
                pair_contract: pair_contract.clone(),
                assets: [tmp.assets[0].duplicate(), tmp.assets[1].duplicate()],
                receiver: tmp.sender.clone(),
                funds,
            },
        );
        msgs
    }

    /// The pool registered for the pair `asset_infos`, in either order.
    pub fn query_pair(&self, asset_infos: &[AssetInfoRaw; 2]) -> (r: Result<PairInfoRaw, RegistryError>)
        ensures
            r is Ok <==> has_key(self.pairs@, key_of(*asset_infos)),
            r is Ok ==> exists|i: int|
                0 <= i < self.pairs@.len() && #[trigger] self.pairs@[i].key@ == key_of(*asset_infos)
                    && r->Ok_0.same_as(&self.pairs@[i].info),
            r is Err ==> r->Err_0 == RegistryError::PairNotFound,
    {
        let key = pair_key(asset_infos);
        match self.find_key(&key) {
            Some(i) => Ok(self.pairs[i].info.duplicate()),
            None => Err(RegistryError::PairNotFound),
        }
    }

    /// A page of the registered pools in ascending key order: those whose
    /// key comes strictly after the key of the cursor pair `start_after` (in
    /// either order of its assets), at most `limit` of them (ten when not
    /// given, never more than thirty).
    pub fn query_pairs(&self, start_after: Option<[AssetInfoRaw; 2]>, limit: Option<u32>) -> (r: Vec<
        PairInfoRaw,
    >)
        requires
            self.wf(),
        ensures
            ({
                let asked = match limit {
                    Some(l) => l as int,
                    None => DEFAULT_LIMIT as int,
                };
                let lim = if asked < MAX_LIMIT { asked } else { MAX_LIMIT as int };
                exists|start: int|
                    {
                        &&& #[trigger] is_page_start(self.pairs@, start_after, start)
                        &&& r@.len() == if self.pairs@.len() - start < lim {
                            self.pairs@.len() - start
                        } else {
                            lim
                        }
                        &&& forall|j: int|
                            0 <= j < r@.len() ==> #[trigger] r@[j].same_as(
                                &self.pairs@[start + j].info,
                            )
                    }
            }),
    {
        let asked: u32 = match limit {
            Some(l) => l,
            None => DEFAULT_LIMIT,
        };
        let lim: usize = if asked < MAX_LIMIT {
            asked as usize
        } else {
            MAX_LIMIT as usize
        };
        let bound = match &start_after {
            Some(infos) => Some(pair_key(infos)),
            None => None,
        };
        let mut start: usize = 0;
        match &bound {
            Some(b) => {
                while start < self.pairs.len() && compare_bytes(b, &self.pairs[start].key) >= 0
                    invariant
                        start <= self.pairs@.len(),
                        bound is Some,
                        start_after is Some,
                        b@ == key_of(start_after->0),
                        forall|k: int| 0 <= k < start ==> !after_bound(start_after, #[trigger] self.pairs@[k].key@),
                    decreases self.pairs.len() - start,
                {
                    assert(!bytes_lt(b@, self.pairs@[start as int].key@));
                    assert(!after_bound(start_after, self.pairs@[start as int].key@));
                    start = start + 1;
                }
                assert forall|k: int| start <= k < self.pairs@.len() implies after_bound(
                    start_after,
                    #[trigger] self.pairs@[k].key@,
                ) by {
                    if k > start {
                        assert(bytes_lt(self.pairs@[start as int].key@, self.pairs@[k].key@));
                        lemma_bytes_lt_transitive(b@, self.pairs@[start as int].key@, self.pairs@[k].key@);
                    }
                }
            },
            None => {},
        }
        assert(is_page_start(self.pairs@, start_after, start as int));
        let mut out: Vec<PairInfoRaw> = Vec::new();
        let mut i: usize = start;
        while i < self.pairs.len() && out.len() < lim
            invariant
                start <= i <= self.pairs@.len(),
                out@.len() == i - start,
                out@.len() <= lim,
                forall|j: int| 0 <= j < out@.len() ==> #[trigger] out@[j].same_as(&self.pairs@[start + j].info),
            decreases self.pairs.len() - i,
        {
            out.push(self.pairs[i].info.duplicate());
            i = i + 1;
        }
        out
    }

    /// Lets the owner move the pool at `contract` to other code: `code_id`,
    /// or the registry's pool code when none is given.
    pub fn execute_migrate_pair(&self, sender: &Vec<u8>, contract: String, code_id: Option<u64>) -> (r: Result<
        MigratePair,
        RegistryError,
    >)
        ensures
            r is Ok <==> sender@ == self.config.owner@,
            r is Err ==> r->Err_0 == RegistryError::Unauthorized,
            r is Ok ==> r->Ok_0 == (MigratePair {
                contract,
                code_id: match code_id {
                    Some(c) => c,
                    None => self.config.pair_code_id,
                },
            }),
    {
        if !self.is_owner(sender) {
            return Err(RegistryError::Unauthorized);
        }
        let code_id = match code_id {
            Some(c) => c,
            None => self.config.pair_code_id,
        };
        Ok(MigratePair { contract, code_id })
    }
}

/// Appends the steps that bring the token asset `a` to the registry; none
/// for a native asset.
fn push_pulls(msgs: &mut Vec<CreationMsg>, a: &AssetRaw, spender: &String, owner: &String)
    ensures
        final(msgs)@.len() == old(msgs)@.len() + pull_steps(*a),
        forall|i: int| 0 <= i < old(msgs)@.len() ==> #[trigger] final(msgs)@[i] == old(msgs)@[i],
        a.info is Token ==> {
            &&& is_allowance(final(msgs)@[old(msgs)@.len() as int], *a, *spender)
            &&& is_pull(final(msgs)@[old(msgs)@.len() as int + 1], *a, *owner)
        },
{
    match &a.info {
        AssetInfoRaw::Token { contract_addr } => {
            msgs.push(
                CreationMsg::IncreaseAllowance {
                    token: contract_addr.clone(),
                    spender: spender.clone(),
                    amount: a.amount,
                },
            );
            msgs.push(
                CreationMsg::TransferFrom {
                    token: contract_addr.clone(),
                    owner: owner.clone(),
                    amount: a.amount,
                },
            );
        },
        AssetInfoRaw::NativeToken { .. } => {},
    }
}

/// The coin that carries the native asset `a`.
fn coin_for(a: &AssetRaw) -> (r: Option<Coin>)
    ensures
        r is Some <==> a.info is NativeToken,
        r is Some ==> coin_of(r->0, *a),
{
    match &a.info {
        AssetInfoRaw::NativeToken { denom } => Some(Coin { denom: denom.clone(), amount: a.amount }),
        AssetInfoRaw::Token { .. } => None,
    }
}

/// The native funds among `assets`, ordered by denomination.
fn native_funds(assets: &[AssetRaw; 2]) -> (r: Vec<Coin>)
    ensures
        funds_of(r@, *assets),
{
    let mut funds: Vec<Coin> = Vec::new();
    let c0 = coin_for(&assets[0]);
    let c1 = coin_for(&assets[1]);
    match (c0, c1) {
        (Some(x), Some(y)) => {
            let b0 = assets[0].info.as_bytes();
            let b1 = assets[1].info.as_bytes();
            if compare_bytes(&b1, &b0) < 0 {
                funds.push(y);
                funds.push(x);
            } else {
                funds.push(x);
                funds.push(y);
            }
        },
        (Some(x), None) => {
            funds.push(x);
        },
        (None, Some(y)) => {
            funds.push(y);
        },
        (None, None) => {},
    }
    funds
}

/// The registry key of an unordered pair: the two canonical encodings,
/// the smaller first.
pub open spec fn key_of(asset_infos: [AssetInfoRaw; 2]) -> Seq<u8> {
    let a = raw_bytes(&asset_infos[0]);
    let b = raw_bytes(&asset_infos[1]);
    if bytes_lt(b, a) {
        b + a
    } else {
        a + b
    }
}

/// A pair and its reverse share one key.
pub proof fn lemma_key_of_symmetric(a: AssetInfoRaw, b: AssetInfoRaw)
    ensures
        key_of([a, b]) == key_of([b, a]),
{
    let x = raw_bytes(&a);
    let y = raw_bytes(&b);
    if x == y {
        lemma_bytes_lt_irreflexive(x);
    } else {
        lemma_bytes_lt_total(x, y);
        if bytes_lt(x, y) && bytes_lt(y, x) {
            lemma_bytes_lt_transitive(x, y, x);
            lemma_bytes_lt_irreflexive(x);
        }
    }
}

/// Appends the bytes of `src` to `dst`.
fn append_bytes(dst: &mut Vec<u8>, src: &Vec<u8>)
    ensures
        final(dst)@ == old(dst)@ + src@,
{
    let mut i: usize = 0;
    while i < src.len()
        invariant
            i <= src@.len(),
            dst@ == old(dst)@ + src@.subrange(0, i as int),
        decreases src.len() - i,
    {
        dst.push(src[i]);
        assert(src@.subrange(0, i + 1) =~= src@.subrange(0, i as int).push(src@[i as int]));
        i = i + 1;
    }
    assert(src@.subrange(0, i as int) =~= src@);
}

/// The registry key of the pair `asset_infos`: the same for both orders of
/// the two assets.
pub fn pair_key(asset_infos: &[AssetInfoRaw; 2]) -> (r: Vec<u8>)
    ensures
        r@ == key_of(*asset_infos),
{
    let a = asset_infos[0].as_bytes();
    let b = asset_infos[1].as_bytes();
    let mut key: Vec<u8> = Vec::new();
    if compare_bytes(&b, &a) < 0 {
        append_bytes(&mut key, &b);
        append_bytes(&mut key, &a);
    } else {
        append_bytes(&mut key, &a);
        append_bytes(&mut key, &b);
    }
    assert(Seq::<u8>::empty() + a@ + b@ =~= a@ + b@);
    assert(Seq::<u8>::empty() + b@ + a@ =~= b@ + a@);
    key
}

/// The exclusive lower bound of a page that starts after the pair
/// `start_after`: its key with one byte of value 1 appended.
pub fn calc_range_start(start_after: Option<[AssetInfoRaw; 2]>) -> (r: Option<Vec<u8>>)
    ensures
        r is Some <==> start_after is Some,
        r is Some ==> r->0@ == key_of(start_after->0).push(1),
{
    match start_after {
        Some(infos) => {
            let mut key = pair_key(&infos);
            key.push(1);
            Some(key)
        },
        None => None,
    }
}

} // verus!
