//! The ledger's NIGHT accounting: the pools, the treasury, unclaimed rewards,
//! funds arriving over the Cardano bridge, the UTXO set and contract
//! balances, whose NIGHT must always add up to the fixed supply; with the
//! system transactions that move NIGHT between them and the claims that turn
//! rewards and bridged funds into UTXOs.
use vstd::prelude::*;
use crate::hash::{HashOutput, UserAddress, ContractAddress, IntentHash, TokenType, UnshieldedTokenType, ShieldedTokenType, spec_night, night};
use crate::keyed::{AmountMap, KeyMap, copy_vec};
use crate::contract_state::{EntryPointBuf, ContractOperationVersion};
use crate::balance::BalanceOperation;
use crate::utxo::{Utxo, UtxoMeta, UtxoState};
use crate::replay::{ReplayProtectionState, TransactionApplicationError, spec_apply_member};
use crate::dust::{
    DustParameters, DustState, DustEvent, DustStateError, DustPublicKey, InitialNonce, DustGenerationInfo, DustView,
    initial_dust_parameters, spec_fresh_dust_output, spec_fresh_generation, same_generation, DUST_TREE_CAPACITY, spec_update_dtime, spec_sat_add, sat_add,
};

verus! {

/// Atomic units (Stars) per NIGHT.
pub const STARS_PER_NIGHT: u128 = 1_000_000;

/// Atomic units (Specks) per DUST.
pub const SPECKS_PER_DUST: u128 = 1_000_000_000_000_000;

/// The total supply of NIGHT, in Stars: 24 billion NIGHT.
pub const MAX_SUPPLY: u128 = 24_000_000_000 * STARS_PER_NIGHT;

/// The largest fee in basis points: one hundred percent.
pub const MAX_BASIS_POINTS: u32 = 10_000;

/// Where a NIGHT distribution goes: block rewards, or funds bridged from
/// Cardano.
#[derive(Debug, Clone, Copy, PartialEq, Eq, Structural)]
pub enum ClaimKind {
    Reward,
    CardanoBridge,
}

impl ClaimKind {
    /// The name of the claim kind, as the ledger prints it.
    pub fn display(&self) -> (r: &'static str)
        ensures
            *self == ClaimKind::Reward ==> r@ == "rewards claim"@,
            *self == ClaimKind::CardanoBridge ==> r@ == "cardano bridge claim"@,
    {
        match self {
            ClaimKind::Reward => "rewards claim",
            ClaimKind::CardanoBridge => "cardano bridge claim",
        }
    }
}

/// The ledger parameters that NIGHT accounting reads.
#[derive(Debug, Clone, Copy, PartialEq, Eq, Structural)]
pub struct LedgerParameters {
    pub dust: DustParameters,
    /// The global time-to-live, in seconds.
    pub global_ttl: u64,
    /// The fee taken from funds bridged from Cardano, in basis points.
    pub cardano_to_midnight_bridge_fee_basis_points: u32,
    /// Bridged amounts below this are taken whole as fee.
    pub c_to_m_bridge_min_amount: u128,
}

/// The initial ledger parameters: a global time-to-live of an hour, a
/// bridge fee of 5% on amounts of at least 1000 Stars, and the initial DUST
/// parameters.
pub open spec fn spec_initial_parameters() -> LedgerParameters {
    LedgerParameters {
        dust: DustParameters { night_dust_ratio: 5_000_000_000, generation_decay_rate: 8_267, dust_grace_period: 10_800 },
        global_ttl: 3600,
        cardano_to_midnight_bridge_fee_basis_points: 500,
        c_to_m_bridge_min_amount: 1000,
    }
}

/// The initial ledger parameters.
pub fn initial_parameters() -> (r: LedgerParameters)
    ensures
        r == spec_initial_parameters(),
        r.global_ttl == 3600,
        r.cardano_to_midnight_bridge_fee_basis_points == 500,
        r.c_to_m_bridge_min_amount == 1000,
        r.dust.night_dust_ratio == 5_000_000_000,
        r.dust.generation_decay_rate == 8_267,
        r.dust.dust_grace_period == 10_800,
{
    LedgerParameters {
        dust: initial_dust_parameters(),
        global_ttl: 3600,
        cardano_to_midnight_bridge_fee_basis_points: 500,
        c_to_m_bridge_min_amount: 1000,
    }
}

/// `points` basis points of `val`, rounded down.
pub open spec fn spec_basis_points_of(points: u32, val: u128) -> int {
    (val as int / 10_000) * points as int + ((val as int % 10_000) * points as int) / 10_000
}

/// `points` basis points (hundredths of a percent) of `val`, rounded down,
/// computed without overflow.
pub fn basis_points_of(points: u32, val: u128) -> (r: u128)
    requires
        points <= MAX_BASIS_POINTS,
    ensures
        r == spec_basis_points_of(points, val),
        r as int == (val as int * points as int) / 10_000,
        r <= val,
{
    let quotient = val / 10_000;
    let remainder = val % 10_000;
    proof {
        let v = val as int;
        let p = points as int;
        assert(v == (v / 10_000) * 10_000 + v % 10_000) by (nonlinear_arith);
        assert(0 <= v % 10_000 < 10_000) by (nonlinear_arith);
        assert((v / 10_000) * p <= (v / 10_000) * 10_000) by (nonlinear_arith) requires 0 <= p <= 10_000, v >= 0;
        assert((v % 10_000) * p <= (v % 10_000) * 10_000) by (nonlinear_arith) requires 0 <= p <= 10_000, 0 <= v % 10_000;
        assert(((v % 10_000) * p) / 10_000 <= v % 10_000) by (nonlinear_arith)
            requires (v % 10_000) * p <= (v % 10_000) * 10_000, 0 <= v % 10_000;
        assert((v * p) / 10_000 == (v / 10_000) * p + ((v % 10_000) * p) / 10_000) by (nonlinear_arith)
            requires v == (v / 10_000) * 10_000 + v % 10_000, p >= 0;
    }
    quotient * (points as u128) + (remainder * (points as u128)) / 10_000
}

/// An instruction to pay NIGHT to an address.
#[derive(Debug, Clone, Copy)]
pub struct OutputInstructionUnshielded {
    pub amount: u128,
    pub target_address: UserAddress,
    pub nonce: HashOutput,
}

/// An instruction to pay a shielded token to a public key.
#[derive(Debug, Clone, Copy)]
pub struct OutputInstructionShielded {
    pub amount: u128,
    pub target_key: HashOutput,
}

/// Whether cNIGHT on Cardano started or stopped generating DUST.
#[derive(Debug, Clone, Copy, PartialEq, Eq, Structural)]
pub enum CNightGeneratesDustActionType {
    Create,
    Destroy,
}

/// A change to DUST generation by cNIGHT held on Cardano.
#[derive(Debug, Clone, Copy)]
pub struct CNightGeneratesDustEvent {
    pub value: u128,
    pub owner: DustPublicKey,
    pub time: u64,
    pub action: CNightGeneratesDustActionType,
    pub nonce: InitialNonce,
}

/// A transaction issued by the system rather than by users.
#[derive(Debug)]
#[allow(inconsistent_fields)]
pub enum SystemTransaction {
    OverwriteParameters(LedgerParameters),
    DistributeNight(ClaimKind, Vec<OutputInstructionUnshielded>),
    PayBlockRewardsToTreasury { amount: u128 },
    PayFromTreasuryShielded { outputs: Vec<OutputInstructionShielded>, nonce: HashOutput, token_type: ShieldedTokenType },
    PayFromTreasuryUnshielded { outputs: Vec<OutputInstructionUnshielded>, token_type: UnshieldedTokenType },
    DistributeReserve(u128),
    CNightGeneratesDustUpdate { events: Vec<CNightGeneratesDustEvent> },
}

/// A broken ledger invariant.
#[derive(Debug, Clone, Copy, PartialEq, Eq, Structural)]
pub enum InvariantViolation {
    /// The NIGHT held across the ledger (given) is not the total supply.
    NightBalance(u128),
}

/// Why a system transaction was refused.
#[derive(Debug, Clone, Copy)]
pub enum SystemTransactionError {
    InvalidBasisPoints(u32),
    IllegalPayout { claimed_amount: Option<u128>, supply: u128, bridged_amount: Option<u128>, locked: u128 },
    ReplayProtectionFailure(TransactionApplicationError),
    TreasuryDisabled,
    IllegalReserveDistribution { distributed_amount: u128, reserve_supply: u128 },
    InvariantViolation(InvariantViolation),
    GenerationInfoAlreadyPresent(DustGenerationInfo),
    MerkleTreeError,
}

/// The system error for a DUST state error.
pub open spec fn spec_dust_error(e: DustStateError) -> SystemTransactionError {
    match e {
        DustStateError::GenerationInfoAlreadyPresent(g) => SystemTransactionError::GenerationInfoAlreadyPresent(g),
        DustStateError::MerkleTreeFull => SystemTransactionError::MerkleTreeError,
    }
}

fn dust_error(e: DustStateError) -> (r: SystemTransactionError)
    ensures
        r == spec_dust_error(e),
{
    match e {
        DustStateError::GenerationInfoAlreadyPresent(g) => SystemTransactionError::GenerationInfoAlreadyPresent(g),
        DustStateError::MerkleTreeFull => SystemTransactionError::MerkleTreeError,
    }
}

/// What the ledger reports of a system transaction.
#[derive(Debug, Clone, Copy)]
pub enum LedgerEvent {
    ParamChange(LedgerParameters),
    Dust(DustEvent),
}

/// The treasury key of NIGHT.
pub open spec fn night_key() -> TokenType {
    TokenType::Unshielded(spec_night())
}

/// The NIGHT accounting part of the ledger state.
pub struct LedgerState {
    pub network_id: String,
    pub parameters: LedgerParameters,
    /// NIGHT locked on Midnight because it circulates as cNIGHT on Cardano.
    pub locked_pool: u128,
    /// NIGHT bridged from Cardano and not yet claimed, by recipient.
    pub bridge_receiving: AmountMap<UserAddress>,
    /// NIGHT set aside to reward protocol participation.
    pub reserve_pool: u128,
    /// NIGHT available to pay block rewards.
    pub block_reward_pool: u128,
    /// Block rewards paid out and not yet claimed, by recipient.
    pub unclaimed_block_rewards: AmountMap<UserAddress>,
    /// The treasury, by token type.
    pub treasury: KeyMap<TokenType, u128>,
    /// The NIGHT balance of each contract.
    pub contract: AmountMap<ContractAddress>,
    pub utxo: UtxoState,
    pub replay_protection: ReplayProtectionState,
    pub dust: DustState,
}

impl LedgerState {
    /// All NIGHT that counts towards the supply: unspent outputs, the locked,
    /// reserve and block reward pools, the treasury's NIGHT, unclaimed block
    /// rewards, bridged funds not yet claimed, and contract balances.
    pub open spec fn night_total(&self) -> int {
        self.utxo.spec_night_total() + self.locked_pool + self.reserve_pool + self.block_reward_pool
            + amount_at(self.treasury@, night_key()) + self.unclaimed_block_rewards.spec_total()
            + self.bridge_receiving.spec_total() + self.contract.spec_total()
    }

    /// The parts are well formed, and all NIGHT fits in a `u128`.
    pub open spec fn wf(&self) -> bool {
        &&& self.bridge_receiving.wf()
        &&& self.unclaimed_block_rewards.wf()
        &&& self.treasury.wf()
        &&& self.contract.wf()
        &&& self.utxo.wf()
        &&& self.replay_protection.wf()
        &&& self.dust.wf()
        &&& self.night_total() <= u128::MAX
    }

    /// The totals of the parts are nonnegative and bound their entries.
    pub proof fn lemma_totals(&self)
        requires
            self.wf(),
        ensures
            self.unclaimed_block_rewards.spec_total() >= 0,
            self.contract.spec_total() >= 0,
            self.bridge_receiving.spec_total() >= 0,
            self.utxo.spec_night_total() >= 0,
    {
        self.unclaimed_block_rewards.lemma_total_facts(UserAddress(HashOutput(vstd::array::spec_array_fill_for_copy_type::<u8, 32>(0u8))));
        self.bridge_receiving.lemma_total_facts(UserAddress(HashOutput(vstd::array::spec_array_fill_for_copy_type::<u8, 32>(0u8))));
        self.contract.lemma_total_facts(ContractAddress(HashOutput(vstd::array::spec_array_fill_for_copy_type::<u8, 32>(0u8))));
        self.utxo.lemma_total_facts(Utxo {
            value: 0,
            owner: UserAddress(HashOutput(vstd::array::spec_array_fill_for_copy_type::<u8, 32>(0u8))),
            type_: spec_night(),
            intent_hash: IntentHash(HashOutput(vstd::array::spec_array_fill_for_copy_type::<u8, 32>(0u8))),
            output_no: 0,
        });
    }

    /// A copy of this state.
    pub fn duplicate(&self) -> (r: Self)
        requires
            self.wf(),
        ensures
            r.same_as(self),
    {
        LedgerState {
            network_id: self.network_id.clone(),
            parameters: self.parameters,
            locked_pool: self.locked_pool,
            bridge_receiving: self.bridge_receiving.duplicate(),
            reserve_pool: self.reserve_pool,
            block_reward_pool: self.block_reward_pool,
            unclaimed_block_rewards: self.unclaimed_block_rewards.duplicate(),
            treasury: self.treasury.duplicate(),
            contract: self.contract.duplicate(),
            utxo: self.utxo.duplicate(),
            replay_protection: self.replay_protection.duplicate(),
            dust: self.dust.duplicate(),
        }
    }

    /// The two states hold the same contents, and `self` is well formed.
    pub open spec fn same_as(&self, other: &LedgerState) -> bool {
        &&& self.wf()
        &&& self.network_id@ == other.network_id@
        &&& self.parameters == other.parameters
        &&& self.locked_pool == other.locked_pool
        &&& self.bridge_receiving@ == other.bridge_receiving@
        &&& self.bridge_receiving.spec_total() == other.bridge_receiving.spec_total()
        &&& self.reserve_pool == other.reserve_pool
        &&& self.block_reward_pool == other.block_reward_pool
        &&& self.unclaimed_block_rewards@ == other.unclaimed_block_rewards@
        &&& self.unclaimed_block_rewards.spec_total() == other.unclaimed_block_rewards.spec_total()
        &&& self.treasury@ == other.treasury@
        &&& self.contract@ == other.contract@
        &&& self.contract.spec_total() == other.contract.spec_total()
        &&& self.utxo@ == other.utxo@
        &&& self.utxo.spec_night_total() == other.utxo.spec_night_total()
        &&& self.replay_protection@ == other.replay_protection@
        &&& self.dust.address_delegation@ == other.dust.address_delegation@
        &&& self.dust.generating_tree@ == other.dust.generating_tree@
        &&& self.dust.night_indices@ == other.dust.night_indices@
        &&& self.dust.nullifiers@ == other.dust.nullifiers@
        &&& self.dust.commitments_first_free == other.dust.commitments_first_free
    }

    /// Checks that the NIGHT across the ledger adds up to the total supply.
    pub fn check_night_balance_invariant(&self) -> (res: Result<(), InvariantViolation>)
        requires
            self.wf(),
        ensures
            self.night_total() == MAX_SUPPLY ==> res is Ok,
            self.night_total() != MAX_SUPPLY ==> res == Err::<(), InvariantViolation>(InvariantViolation::NightBalance(self.night_total() as u128)),
    {
        proof {
            self.lemma_totals();
        }
        let utxo_ann = self.utxo.ann();
        let treasury_night = match self.treasury.get(&TokenType::Unshielded(night())) {
            Some(v) => v,
            None => 0,
        };
        let unclaimed_rewards = self.unclaimed_block_rewards.ann().value;
        let bridged = self.bridge_receiving.ann().value;
        let contract_value = self.contract.ann().value;
        let total_night = utxo_ann.value + self.locked_pool + self.reserve_pool + self.block_reward_pool + treasury_night
            + unclaimed_rewards + bridged + contract_value;
        if total_night != MAX_SUPPLY {
            Err(InvariantViolation::NightBalance(total_night))
        } else {
            Ok(())
        }
    }

    /// The state at genesis: the given network and parameters, the locked and
    /// reserve pools, and the treasury's NIGHT; everything else empty. Refused
    /// unless the three add up to the total supply.
    pub fn with_genesis_settings(
        network_id: String,
        parameters: LedgerParameters,
        locked_pool: u128,
        reserve_pool: u128,
        treasury: u128,
    ) -> (res: Result<LedgerState, InvariantViolation>)
        requires
            locked_pool + reserve_pool + treasury <= u128::MAX,
        ensures
            locked_pool + reserve_pool + treasury != MAX_SUPPLY ==> res == Err::<LedgerState, InvariantViolation>(
                InvariantViolation::NightBalance((locked_pool + reserve_pool + treasury) as u128),
            ),
            locked_pool + reserve_pool + treasury == MAX_SUPPLY ==> (res matches Ok(st) && {
                &&& st.wf()
                &&& st.network_id@ == network_id@
                &&& st.parameters == parameters
                &&& st.locked_pool == locked_pool
                &&& st.reserve_pool == reserve_pool
                &&& st.block_reward_pool == 0
                &&& st.bridge_receiving@ == Map::<UserAddress, u128>::empty()
                &&& st.unclaimed_block_rewards@ == Map::<UserAddress, u128>::empty()
                &&& st.treasury@ == Map::<TokenType, u128>::empty().insert(night_key(), treasury)
                &&& st.contract@ == Map::<ContractAddress, u128>::empty()
                &&& st.utxo@ == Map::<Utxo, UtxoMeta>::empty()
                &&& st.replay_protection@ == Map::<IntentHash, u64>::empty()
                &&& st.dust.address_delegation@ == Map::<UserAddress, DustPublicKey>::empty()
                &&& st.dust.generating_tree@ == Seq::<DustGenerationInfo>::empty()
                &&& st.dust.night_indices@ == Map::<InitialNonce, u64>::empty()
                &&& st.dust.nullifiers@ == Map::<HashOutput, ()>::empty()
                &&& st.dust.commitments_first_free == 0
                &&& st.night_total() == MAX_SUPPLY
            }),
    {
        let result = LedgerState::genesis_state(network_id, parameters, locked_pool, reserve_pool, treasury);
        match result.check_night_balance_invariant() {
            Ok(()) => Ok(result),
            Err(e) => Err(e),
        }
    }

    /// The genesis state, whether or not it balances.
    fn genesis_state(
        network_id: String,
        parameters: LedgerParameters,
        locked_pool: u128,
        reserve_pool: u128,
        treasury: u128,
    ) -> (st: LedgerState)
        requires
            locked_pool + reserve_pool + treasury <= u128::MAX,
        ensures
            st.wf(),
            st.network_id@ == network_id@,
            st.parameters == parameters,
            st.locked_pool == locked_pool,
            st.reserve_pool == reserve_pool,
            st.block_reward_pool == 0,
            st.bridge_receiving@ == Map::<UserAddress, u128>::empty(),
            st.unclaimed_block_rewards@ == Map::<UserAddress, u128>::empty(),
            st.treasury@ == Map::<TokenType, u128>::empty().insert(night_key(), treasury),
            st.contract@ == Map::<ContractAddress, u128>::empty(),
            st.utxo@ == Map::<Utxo, UtxoMeta>::empty(),
            st.replay_protection@ == Map::<IntentHash, u64>::empty(),
            st.dust.address_delegation@ == Map::<UserAddress, DustPublicKey>::empty(),
            st.dust.generating_tree@ == Seq::<DustGenerationInfo>::empty(),
            st.dust.night_indices@ == Map::<InitialNonce, u64>::empty(),
            st.dust.nullifiers@ == Map::<HashOutput, ()>::empty(),
            st.dust.commitments_first_free == 0,
            st.night_total() == locked_pool + reserve_pool + treasury,
    {
        let mut treasury_map: KeyMap<TokenType, u128> = KeyMap::new();
        treasury_map.insert(TokenType::Unshielded(night()), treasury);
        LedgerState {
            network_id,
            parameters,
            locked_pool,
            bridge_receiving: AmountMap::new(),
            reserve_pool,
            block_reward_pool: 0,
            unclaimed_block_rewards: AmountMap::new(),
            treasury: treasury_map,
            contract: AmountMap::new(),
            utxo: UtxoState::new(),
            replay_protection: ReplayProtectionState::new(),
            dust: DustState::new(),
        }
    }

    /// A ledger state with the initial parameters and the whole supply in the
    /// reserve pool.
    pub fn new(network_id: String) -> (st: LedgerState)
        ensures
            st.wf(),
            st.network_id@ == network_id@,
            st.parameters == spec_initial_parameters(),
            st.reserve_pool == MAX_SUPPLY,
            st.locked_pool == 0,
            st.block_reward_pool == 0,
            st.bridge_receiving@ == Map::<UserAddress, u128>::empty(),
            st.unclaimed_block_rewards@ == Map::<UserAddress, u128>::empty(),
            st.treasury@ == Map::<TokenType, u128>::empty().insert(night_key(), 0),
            st.contract@ == Map::<ContractAddress, u128>::empty(),
            st.utxo@ == Map::<Utxo, UtxoMeta>::empty(),
            st.replay_protection@ == Map::<IntentHash, u64>::empty(),
            st.dust.address_delegation@ == Map::<UserAddress, DustPublicKey>::empty(),
            st.dust.generating_tree@ == Seq::<DustGenerationInfo>::empty(),
            st.dust.night_indices@ == Map::<InitialNonce, u64>::empty(),
            st.dust.nullifiers@ == Map::<HashOutput, ()>::empty(),
            st.dust.commitments_first_free == 0,
            st.night_total() == MAX_SUPPLY,
    {
        LedgerState::genesis_state(network_id, initial_parameters(), 0, MAX_SUPPLY, 0)
    }
}


/// The amount at `k`, zero where `k` is absent.
pub open spec fn amount_at<K>(m: Map<K, u128>, k: K) -> int {
    if m.contains_key(k) {
        m[k] as int
    } else {
        0
    }
}

/// The sum of the amounts of a sequence of output instructions.
pub open spec fn sum_amounts(outs: Seq<OutputInstructionUnshielded>) -> int
    decreases outs.len(),
{
    if outs.len() == 0 {
        0
    } else {
        sum_amounts(outs.drop_last()) + outs.last().amount
    }
}

proof fn lemma_sum_amounts_prefix(outs: Seq<OutputInstructionUnshielded>, n: int)
    requires
        0 <= n <= outs.len(),
    ensures
        0 <= sum_amounts(outs.take(n)) <= sum_amounts(outs),
        n > 0 ==> sum_amounts(outs.take(n)) == sum_amounts(outs.take(n - 1)) + outs[n - 1].amount,
    decreases outs.len() - n,
{
    if n > 0 {
        assert(outs.take(n).drop_last() =~= outs.take(n - 1));
    }
    lemma_sum_amounts_nonneg(outs.take(n));
    if n < outs.len() {
        lemma_sum_amounts_prefix(outs, n + 1);
        assert(outs.take(n + 1).drop_last() =~= outs.take(n));
    } else {
        assert(outs.take(n) =~= outs);
    }
}

proof fn lemma_sum_amounts_nonneg(outs: Seq<OutputInstructionUnshielded>)
    ensures
        sum_amounts(outs) >= 0,
    decreases outs.len(),
{
    if outs.len() > 0 {
        lemma_sum_amounts_nonneg(outs.drop_last());
    }
}

/// The sum of the amounts, or `None` where it does not fit in a `u128`.
fn checked_sum_amounts(outs: &Vec<OutputInstructionUnshielded>) -> (r: Option<u128>)
    ensures
        sum_amounts(outs@) >= 0,
        sum_amounts(outs@) <= u128::MAX ==> r == Some(sum_amounts(outs@) as u128),
        sum_amounts(outs@) > u128::MAX ==> r is None,
{
    proof {
        lemma_sum_amounts_nonneg(outs@);
    }
    let mut sum: u128 = 0;
    let mut i: usize = 0;
    while i < outs.len()
        invariant
            0 <= i <= outs@.len(),
            sum as int == sum_amounts(outs@.take(i as int)),
        decreases outs@.len() - i,
    {
        proof {
            lemma_sum_amounts_prefix(outs@, i as int + 1);
        }
        match sum.checked_add(outs[i].amount) {
            Some(v) => {
                sum = v;
            },
            None => {
                proof {
                    lemma_sum_amounts_prefix(outs@, i as int + 1);
                    lemma_sum_amounts_prefix_mono(outs@, i as int + 1);
                }
                return None;
            },
        }
        i = i + 1;
    }
    proof {
        assert(outs@.take(outs@.len() as int) =~= outs@);
    }
    Some(sum)
}

proof fn lemma_sum_amounts_prefix_mono(outs: Seq<OutputInstructionUnshielded>, n: int)
    requires
        0 <= n <= outs.len(),
    ensures
        sum_amounts(outs.take(n)) <= sum_amounts(outs),
{
    lemma_sum_amounts_prefix(outs, n);
}

/// The fee taken from a bridged amount, and what remains for the recipient:
/// amounts below the minimum go to the fee whole.
pub open spec fn bridge_fee_split(amount: u128, params: LedgerParameters) -> (u128, u128) {
    if amount < params.c_to_m_bridge_min_amount {
        (amount, 0)
    } else {
        let fee = spec_basis_points_of(params.cardano_to_midnight_bridge_fee_basis_points, amount) as u128;
        (fee, (amount - fee) as u128)
    }
}

/// The parts of the ledger that paying out NIGHT changes.
pub struct PayoutView {
    pub unclaimed: Map<UserAddress, u128>,
    pub unclaimed_total: int,
    pub bridge: Map<UserAddress, u128>,
    pub bridge_total: int,
    pub treasury: Map<TokenType, u128>,
    pub replay: Map<IntentHash, u64>,
}

/// Paying out one output instruction: record its hash for replay
/// protection, then credit the recipient's unclaimed rewards, or, for bridged
/// funds, credit the fee to the treasury and the rest to the recipient's
/// pending bridged funds (all additions saturating).
pub open spec fn spec_payout_step(v: PayoutView, kind: ClaimKind, o: OutputInstructionUnshielded, h: IntentHash, params: LedgerParameters, tblock: u64) -> Result<PayoutView, TransactionApplicationError> {
    match spec_apply_member(v.replay, h, (tblock + params.global_ttl) as u64, tblock, params.global_ttl) {
        Err(e) => Err(e),
        Ok(replay) => match kind {
            ClaimKind::Reward => {
                let cur = amount_at(v.unclaimed, o.target_address);
                let nv = crate::dust::spec_sat_add(cur as u128, o.amount);
                Ok(PayoutView {
                    unclaimed: v.unclaimed.insert(o.target_address, nv),
                    unclaimed_total: v.unclaimed_total - cur + nv,
                    replay,
                    ..v
                })
            },
            ClaimKind::CardanoBridge => {
                let (fee, post) = bridge_fee_split(o.amount, params);
                let tcur = amount_at(v.treasury, night_key());
                let tn = crate::dust::spec_sat_add(tcur as u128, fee);
                let bcur = amount_at(v.bridge, o.target_address);
                let bn = crate::dust::spec_sat_add(bcur as u128, post);
                Ok(PayoutView {
                    treasury: v.treasury.insert(night_key(), tn),
                    bridge: v.bridge.insert(o.target_address, bn),
                    bridge_total: v.bridge_total - bcur + bn,
                    replay,
                    ..v
                })
            },
        },
    }
}

/// Paying out the first `n` output instructions in order, stopping at the
/// first refused hash.
pub open spec fn spec_payouts(v: PayoutView, kind: ClaimKind, outs: Seq<OutputInstructionUnshielded>, hs: Seq<IntentHash>, params: LedgerParameters, tblock: u64, n: nat) -> Result<PayoutView, TransactionApplicationError>
    decreases n,
{
    if n == 0 {
        Ok(v)
    } else {
        match spec_payouts(v, kind, outs, hs, params, tblock, (n - 1) as nat) {
            Ok(w) => spec_payout_step(w, kind, outs[n - 1], hs[n - 1], params, tblock),
            Err(e) => Err(e),
        }
    }
}

impl LedgerState {
    /// The payout view of this state.
    pub open spec fn payout_view(&self) -> PayoutView {
        PayoutView {
            unclaimed: self.unclaimed_block_rewards@,
            unclaimed_total: self.unclaimed_block_rewards.spec_total(),
            bridge: self.bridge_receiving@,
            bridge_total: self.bridge_receiving.spec_total(),
            treasury: self.treasury@,
            replay: self.replay_protection@,
        }
    }

    /// The two states agree on everything but the pools, the payout view and
    /// the UTXO set.
    pub open spec fn same_apart_from_payouts(&self, other: &LedgerState) -> bool {
        &&& self.wf()
        &&& self.network_id@ == other.network_id@
        &&& self.parameters == other.parameters
        &&& self.contract@ == other.contract@
        &&& self.contract.spec_total() == other.contract.spec_total()
        &&& self.dust.address_delegation@ == other.dust.address_delegation@
        &&& self.dust.generating_tree@ == other.dust.generating_tree@
        &&& self.dust.night_indices@ == other.dust.night_indices@
        &&& self.dust.nullifiers@ == other.dust.nullifiers@
        &&& self.dust.commitments_first_free == other.dust.commitments_first_free
    }

    /// The NIGHT total of this state with the pools reduced and the payout
    /// view replaced.
    pub open spec fn night_total_after_payout(&self, claimed: int, bridged: int, v: PayoutView) -> int {
        self.utxo.spec_night_total() + (self.locked_pool - bridged) + self.reserve_pool + (self.block_reward_pool - claimed)
            + amount_at(v.treasury, night_key()) + v.unclaimed_total + v.bridge_total + self.contract.spec_total()
    }

    /// Paying out `outputs` passes the checks on its amounts: their sum fits
    /// in a `u128` and lies within the pool it comes from.
    pub open spec fn payout_proceeds(&self, kind: ClaimKind, outputs: Seq<OutputInstructionUnshielded>) -> bool {
        let sum = sum_amounts(outputs);
        &&& sum <= u128::MAX
        &&& kind == ClaimKind::Reward ==> sum <= self.block_reward_pool
        &&& kind == ClaimKind::CardanoBridge ==> sum <= self.locked_pool
    }

    /// What paying out NIGHT gives (see `distribute_night`).
    pub open spec fn distribute_night_outcome(
        &self,
        kind: ClaimKind,
        outputs: Seq<OutputInstructionUnshielded>,
        hashes: Seq<IntentHash>,
        tblock: u64,
        res: Result<LedgerState, SystemTransactionError>,
    ) -> bool {
        let sum = sum_amounts(outputs);
        let claimed = if kind == ClaimKind::Reward { sum } else { 0 };
        let bridged = if kind == ClaimKind::CardanoBridge { sum } else { 0 };
        if sum > u128::MAX {
            res == Err::<LedgerState, SystemTransactionError>(SystemTransactionError::IllegalPayout {
                claimed_amount: None,
                supply: self.block_reward_pool,
                bridged_amount: None,
                locked: self.locked_pool,
            })
        } else if claimed > self.block_reward_pool || bridged > self.locked_pool {
            res == Err::<LedgerState, SystemTransactionError>(SystemTransactionError::IllegalPayout {
                claimed_amount: Some(claimed as u128),
                supply: self.block_reward_pool,
                bridged_amount: Some(bridged as u128),
                locked: self.locked_pool,
            })
        } else {
            match spec_payouts(self.payout_view(), kind, outputs, hashes, self.parameters, tblock, outputs.len()) {
                Err(e) => res == Err::<LedgerState, SystemTransactionError>(SystemTransactionError::ReplayProtectionFailure(e)),
                Ok(v) => {
                    let total = self.night_total_after_payout(claimed, bridged, v);
                    if total != MAX_SUPPLY {
                        res == Err::<LedgerState, SystemTransactionError>(SystemTransactionError::InvariantViolation(
                            InvariantViolation::NightBalance(total as u128),
                        ))
                    } else {
                        res matches Ok(st) && {
                            &&& st.same_apart_from_payouts(self)
                            &&& st.payout_view() == v
                            &&& st.utxo@ == self.utxo@
                            &&& st.locked_pool == self.locked_pool - bridged
                            &&& st.block_reward_pool == self.block_reward_pool - claimed
                            &&& st.reserve_pool == self.reserve_pool
                            &&& st.night_total() == MAX_SUPPLY
                        }
                    }
                },
            }
        }
    }

    /// Pays NIGHT out of the block reward pool (to unclaimed rewards) or out
    /// of the locked pool (to pending bridged funds, less the bridge fee,
    /// which goes to the treasury). Refused where the amounts overflow or
    /// exceed the pool, where an instruction's hash (`hashes[i]` for
    /// `outputs[i]`) is refused by replay protection, or where NIGHT no longer
    /// adds up to the supply.
    pub fn distribute_night(&self, kind: ClaimKind, outputs: &Vec<OutputInstructionUnshielded>, hashes: &Vec<IntentHash>, tblock: u64)
        -> (res: Result<LedgerState, SystemTransactionError>)
        requires
            self.wf(),
            hashes@.len() == outputs@.len(),
            self.payout_proceeds(kind, outputs@) && outputs@.len() > 0 ==> tblock + self.parameters.global_ttl <= u64::MAX,
            self.payout_proceeds(kind, outputs@) && kind == ClaimKind::CardanoBridge && (exists|i: int| 0 <= i < outputs@.len()
                && #[trigger] outputs@[i].amount >= self.parameters.c_to_m_bridge_min_amount)
                ==> self.parameters.cardano_to_midnight_bridge_fee_basis_points <= MAX_BASIS_POINTS,
        ensures
            self.distribute_night_outcome(kind, outputs@, hashes@, tblock, res),
    {
        let total = checked_sum_amounts(outputs);
        let (claimed_total, bridged_total) = match total {
            None => {
                return Err(SystemTransactionError::IllegalPayout {
                    claimed_amount: None,
                    supply: self.block_reward_pool,
                    bridged_amount: None,
                    locked: self.locked_pool,
                });
            },
            Some(sum) => {
                let (c, b) = match kind {
                    ClaimKind::Reward => (sum, 0u128),
                    ClaimKind::CardanoBridge => (0u128, sum),
                };
                if c > self.block_reward_pool || b > self.locked_pool {
                    return Err(SystemTransactionError::IllegalPayout {
                        claimed_amount: Some(c),
                        supply: self.block_reward_pool,
                        bridged_amount: Some(b),
                        locked: self.locked_pool,
                    });
                }
                (c, b)
            },
        };
        let mut state = self.duplicate();
        state.block_reward_pool = self.block_reward_pool - claimed_total;
        state.locked_pool = self.locked_pool - bridged_total;
        let global_ttl = self.parameters.global_ttl;
        let ghost v0 = self.payout_view();
        let ghost sum = sum_amounts(outputs@);
        proof {
            self.lemma_totals();
        }
        let mut i: usize = 0;
        while i < outputs.len()
            invariant
                0 <= i <= outputs@.len(),
                hashes@.len() == outputs@.len(),
                v0 == self.payout_view(),
                self.wf(),
                state.wf(),
                outputs@.len() > 0 ==> tblock + global_ttl <= u64::MAX,
                global_ttl == self.parameters.global_ttl,
                sum == sum_amounts(outputs@),
                claimed_total == (if kind == ClaimKind::Reward { sum } else { 0 }),
                bridged_total == (if kind == ClaimKind::CardanoBridge { sum } else { 0 }),
                claimed_total <= self.block_reward_pool,
                bridged_total <= self.locked_pool,
                kind == ClaimKind::CardanoBridge && (exists|j: int| 0 <= j < outputs@.len() && #[trigger] outputs@[j].amount >= self.parameters.c_to_m_bridge_min_amount)
                    ==> self.parameters.cardano_to_midnight_bridge_fee_basis_points <= MAX_BASIS_POINTS,
                state.same_apart_from_payouts(self),
                state.utxo@ == self.utxo@,
                state.utxo.spec_night_total() == self.utxo.spec_night_total(),
                state.locked_pool == self.locked_pool - bridged_total,
                state.block_reward_pool == self.block_reward_pool - claimed_total,
                state.reserve_pool == self.reserve_pool,
                spec_payouts(v0, kind, outputs@, hashes@, self.parameters, tblock, i as nat) == Ok::<PayoutView, TransactionApplicationError>(state.payout_view()),
                state.night_total() + (sum - sum_amounts(outputs@.take(i as int))) <= self.night_total(),
            decreases outputs@.len() - i,
        {
            let o = outputs[i];
            let h = hashes[i];
            proof {
                lemma_sum_amounts_prefix(outputs@, i as int + 1);
                state.lemma_totals();
                state.unclaimed_block_rewards.lemma_total_facts(o.target_address);
                state.bridge_receiving.lemma_total_facts(o.target_address);
            }
            let replay = match state.replay_protection.apply_member(h, tblock + global_ttl, tblock, global_ttl) {
                Ok(r) => r,
                Err(e) => {
                    proof {
                        assert(spec_payouts(v0, kind, outputs@, hashes@, self.parameters, tblock, (i + 1) as nat)
                            == spec_payout_step(state.payout_view(), kind, o, h, self.parameters, tblock));
                        assert(spec_payout_step(state.payout_view(), kind, o, h, self.parameters, tblock) == Err::<PayoutView, TransactionApplicationError>(e));
                        lemma_payouts_err_extends(v0, kind, outputs@, hashes@, self.parameters, tblock, i as nat + 1, e);
                    }
                    return Err(SystemTransactionError::ReplayProtectionFailure(e));
                },
            };
            state.replay_protection = replay;
            match kind {
                ClaimKind::Reward => {
                    let cur = state.unclaimed_block_rewards.get_or_zero(&o.target_address);
                    let nv = crate::dust::sat_add(cur, o.amount);
                    state.unclaimed_block_rewards.insert(o.target_address, nv);
                },
                ClaimKind::CardanoBridge => {
                    let (fees, post_fee_amount) = if o.amount < state.parameters.c_to_m_bridge_min_amount {
                        (o.amount, 0u128)
                    } else {
                        let fee = basis_points_of(state.parameters.cardano_to_midnight_bridge_fee_basis_points, o.amount);
                        (fee, o.amount - fee)
                    };
                    let tcur = match state.treasury.get(&TokenType::Unshielded(night())) {
                        Some(v) => v,
                        None => 0,
                    };
                    let tn = crate::dust::sat_add(tcur, fees);
                    state.treasury.insert(TokenType::Unshielded(night()), tn);
                    let bcur = state.bridge_receiving.get_or_zero(&o.target_address);
                    let bn = crate::dust::sat_add(bcur, post_fee_amount);
                    state.bridge_receiving.insert(o.target_address, bn);
                },
            }
            i = i + 1;
        }
        proof {
            assert(outputs@.take(outputs@.len() as int) =~= outputs@);
        }
        match state.check_night_balance_invariant() {
            Ok(()) => Ok(state),
            Err(e) => Err(SystemTransactionError::InvariantViolation(e)),
        }
    }
}

/// Every entry is bounded by the total the view keeps for its map.
pub open spec fn payout_totals_bound(v: PayoutView) -> bool {
    &&& forall|k: UserAddress| #[trigger] amount_at(v.unclaimed, k) <= v.unclaimed_total
    &&& forall|k: UserAddress| #[trigger] amount_at(v.bridge, k) <= v.bridge_total
}

/// The NIGHT that a payout view holds: the treasury's, the unclaimed
/// rewards and the pending bridged funds.
pub open spec fn payout_held(v: PayoutView) -> int {
    amount_at(v.treasury, night_key()) + v.unclaimed_total + v.bridge_total
}

/// Paying out a prefix of the instructions adds exactly their amounts to
/// what the view holds, as long as that stays within `u128`.
proof fn lemma_payouts_add_amounts(
    v0: PayoutView,
    kind: ClaimKind,
    outs: Seq<OutputInstructionUnshielded>,
    hs: Seq<IntentHash>,
    params: LedgerParameters,
    tblock: u64,
    n: nat,
)
    requires
        n <= outs.len(),
        params.cardano_to_midnight_bridge_fee_basis_points <= MAX_BASIS_POINTS,
        payout_totals_bound(v0),
        payout_held(v0) + sum_amounts(outs) <= u128::MAX,
        spec_payouts(v0, kind, outs, hs, params, tblock, n) is Ok,
    ensures
        payout_totals_bound(spec_payouts(v0, kind, outs, hs, params, tblock, n)->Ok_0),
        payout_held(spec_payouts(v0, kind, outs, hs, params, tblock, n)->Ok_0) == payout_held(v0) + sum_amounts(outs.take(n as int)),
    decreases n,
{
    if n == 0 {
        assert(outs.take(0) =~= Seq::<OutputInstructionUnshielded>::empty());
    } else {
        lemma_payouts_add_amounts(v0, kind, outs, hs, params, tblock, (n - 1) as nat);
        lemma_sum_amounts_prefix(outs, n as int);
        let w = spec_payouts(v0, kind, outs, hs, params, tblock, (n - 1) as nat)->Ok_0;
        let o = outs[n - 1];
        let w2 = spec_payouts(v0, kind, outs, hs, params, tblock, n)->Ok_0;
        assert(amount_at(w.unclaimed, o.target_address) <= w.unclaimed_total);
        assert(amount_at(w.bridge, o.target_address) <= w.bridge_total);
        assert(amount_at(w.treasury, night_key()) >= 0);
        match kind {
            ClaimKind::Reward => {
                assert forall|k: UserAddress| #[trigger] amount_at(w2.unclaimed, k) <= w2.unclaimed_total by {
                    assert(amount_at(w.unclaimed, k) <= w.unclaimed_total);
                }
                assert forall|k: UserAddress| #[trigger] amount_at(w2.bridge, k) <= w2.bridge_total by {
                    assert(amount_at(w.bridge, k) <= w.bridge_total);
                }
            },
            ClaimKind::CardanoBridge => {
                let (fee, post) = bridge_fee_split(o.amount, params);
                if o.amount >= params.c_to_m_bridge_min_amount {
                    let p = params.cardano_to_midnight_bridge_fee_basis_points as int;
                    let a = o.amount as int;
                    assert(spec_basis_points_of(params.cardano_to_midnight_bridge_fee_basis_points, o.amount) <= a) by (nonlinear_arith)
                        requires
                            0 <= p <= 10_000,
                            a >= 0,
                            spec_basis_points_of(params.cardano_to_midnight_bridge_fee_basis_points, o.amount)
                                == (a / 10_000) * p + ((a % 10_000) * p) / 10_000,
                    {
                        assert(a == (a / 10_000) * 10_000 + a % 10_000);
                        assert(0 <= a % 10_000 < 10_000);
                        assert((a / 10_000) * p <= (a / 10_000) * 10_000);
                        assert((a % 10_000) * p <= (a % 10_000) * 10_000);
                        assert(((a % 10_000) * p) / 10_000 <= a % 10_000);
                    }
                    assert(spec_basis_points_of(params.cardano_to_midnight_bridge_fee_basis_points, o.amount) >= 0) by (nonlinear_arith)
                        requires
                            0 <= p,
                            a >= 0,
                            spec_basis_points_of(params.cardano_to_midnight_bridge_fee_basis_points, o.amount)
                                == (a / 10_000) * p + ((a % 10_000) * p) / 10_000;
                }
                assert(fee + post == o.amount);
                assert forall|k: UserAddress| #[trigger] amount_at(w2.unclaimed, k) <= w2.unclaimed_total by {
                    assert(amount_at(w.unclaimed, k) <= w.unclaimed_total);
                }
                assert forall|k: UserAddress| #[trigger] amount_at(w2.bridge, k) <= w2.bridge_total by {
                    assert(amount_at(w.bridge, k) <= w.bridge_total);
                }
            },
        }
    }
}

/// Law: paying out NIGHT conserves the supply. On a ledger whose NIGHT adds
/// up to the supply, a distribution of block rewards or of bridged funds
/// whose amounts fit the pool they come from, and whose instruction hashes
/// replay protection accepts, succeeds: what leaves the pool arrives in
/// unclaimed rewards, or in the treasury's fee and pending bridged funds.
/// (The bridge fee is at most one hundred percent, as parameters demand.)
pub proof fn lemma_distribution_conserves_supply(
    st: &LedgerState,
    kind: ClaimKind,
    outputs: Seq<OutputInstructionUnshielded>,
    hashes: Seq<IntentHash>,
    tblock: u64,
    res: Result<LedgerState, SystemTransactionError>,
)
    requires
        st.wf(),
        st.night_total() == MAX_SUPPLY,
        st.parameters.cardano_to_midnight_bridge_fee_basis_points <= MAX_BASIS_POINTS,
        st.payout_proceeds(kind, outputs),
        spec_payouts(st.payout_view(), kind, outputs, hashes, st.parameters, tblock, outputs.len()) is Ok,
        st.distribute_night_outcome(kind, outputs, hashes, tblock, res),
    ensures
        res matches Ok(s) && s.night_total() == MAX_SUPPLY,
{
    st.lemma_totals();
    let v0 = st.payout_view();
    assert forall|k: UserAddress| #[trigger] amount_at(v0.unclaimed, k) <= v0.unclaimed_total by {
        st.unclaimed_block_rewards.lemma_total_facts(k);
    }
    assert forall|k: UserAddress| #[trigger] amount_at(v0.bridge, k) <= v0.bridge_total by {
        st.bridge_receiving.lemma_total_facts(k);
    }
    lemma_payouts_add_amounts(v0, kind, outputs, hashes, st.parameters, tblock, outputs.len());
    assert(outputs.take(outputs.len() as int) =~= outputs);
}

proof fn lemma_basis_points(points: u32, val: u128)
    requires
        points <= MAX_BASIS_POINTS,
    ensures
        spec_basis_points_of(points, val) == (val as int * points as int) / 10_000,
        0 <= spec_basis_points_of(points, val) <= val,
{
    let v = val as int;
    let p = points as int;
    assert(v == (v / 10_000) * 10_000 + v % 10_000) by (nonlinear_arith);
    assert(0 <= v % 10_000 < 10_000) by (nonlinear_arith);
    assert((v * p) / 10_000 == (v / 10_000) * p + ((v % 10_000) * p) / 10_000) by (nonlinear_arith)
        requires v == (v / 10_000) * 10_000 + v % 10_000, p >= 0;
    assert(0 <= (v * p) / 10_000 <= v) by (nonlinear_arith) requires 0 <= p <= 10_000, v >= 0;
}

/// Paying out one output instruction under a fresh hash records the hash;
/// a block reward then adds its amount to the recipient's unclaimed
/// rewards, and bridged funds add their fee (the amount times the fee in
/// basis points, rounded down; the whole amount below the bridge minimum)
/// to the treasury's NIGHT and the rest to the recipient's pending bridged
/// funds. Nothing else changes.
pub proof fn lemma_single_payout(
    v: PayoutView,
    kind: ClaimKind,
    o: OutputInstructionUnshielded,
    h: IntentHash,
    params: LedgerParameters,
    tblock: u64,
)
    requires
        !v.replay.contains_key(h),
        tblock + params.global_ttl <= u64::MAX,
        params.cardano_to_midnight_bridge_fee_basis_points <= MAX_BASIS_POINTS,
        amount_at(v.unclaimed, o.target_address) + o.amount <= u128::MAX,
        amount_at(v.bridge, o.target_address) + o.amount <= u128::MAX,
        amount_at(v.treasury, night_key()) + o.amount <= u128::MAX,
    ensures
        spec_payout_step(v, kind, o, h, params, tblock) matches Ok(w) && w.replay == v.replay.insert(h, (tblock + params.global_ttl) as u64)
            && match kind {
            ClaimKind::Reward => {
                &&& w.unclaimed == v.unclaimed.insert(o.target_address, (amount_at(v.unclaimed, o.target_address) + o.amount) as u128)
                &&& w.bridge == v.bridge
                &&& w.treasury == v.treasury
            },
            ClaimKind::CardanoBridge => {
                let fee: int = if o.amount < params.c_to_m_bridge_min_amount {
                    o.amount as int
                } else {
                    (o.amount as int * params.cardano_to_midnight_bridge_fee_basis_points as int) / 10_000
                };
                &&& 0 <= fee <= o.amount
                &&& w.treasury == v.treasury.insert(night_key(), (amount_at(v.treasury, night_key()) + fee) as u128)
                &&& w.bridge == v.bridge.insert(o.target_address, (amount_at(v.bridge, o.target_address) + o.amount - fee) as u128)
                &&& w.unclaimed == v.unclaimed
            },
        },
{
    lemma_basis_points(params.cardano_to_midnight_bridge_fee_basis_points, o.amount);
}

/// Paying out bridged funds leaves the unclaimed rewards as they were.
proof fn lemma_bridge_payouts_keep_unclaimed(
    v0: PayoutView,
    outs: Seq<OutputInstructionUnshielded>,
    hs: Seq<IntentHash>,
    params: LedgerParameters,
    tblock: u64,
    n: nat,
)
    requires
        spec_payouts(v0, ClaimKind::CardanoBridge, outs, hs, params, tblock, n) is Ok,
    ensures
        spec_payouts(v0, ClaimKind::CardanoBridge, outs, hs, params, tblock, n)->Ok_0.unclaimed_total == v0.unclaimed_total,
    decreases n,
{
    if n > 0 {
        lemma_bridge_payouts_keep_unclaimed(v0, outs, hs, params, tblock, (n - 1) as nat);
    }
}

/// Law: bridging NIGHT moves it out of the locked pool into the treasury
/// (the fees) and the recipients' pending bridged funds (the rest). A
/// distribution of bridged funds that succeeds lowers the locked pool by the
/// sum `S` of its amounts and raises the treasury's NIGHT plus the pending
/// bridged funds by exactly `S` (the bridge fee being at most one hundred
/// percent, as parameters demand).
pub proof fn lemma_bridge_moves_locked_funds(
    st: &LedgerState,
    outputs: Seq<OutputInstructionUnshielded>,
    hashes: Seq<IntentHash>,
    tblock: u64,
    res: Result<LedgerState, SystemTransactionError>,
)
    requires
        st.wf(),
        st.parameters.cardano_to_midnight_bridge_fee_basis_points <= MAX_BASIS_POINTS,
        st.distribute_night_outcome(ClaimKind::CardanoBridge, outputs, hashes, tblock, res),
        res is Ok,
    ensures
        res matches Ok(s) && {
            &&& s.locked_pool == st.locked_pool - sum_amounts(outputs)
            &&& amount_at(s.treasury@, night_key()) + s.bridge_receiving.spec_total() == amount_at(st.treasury@, night_key())
                + st.bridge_receiving.spec_total() + sum_amounts(outputs)
        },
{
    st.lemma_totals();
    let v0 = st.payout_view();
    assert forall|k: UserAddress| #[trigger] amount_at(v0.unclaimed, k) <= v0.unclaimed_total by {
        st.unclaimed_block_rewards.lemma_total_facts(k);
    }
    assert forall|k: UserAddress| #[trigger] amount_at(v0.bridge, k) <= v0.bridge_total by {
        st.bridge_receiving.lemma_total_facts(k);
    }
    lemma_payouts_add_amounts(v0, ClaimKind::CardanoBridge, outputs, hashes, st.parameters, tblock, outputs.len());
    lemma_bridge_payouts_keep_unclaimed(v0, outputs, hashes, st.parameters, tblock, outputs.len());
    assert(outputs.take(outputs.len() as int) =~= outputs);
}

/// Once paying out a prefix fails, paying out all instructions fails with the
/// same error.
proof fn lemma_payouts_err_extends(v: PayoutView, kind: ClaimKind, outs: Seq<OutputInstructionUnshielded>, hs: Seq<IntentHash>, params: LedgerParameters, tblock: u64, n: nat, e: TransactionApplicationError)
    requires
        n <= outs.len(),
        spec_payouts(v, kind, outs, hs, params, tblock, n) == Err::<PayoutView, TransactionApplicationError>(e),
    ensures
        spec_payouts(v, kind, outs, hs, params, tblock, outs.len()) == Err::<PayoutView, TransactionApplicationError>(e),
    decreases outs.len() - n,
{
    if n < outs.len() {
        lemma_payouts_err_extends(v, kind, outs, hs, params, tblock, n + 1, e);
    }
}


/// Applying the first `n` cNIGHT generation changes in order: a creation
/// starts a fresh DUST output of value zero for the backing NIGHT, a
/// destruction stops generation for it (and is skipped where the NIGHT is
/// not tracked). Stops at the first refused creation.
pub open spec fn spec_cnight_updates(v: DustView, acts: Seq<CNightGeneratesDustEvent>, tblock: u64, n: nat) -> Result<(DustView, Seq<DustEvent>), DustStateError>
    decreases n,
{
    if n == 0 {
        Ok((v, Seq::empty()))
    } else {
        match spec_cnight_updates(v, acts, tblock, (n - 1) as nat) {
            Err(e) => Err(e),
            Ok((w, evs)) => {
                let a = acts[n - 1];
                match a.action {
                    CNightGeneratesDustActionType::Create => match spec_fresh_dust_output(w, a.nonce, 0, a.value, a.owner, a.time, tblock) {
                        Ok((w2, ev)) => Ok((w2, evs.push(ev))),
                        Err(e) => Err(e),
                    },
                    CNightGeneratesDustActionType::Destroy => {
                        let (w2, ev) = spec_update_dtime(w, a.nonce, a.time, tblock);
                        Ok((w2, match ev {
                            Some(e) => evs.push(e),
                            None => evs,
                        }))
                    },
                }
            },
        }
    }
}

proof fn lemma_cnight_err_extends(v: DustView, acts: Seq<CNightGeneratesDustEvent>, tblock: u64, n: nat, e: DustStateError)
    requires
        n <= acts.len(),
        spec_cnight_updates(v, acts, tblock, n) == Err::<(DustView, Seq<DustEvent>), DustStateError>(e),
    ensures
        spec_cnight_updates(v, acts, tblock, acts.len()) == Err::<(DustView, Seq<DustEvent>), DustStateError>(e),
    decreases acts.len() - n,
{
    if n < acts.len() {
        lemma_cnight_err_extends(v, acts, tblock, n + 1, e);
    }
}

/// The ledger events that report DUST events.
pub open spec fn dust_ledger_events(evs: Seq<DustEvent>) -> Seq<LedgerEvent> {
    evs.map_values(|e: DustEvent| LedgerEvent::Dust(e))
}

impl LedgerState {
    /// The two states agree on everything but the pools, the treasury and
    /// the parameters.
    pub open spec fn same_apart_from_pools(&self, other: &LedgerState) -> bool {
        &&& self.wf()
        &&& self.network_id@ == other.network_id@
        &&& self.bridge_receiving@ == other.bridge_receiving@
        &&& self.bridge_receiving.spec_total() == other.bridge_receiving.spec_total()
        &&& self.unclaimed_block_rewards@ == other.unclaimed_block_rewards@
        &&& self.unclaimed_block_rewards.spec_total() == other.unclaimed_block_rewards.spec_total()
        &&& self.contract@ == other.contract@
        &&& self.contract.spec_total() == other.contract.spec_total()
        &&& self.utxo@ == other.utxo@
        &&& self.utxo.spec_night_total() == other.utxo.spec_night_total()
        &&& self.replay_protection@ == other.replay_protection@
        &&& self.dust.dview() == other.dust.dview()
    }

    /// What overwriting the parameters gives: refused where the bridge fee
    /// exceeds one hundred percent; otherwise the new parameters, reported.
    pub open spec fn overwrite_outcome(&self, p: LedgerParameters, res: Result<(LedgerState, Vec<LedgerEvent>), SystemTransactionError>) -> bool {
        if p.cardano_to_midnight_bridge_fee_basis_points > MAX_BASIS_POINTS {
            res == Err::<(LedgerState, Vec<LedgerEvent>), SystemTransactionError>(SystemTransactionError::InvalidBasisPoints(p.cardano_to_midnight_bridge_fee_basis_points))
        } else {
            res matches Ok((st, evs)) && {
                &&& st.same_apart_from_pools(self)
                &&& st.parameters == p
                &&& st.locked_pool == self.locked_pool
                &&& st.reserve_pool == self.reserve_pool
                &&& st.block_reward_pool == self.block_reward_pool
                &&& st.treasury@ == self.treasury@
                &&& evs@ == seq![LedgerEvent::ParamChange(p)]
            }
        }
    }

    /// Replaces the ledger parameters.
    pub fn overwrite_parameters(&self, p: LedgerParameters) -> (res: Result<(LedgerState, Vec<LedgerEvent>), SystemTransactionError>)
        requires
            self.wf(),
        ensures
            self.overwrite_outcome(p, res),
    {
        if p.cardano_to_midnight_bridge_fee_basis_points > MAX_BASIS_POINTS {
            return Err(SystemTransactionError::InvalidBasisPoints(p.cardano_to_midnight_bridge_fee_basis_points));
        }
        let mut st = self.duplicate();
        st.parameters = p;
        let mut evs: Vec<LedgerEvent> = Vec::new();
        evs.push(LedgerEvent::ParamChange(p));
        Ok((st, evs))
    }

    /// What paying block rewards to the treasury gives: refused where the
    /// block reward pool holds less than `amount`; otherwise `amount` moves
    /// from the pool to the treasury's NIGHT (saturating there).
    pub open spec fn rewards_to_treasury_outcome(&self, amount: u128, res: Result<(LedgerState, Vec<LedgerEvent>), SystemTransactionError>) -> bool {
        if amount > self.block_reward_pool {
            res == Err::<(LedgerState, Vec<LedgerEvent>), SystemTransactionError>(SystemTransactionError::IllegalPayout {
                claimed_amount: Some(amount),
                supply: self.block_reward_pool,
                bridged_amount: None,
                locked: self.locked_pool,
            })
        } else {
            res matches Ok((st, evs)) && {
                &&& st.same_apart_from_pools(self)
                &&& st.parameters == self.parameters
                &&& st.locked_pool == self.locked_pool
                &&& st.reserve_pool == self.reserve_pool
                &&& st.block_reward_pool == self.block_reward_pool - amount
                &&& st.treasury@ == self.treasury@.insert(night_key(), spec_sat_add(amount_at(self.treasury@, night_key()) as u128, amount))
                &&& evs@.len() == 0
            }
        }
    }

    /// Pays `amount` from the block reward pool into the treasury.
    pub fn pay_block_rewards_to_treasury(&self, amount: u128) -> (res: Result<(LedgerState, Vec<LedgerEvent>), SystemTransactionError>)
        requires
            self.wf(),
        ensures
            self.rewards_to_treasury_outcome(amount, res),
    {
        if amount > self.block_reward_pool {
            return Err(SystemTransactionError::IllegalPayout {
                claimed_amount: Some(amount),
                supply: self.block_reward_pool,
                bridged_amount: None,
                locked: self.locked_pool,
            });
        }
        proof {
            self.lemma_totals();
        }
        let mut st = self.duplicate();
        let cur = match st.treasury.get(&TokenType::Unshielded(night())) {
            Some(v) => v,
            None => 0,
        };
        st.treasury.insert(TokenType::Unshielded(night()), sat_add(cur, amount));
        st.block_reward_pool = self.block_reward_pool - amount;
        Ok((st, Vec::new()))
    }

    /// What distributing from the reserve gives: refused where the reserve
    /// holds less than `amount`, or where NIGHT does not add up to the supply;
    /// otherwise `amount` moves from the reserve to the block reward pool.
    pub open spec fn distribute_reserve_outcome(&self, amount: u128, res: Result<(LedgerState, Vec<LedgerEvent>), SystemTransactionError>) -> bool {
        if amount > self.reserve_pool {
            res == Err::<(LedgerState, Vec<LedgerEvent>), SystemTransactionError>(SystemTransactionError::IllegalReserveDistribution {
                distributed_amount: amount,
                reserve_supply: self.reserve_pool,
            })
        } else if self.night_total() != MAX_SUPPLY {
            res == Err::<(LedgerState, Vec<LedgerEvent>), SystemTransactionError>(SystemTransactionError::InvariantViolation(
                InvariantViolation::NightBalance(self.night_total() as u128),
            ))
        } else {
            res matches Ok((st, evs)) && {
                &&& st.same_apart_from_pools(self)
                &&& st.parameters == self.parameters
                &&& st.locked_pool == self.locked_pool
                &&& st.reserve_pool == self.reserve_pool - amount
                &&& st.block_reward_pool == self.block_reward_pool + amount
                &&& st.treasury@ == self.treasury@
                &&& st.night_total() == MAX_SUPPLY
                &&& evs@.len() == 0
            }
        }
    }

    /// Moves `amount` from the reserve pool to the block reward pool.
    pub fn distribute_reserve(&self, amount: u128) -> (res: Result<(LedgerState, Vec<LedgerEvent>), SystemTransactionError>)
        requires
            self.wf(),
        ensures
            self.distribute_reserve_outcome(amount, res),
    {
        if amount > self.reserve_pool {
            return Err(SystemTransactionError::IllegalReserveDistribution {
                distributed_amount: amount,
                reserve_supply: self.reserve_pool,
            });
        }
        proof {
            self.lemma_totals();
        }
        let mut st = self.duplicate();
        st.reserve_pool = self.reserve_pool - amount;
        st.block_reward_pool = self.block_reward_pool + amount;
        match st.check_night_balance_invariant() {
            Ok(()) => Ok((st, Vec::new())),
            Err(e) => Err(SystemTransactionError::InvariantViolation(e)),
        }
    }

    /// What applying cNIGHT generation changes gives: the DUST state after
    /// `spec_cnight_updates`, with its events, or the error of the first
    /// refused creation.
    pub open spec fn cnight_outcome(&self, acts: Seq<CNightGeneratesDustEvent>, tblock: u64, res: Result<(LedgerState, Vec<LedgerEvent>), SystemTransactionError>) -> bool {
        match spec_cnight_updates(self.dust.dview(), acts, tblock, acts.len()) {
            Err(e) => res == Err::<(LedgerState, Vec<LedgerEvent>), SystemTransactionError>(spec_dust_error(e)),
            Ok((v, devs)) => res matches Ok((st, evs)) && {
                &&& st.wf()
                &&& st.network_id@ == self.network_id@
                &&& st.parameters == self.parameters
                &&& st.locked_pool == self.locked_pool
                &&& st.reserve_pool == self.reserve_pool
                &&& st.block_reward_pool == self.block_reward_pool
                &&& st.treasury@ == self.treasury@
                &&& st.bridge_receiving@ == self.bridge_receiving@
                &&& st.unclaimed_block_rewards@ == self.unclaimed_block_rewards@
                &&& st.contract@ == self.contract@
                &&& st.utxo@ == self.utxo@
                &&& st.replay_protection@ == self.replay_protection@
                &&& st.night_total() == self.night_total()
                &&& st.dust.dview() == v
                &&& evs@ == dust_ledger_events(devs)
            },
        }
    }

    /// Applies changes to DUST generation by cNIGHT held on Cardano.
    pub fn cnight_generates_dust_update(&self, actions: &Vec<CNightGeneratesDustEvent>, tblock: u64) -> (res: Result<(LedgerState, Vec<LedgerEvent>), SystemTransactionError>)
        requires
            self.wf(),
        ensures
            self.cnight_outcome(actions@, tblock, res),
    {
        let mut state = self.duplicate();
        let mut events: Vec<LedgerEvent> = Vec::new();
        let ghost v0 = self.dust.dview();
        let ghost devs: Seq<DustEvent> = Seq::empty();
        let mut i: usize = 0;
        while i < actions.len()
            invariant
                0 <= i <= actions@.len(),
                v0 == self.dust.dview(),
                self.wf(),
                state.wf(),
                state.network_id@ == self.network_id@,
                state.parameters == self.parameters,
                state.locked_pool == self.locked_pool,
                state.reserve_pool == self.reserve_pool,
                state.block_reward_pool == self.block_reward_pool,
                state.treasury@ == self.treasury@,
                state.bridge_receiving@ == self.bridge_receiving@,
                state.bridge_receiving.spec_total() == self.bridge_receiving.spec_total(),
                state.unclaimed_block_rewards@ == self.unclaimed_block_rewards@,
                state.unclaimed_block_rewards.spec_total() == self.unclaimed_block_rewards.spec_total(),
                state.contract@ == self.contract@,
                state.contract.spec_total() == self.contract.spec_total(),
                state.utxo@ == self.utxo@,
                state.utxo.spec_night_total() == self.utxo.spec_night_total(),
                state.replay_protection@ == self.replay_protection@,
                spec_cnight_updates(v0, actions@, tblock, i as nat) == Ok::<(DustView, Seq<DustEvent>), DustStateError>((state.dust.dview(), devs)),
                events@ == dust_ledger_events(devs),
            decreases actions@.len() - i,
        {
            let a = actions[i];
            match a.action {
                CNightGeneratesDustActionType::Create => {
                    match state.dust.fresh_dust_output(a.nonce, 0, a.value, a.owner, a.time, tblock) {
                        Ok((d, ev)) => {
                            state.dust = d;
                            events.push(LedgerEvent::Dust(ev));
                            proof {
                                assert(dust_ledger_events(devs.push(ev)) =~= dust_ledger_events(devs).push(LedgerEvent::Dust(ev)));
                                devs = devs.push(ev);
                            }
                        },
                        Err(e) => {
                            proof {
                                lemma_cnight_err_extends(v0, actions@, tblock, (i + 1) as nat, e);
                            }
                            return Err(dust_error(e));
                        },
                    }
                },
                CNightGeneratesDustActionType::Destroy => {
                    let ev = state.dust.update_dtime(&a.nonce, a.time, tblock);
                    match ev {
                        Some(ev) => {
                            events.push(LedgerEvent::Dust(ev));
                            proof {
                                assert(dust_ledger_events(devs.push(ev)) =~= dust_ledger_events(devs).push(LedgerEvent::Dust(ev)));
                                devs = devs.push(ev);
                            }
                        },
                        None => {},
                    }
                },
            }
            i = i + 1;
        }
        Ok((state, events))
    }

    /// Applies a system transaction at block time `tblock`. For a NIGHT
    /// distribution, `hashes[i]` is the intent hash of the `i`-th output
    /// instruction. Treasury payments are disabled.
    pub fn apply_system_tx(&self, tx: &SystemTransaction, tblock: u64, hashes: &Vec<IntentHash>) -> (res: Result<(LedgerState, Vec<LedgerEvent>), SystemTransactionError>)
        requires
            self.wf(),
            tx matches SystemTransaction::DistributeNight(kind, outputs) ==> {
                &&& hashes@.len() == outputs@.len()
                &&& self.payout_proceeds(*kind, outputs@) && outputs@.len() > 0 ==> tblock + self.parameters.global_ttl <= u64::MAX
                &&& self.payout_proceeds(*kind, outputs@) && kind == ClaimKind::CardanoBridge && (exists|i: int| 0 <= i < outputs@.len()
                    && #[trigger] outputs@[i].amount >= self.parameters.c_to_m_bridge_min_amount)
                    ==> self.parameters.cardano_to_midnight_bridge_fee_basis_points <= MAX_BASIS_POINTS
            },
        ensures
            match tx {
                SystemTransaction::OverwriteParameters(p) => self.overwrite_outcome(*p, res),
                SystemTransaction::DistributeNight(kind, outputs) => {
                    &&& self.distribute_night_outcome(*kind, outputs@, hashes@, tblock, match res {
                        Ok((st, _)) => Ok(st),
                        Err(e) => Err(e),
                    })
                    &&& res matches Ok((_, evs)) ==> evs@.len() == 0
                },
                SystemTransaction::PayBlockRewardsToTreasury { amount } => self.rewards_to_treasury_outcome(*amount, res),
                SystemTransaction::PayFromTreasuryShielded { .. } => res == Err::<(LedgerState, Vec<LedgerEvent>), SystemTransactionError>(SystemTransactionError::TreasuryDisabled),
                SystemTransaction::PayFromTreasuryUnshielded { .. } => res == Err::<(LedgerState, Vec<LedgerEvent>), SystemTransactionError>(SystemTransactionError::TreasuryDisabled),
                SystemTransaction::DistributeReserve(amount) => self.distribute_reserve_outcome(*amount, res),
                SystemTransaction::CNightGeneratesDustUpdate { events } => self.cnight_outcome(events@, tblock, res),
            },
    {
        match tx {
            SystemTransaction::OverwriteParameters(p) => self.overwrite_parameters(*p),
            SystemTransaction::DistributeNight(kind, outputs) => {
                match self.distribute_night(*kind, outputs, hashes, tblock) {
                    Ok(st) => Ok((st, Vec::new())),
                    Err(e) => Err(e),
                }
            },
            SystemTransaction::PayBlockRewardsToTreasury { amount } => self.pay_block_rewards_to_treasury(*amount),
            SystemTransaction::PayFromTreasuryShielded { .. } => Err(SystemTransactionError::TreasuryDisabled),
            SystemTransaction::PayFromTreasuryUnshielded { .. } => Err(SystemTransactionError::TreasuryDisabled),
            SystemTransaction::DistributeReserve(amount) => self.distribute_reserve(*amount),
            SystemTransaction::CNightGeneratesDustUpdate { events } => self.cnight_generates_dust_update(events, tblock),
        }
    }
}


/// A transaction claiming unclaimed block rewards or bridged funds into a
/// NIGHT output of the claimant.
#[derive(Debug, Clone)]
pub struct ClaimRewardsTransaction {
    pub network_id: String,
    pub value: u128,
    /// The claimant's address.
    pub owner: UserAddress,
    pub nonce: HashOutput,
    pub kind: ClaimKind,
}

/// Why a transaction failed on the ledger.
#[derive(Debug, Clone)]
pub enum TransactionInvalid {
    InsufficientClaimable { requested: u128, claimable: u128, claimant: UserAddress, kind: ClaimKind },
    RewardTooSmall { claimed: u128, minimum: u128 },
    ReplayProtectionViolation(TransactionApplicationError),
    InvariantViolation(InvariantViolation),
    DustState(DustStateError),
    /// A registration withdraws a DUST address that was never registered.
    DustDeregistrationNotRegistered(UserAddress),
    /// The NIGHT outputs a registration distributes DUST over hold no value.
    DivideByZero,
    /// A DUST nullifier was already spent.
    DustDoubleSpend(HashOutput),
    /// An unshielded offer spends an output that is not unspent.
    InputNotInUtxos(Utxo),
    /// A call or a maintenance update names a contract that is not there.
    ContractNotPresent(ContractAddress),
    /// A deployment names a contract that is already there.
    ContractAlreadyDeployed(ContractAddress),
    /// Running a call's transcript failed.
    TranscriptRejected(ContractAddress),
    /// A call's transcript produced other effects than it declares.
    EffectsMismatch(ContractAddress),
    /// The DUST commitment tree has no free leaf left.
    MerkleTreeError,
    /// A maintenance update was made under another authority counter than
    /// the contract's.
    ReplayCounterMismatch(ContractAddress),
    /// A maintenance update removes a verifier key that is not there.
    VerifierKeyNotFound(EntryPointBuf, ContractOperationVersion),
    /// A maintenance update inserts a verifier key where there is one.
    VerifierKeyAlreadyPresent(EntryPointBuf, ContractOperationVersion),
    /// A contract call takes a balance of the contract out of the range of
    /// `u128`.
    BalanceCheckOutOfBounds { token_type: TokenType, current_balance: u128, operation_value: u128, operation: BalanceOperation },
}

/// The outcome of applying a transaction: success with its events, success
/// of some segments (the outcome of each, and the events), or failure.
#[derive(Debug)]
pub enum TransactionResult {
    Success(Vec<LedgerEvent>),
    PartialSuccess(Vec<(u16, Result<(), TransactionInvalid>)>, Vec<LedgerEvent>),
    Failure(TransactionInvalid),
}

impl TransactionResult {
    /// The events of the outcome; none for a failure.
    pub fn events(&self) -> (r: Vec<LedgerEvent>)
        ensures
            self matches TransactionResult::Success(evs) ==> r@ == evs@,
            self matches TransactionResult::PartialSuccess(_, evs) ==> r@ == evs@,
            self is Failure ==> r@.len() == 0,
    {
        match self {
            TransactionResult::Success(evs) => copy_vec(evs),
            TransactionResult::PartialSuccess(_, evs) => copy_vec(evs),
            TransactionResult::Failure(_) => Vec::new(),
        }
    }
}

/// The NIGHT output that a claim creates.
pub open spec fn spec_claim_utxo(tx_value: u128, owner: UserAddress, hash: IntentHash) -> Utxo {
    Utxo { value: tx_value, owner, type_: spec_night(), intent_hash: hash, output_no: 0 }
}

impl LedgerState {
    /// The amount that `owner` may claim of the given kind.
    pub open spec fn claimable(&self, kind: ClaimKind, owner: UserAddress) -> int {
        match kind {
            ClaimKind::CardanoBridge => amount_at(self.bridge_receiving@, owner),
            ClaimKind::Reward => amount_at(self.unclaimed_block_rewards@, owner),
        }
    }

    /// What a claim gives (see `claim_unshielded`): on failure the state is
    /// unchanged and the result says why.
    pub open spec fn claim_outcome(
        &self,
        value: u128,
        owner: UserAddress,
        kind: ClaimKind,
        tblock: u64,
        min_claimable_rewards: u128,
        hash: IntentHash,
        dust_nonce: InitialNonce,
        res: (LedgerState, TransactionResult),
    ) -> bool {
        let claimable = self.claimable(kind, owner);
        let fail = |e: TransactionInvalid| res.0.same_as(self) && res.1 == TransactionResult::Failure(e);
        if value > claimable {
            fail(TransactionInvalid::InsufficientClaimable { requested: value, claimable: claimable as u128, claimant: owner, kind })
        } else if kind == ClaimKind::Reward && value < min_claimable_rewards {
            fail(TransactionInvalid::RewardTooSmall { claimed: value, minimum: min_claimable_rewards })
        } else {
            let remaining = (claimable - value) as u128;
            let global_ttl = self.parameters.global_ttl;
            match spec_apply_member(self.replay_protection@, hash, (tblock + global_ttl) as u64, tblock, global_ttl) {
                Err(e) => fail(TransactionInvalid::ReplayProtectionViolation(e)),
                Ok(replay) => {
                    let u = spec_claim_utxo(value, owner, hash);
                    let dust_result: Result<(DustView, Seq<DustEvent>), DustStateError> =
                        if self.dust.address_delegation@.contains_key(owner) {
                            match spec_fresh_dust_output(self.dust.dview(), dust_nonce, 0, value, self.dust.address_delegation@[owner], tblock, tblock) {
                                Ok((dv, ev)) => Ok((dv, seq![ev])),
                                Err(e) => Err(e),
                            }
                        } else {
                            Ok((self.dust.dview(), Seq::empty()))
                        };
                    let new_total = self.night_total() - value - self.utxo.night_at(u) + value;
                    match dust_result {
                        Err(e) => fail(TransactionInvalid::DustState(e)),
                        Ok((dv, devs)) => if new_total != MAX_SUPPLY {
                            fail(TransactionInvalid::InvariantViolation(InvariantViolation::NightBalance(new_total as u128)))
                        } else {
                            let st = res.0;
                            &&& st.wf()
                            &&& st.night_total() == MAX_SUPPLY
                            &&& res.1 matches TransactionResult::Success(evs) && evs@ == dust_ledger_events(devs)
                            &&& st.network_id@ == self.network_id@
                            &&& st.parameters == self.parameters
                            &&& st.locked_pool == self.locked_pool
                            &&& st.reserve_pool == self.reserve_pool
                            &&& st.block_reward_pool == self.block_reward_pool
                            &&& st.treasury@ == self.treasury@
                            &&& st.contract@ == self.contract@
                            &&& st.replay_protection@ == replay
                            &&& st.utxo@ == self.utxo@.insert(u, UtxoMeta { ctime: tblock })
                            &&& st.dust.dview() == dv
                            &&& (kind == ClaimKind::CardanoBridge ==> {
                                &&& st.unclaimed_block_rewards@ == self.unclaimed_block_rewards@
                                &&& st.bridge_receiving@ == (if remaining == 0 {
                                    self.bridge_receiving@.remove(owner)
                                } else {
                                    self.bridge_receiving@.insert(owner, remaining)
                                })
                            })
                            &&& (kind == ClaimKind::Reward ==> {
                                &&& st.bridge_receiving@ == self.bridge_receiving@
                                &&& st.unclaimed_block_rewards@ == (if remaining == 0 {
                                    self.unclaimed_block_rewards@.remove(owner)
                                } else {
                                    self.unclaimed_block_rewards@.insert(owner, remaining)
                                })
                            })
                        },
                    }
                },
            }
        }
    }
}

/// Applies a claim of block rewards or of bridged funds at block time
/// `tblock`: the claimed value leaves the claimant's unclaimed rewards (or
/// pending bridged funds) and becomes a NIGHT output of the claimant, created
/// under `hash` (the intent hash of the claim's output instruction), which
/// replay protection records. Where the claimant delegates DUST generation,
/// the new output starts generating DUST, backed by `dust_nonce`. Reward
/// claims below `min_claimable_rewards` are refused. On failure the state
/// returned is the one given.
pub fn claim_unshielded(
    state: &LedgerState,
    tx: &ClaimRewardsTransaction,
    tblock: u64,
    min_claimable_rewards: u128,
    hash: IntentHash,
    dust_nonce: InitialNonce,
) -> (res: (LedgerState, TransactionResult))
    requires
        state.wf(),
        tx.value <= state.claimable(tx.kind, tx.owner) && !(tx.kind == ClaimKind::Reward && tx.value < min_claimable_rewards)
            ==> tblock + state.parameters.global_ttl <= u64::MAX,
    ensures
        state.claim_outcome(tx.value, tx.owner, tx.kind, tblock, min_claimable_rewards, hash, dust_nonce, res),
{
    proof {
        state.lemma_totals();
        state.bridge_receiving.lemma_total_facts(tx.owner);
        state.unclaimed_block_rewards.lemma_total_facts(tx.owner);
    }
    let address = tx.owner;
    let claimable = match tx.kind {
        ClaimKind::CardanoBridge => state.bridge_receiving.get_or_zero(&address),
        ClaimKind::Reward => state.unclaimed_block_rewards.get_or_zero(&address),
    };
    if tx.value > claimable {
        return (
            state.duplicate(),
            TransactionResult::Failure(TransactionInvalid::InsufficientClaimable {
                requested: tx.value,
                claimable,
                claimant: address,
                kind: tx.kind,
            }),
        );
    }
    if tx.kind == ClaimKind::Reward && tx.value < min_claimable_rewards {
        return (
            state.duplicate(),
            TransactionResult::Failure(TransactionInvalid::RewardTooSmall {
                claimed: tx.value,
                minimum: min_claimable_rewards,
            }),
        );
    }
    let remaining = claimable - tx.value;
    let global_ttl = state.parameters.global_ttl;
    let replay_protection = match state.replay_protection.apply_member(hash, tblock + global_ttl, tblock, global_ttl) {
        Ok(v) => v,
        Err(e) => {
            return (state.duplicate(), TransactionResult::Failure(TransactionInvalid::ReplayProtectionViolation(e)));
        },
    };
    let mut new_st = state.duplicate();
    match tx.kind {
        ClaimKind::CardanoBridge => {
            if remaining == 0 {
                new_st.bridge_receiving.remove(&address);
            } else {
                new_st.bridge_receiving.insert(address, remaining);
            }
        },
        ClaimKind::Reward => {
            if remaining == 0 {
                new_st.unclaimed_block_rewards.remove(&address);
            } else {
                new_st.unclaimed_block_rewards.insert(address, remaining);
            }
        },
    }
    let output = Utxo { value: tx.value, owner: address, type_: night(), intent_hash: hash, output_no: 0 };
    proof {
        new_st.utxo.lemma_total_facts(output);
        new_st.lemma_totals();
    }
    new_st.utxo.insert(output, UtxoMeta { ctime: tblock });
    new_st.replay_protection = replay_protection;
    let mut events: Vec<LedgerEvent> = Vec::new();
    match state.dust.address_delegation.get(&address) {
        Some(dust_addr) => {
            match new_st.dust.fresh_dust_output(dust_nonce, 0, output.value, dust_addr, tblock, tblock) {
                Ok((d, ev)) => {
                    new_st.dust = d;
                    events.push(LedgerEvent::Dust(ev));
                    proof {
                        assert(dust_ledger_events(seq![ev]) =~= seq![LedgerEvent::Dust(ev)]);
                    }
                },
                Err(e) => {
                    return (state.duplicate(), TransactionResult::Failure(TransactionInvalid::DustState(e)));
                },
            }
        },
        None => {
            proof {
                assert(dust_ledger_events(Seq::<DustEvent>::empty()) =~= Seq::<LedgerEvent>::empty());
            }
        },
    }
    match new_st.check_night_balance_invariant() {
        Ok(()) => (new_st, TransactionResult::Success(events)),
        Err(e) => (state.duplicate(), TransactionResult::Failure(TransactionInvalid::InvariantViolation(e))),
    }
}

proof fn lemma_cnight_prefix(v: DustView, acts: Seq<CNightGeneratesDustEvent>, a: CNightGeneratesDustEvent, tblock: u64, n: nat)
    requires
        n <= acts.len(),
    ensures
        spec_cnight_updates(v, acts.push(a), tblock, n) == spec_cnight_updates(v, acts, tblock, n),
    decreases n,
{
    if n > 0 {
        lemma_cnight_prefix(v, acts, a, tblock, (n - 1) as nat);
        assert(acts.push(a)[n - 1] == acts[n - 1]);
    }
}

/// Destroying cNIGHT whose generation record is tracked ends its DUST
/// generation at the destruction time: after the actions before it, a
/// destroy action sets that record's dtime to its time (keeping its value,
/// owner and nonce), changes no other record and no index, and reports the
/// updated record in a dtime update event.
pub proof fn lemma_destroy_ends_generation(
    v: DustView,
    acts: Seq<CNightGeneratesDustEvent>,
    a: CNightGeneratesDustEvent,
    tblock: u64,
)
    requires
        a.action is Destroy,
        spec_cnight_updates(v, acts, tblock, acts.len()) matches Ok((w, _)) && w.indices.contains_key(a.nonce) && w.indices[a.nonce]
            < w.tree.len(),
    ensures
        ({
            let (w, evs) = spec_cnight_updates(v, acts, tblock, acts.len())->Ok_0;
            let idx = w.indices[a.nonce] as int;
            spec_cnight_updates(v, acts.push(a), tblock, acts.len() + 1) matches Ok((w2, evs2)) && w2.tree.len() == w.tree.len()
                && w2.tree[idx].dtime == a.time && w2.tree[idx].value == w.tree[idx].value && w2.tree[idx].owner == w.tree[idx].owner
                && w2.tree[idx].nonce == w.tree[idx].nonce && (forall|j: int| 0 <= j < w.tree.len() && j != idx ==> w2.tree[j] == w.tree[j])
                && w2.indices == w.indices && evs2.len() == evs.len() + 1 && evs2.last() == DustEvent::GenerationDtimeUpdate {
                index: idx as u64,
                generation: w2.tree[idx],
                block_time: tblock,
            }
        }),
{
    lemma_cnight_prefix(v, acts, a, tblock, acts.len());
    assert(acts.push(a)[acts.len() as int] == a);
}

/// Creating cNIGHT starts DUST generation for it: after the actions before
/// it, a create action whose record is new (and where the trees have room)
/// appends a generating record of its value, owner and nonce that never
/// stops (dtime `u64::MAX`), indexes its nonce there, and reports a DUST
/// output of initial value zero created at the action's time.
pub proof fn lemma_create_starts_generation(
    v: DustView,
    acts: Seq<CNightGeneratesDustEvent>,
    a: CNightGeneratesDustEvent,
    tblock: u64,
)
    requires
        a.action is Create,
        spec_cnight_updates(v, acts, tblock, acts.len()) matches Ok((w, _)) && w.commitments_first_free < DUST_TREE_CAPACITY
            && w.tree.len() < DUST_TREE_CAPACITY && forall|i: int|
            0 <= i < w.tree.len() ==> !(#[trigger] w.tree[i].value == a.value && w.tree[i].owner == a.owner && w.tree[i].nonce == a.nonce),
    ensures
        ({
            let (w, evs) = spec_cnight_updates(v, acts, tblock, acts.len())->Ok_0;
            let g = DustGenerationInfo { value: a.value, owner: a.owner, nonce: a.nonce, dtime: u64::MAX };
            spec_cnight_updates(v, acts.push(a), tblock, acts.len() + 1) matches Ok((w2, evs2)) && w2.tree == w.tree.push(g)
                && w2.indices == w.indices.insert(a.nonce, w.tree.len() as u64) && w2.delegation == w.delegation
                && w2.nullifiers == w.nullifiers && w2.commitments_first_free == w.commitments_first_free + 1
                && evs2 == evs.push(DustEvent::InitialUtxo {
                initial_value: 0,
                owner: a.owner,
                ctime: a.time,
                backing_night: a.nonce,
                mt_index: w.commitments_first_free,
                generation: g,
                generation_index: w.tree.len() as u64,
                block_time: tblock,
            })
        }),
{
    lemma_cnight_prefix(v, acts, a, tblock, acts.len());
    assert(acts.push(a)[acts.len() as int] == a);
    let w = spec_cnight_updates(v, acts, tblock, acts.len())->Ok_0.0;
    let g = spec_fresh_generation(a.value, a.owner, a.nonce);
    assert(!exists|i: int| 0 <= i < w.tree.len() && same_generation(#[trigger] w.tree[i], g));
}

} // verus!

verus! {

/// Law: a system transaction that succeeds on a ledger whose NIGHT adds up
/// to the supply leaves a ledger whose NIGHT still adds up to the supply.
pub proof fn lemma_system_tx_preserves_supply(
    st: &LedgerState,
    tx: &SystemTransaction,
    tblock: u64,
    hashes: Seq<IntentHash>,
    res: Result<(LedgerState, Vec<LedgerEvent>), SystemTransactionError>,
)
    requires
        st.wf(),
        st.night_total() == MAX_SUPPLY,
        match tx {
            SystemTransaction::OverwriteParameters(p) => st.overwrite_outcome(*p, res),
            SystemTransaction::DistributeNight(kind, outputs) => st.distribute_night_outcome(*kind, outputs@, hashes, tblock, match res {
                Ok((s, _)) => Ok(s),
                Err(e) => Err(e),
            }),
            SystemTransaction::PayBlockRewardsToTreasury { amount } => st.rewards_to_treasury_outcome(*amount, res),
            SystemTransaction::PayFromTreasuryShielded { .. } => res == Err::<(LedgerState, Vec<LedgerEvent>), SystemTransactionError>(SystemTransactionError::TreasuryDisabled),
            SystemTransaction::PayFromTreasuryUnshielded { .. } => res == Err::<(LedgerState, Vec<LedgerEvent>), SystemTransactionError>(SystemTransactionError::TreasuryDisabled),
            SystemTransaction::DistributeReserve(amount) => st.distribute_reserve_outcome(*amount, res),
            SystemTransaction::CNightGeneratesDustUpdate { events } => st.cnight_outcome(events@, tblock, res),
        },
        res is Ok,
    ensures
        res matches Ok((s, _)) && s.wf() && s.night_total() == MAX_SUPPLY,
{
    st.lemma_totals();
    match tx {
        SystemTransaction::PayBlockRewardsToTreasury { amount } => {
            let t = amount_at(st.treasury@, night_key());
            assert(t + *amount <= st.night_total());
        },
        _ => {},
    }
}

/// Law: a claim that succeeds leaves NIGHT adding up to the supply, and the
/// claimed value is taken from the claimant's claimable amount and found in
/// a new NIGHT output of the claimant.
pub proof fn lemma_claim_success(
    st: &LedgerState,
    value: u128,
    owner: UserAddress,
    kind: ClaimKind,
    tblock: u64,
    min_claimable_rewards: u128,
    hash: IntentHash,
    dust_nonce: InitialNonce,
    res: (LedgerState, TransactionResult),
)
    requires
        st.wf(),
        st.claim_outcome(value, owner, kind, tblock, min_claimable_rewards, hash, dust_nonce, res),
        res.1 is Success,
    ensures
        res.0.wf(),
        res.0.night_total() == MAX_SUPPLY,
        value <= st.claimable(kind, owner),
        res.0.claimable(kind, owner) == st.claimable(kind, owner) - value,
        res.0.utxo@.contains_key(spec_claim_utxo(value, owner, hash)),
        res.0.replay_protection@.contains_key(hash),
        !st.replay_protection@.contains_key(hash),
{
}

} // verus!
