use vstd::prelude::*;

verus! {

/// A Stellar address as plain data: whether it names a contract (else an
/// account) and its 32-byte key, as big-endian high and low halves.
#[derive(Clone, Copy, Debug, PartialEq, Eq, Hash, Structural)]
pub struct Address {
    pub is_contract: bool,
    pub key_hi: u128,
    pub key_lo: u128,
}

/// Remaining time, in seconds, below which `ping_expiry` emits a warning (24 hours).
pub const EXPIRY_WARNING_THRESHOLD: u64 = 86_400;

/// Errors of the vault contract, with the numeric codes the host reports.
#[derive(Clone, Copy, Debug, PartialEq, Eq, PartialOrd, Ord, Hash, Structural)]
pub enum ContractError {
    AlreadyInitialized,
    InvalidInterval,
    VaultNotFound,
    EmptyVault,
    InvalidAmount,
    NotOwner,
    AlreadyReleased,
    InsufficientBalance,
    NotAdmin,
    Paused,
    NoPendingAdmin,
    InvalidBps,
    NotExpiringSoon,
    IntervalTooLow,
    IntervalTooHigh,
    NotExpired,
    InvalidBeneficiary,
    BalanceOverflow,
    VaultExpired,
}

/// The numeric code under which each contract error is reported.
pub open spec fn error_code(e: ContractError) -> u32 {
    match e {
        ContractError::AlreadyInitialized => 1,
        ContractError::InvalidInterval => 2,
        ContractError::VaultNotFound => 3,
        ContractError::EmptyVault => 4,
        ContractError::InvalidAmount => 5,
        ContractError::NotOwner => 6,
        ContractError::AlreadyReleased => 7,
        ContractError::InsufficientBalance => 8,
        ContractError::NotAdmin => 9,
        ContractError::Paused => 10,
        ContractError::NoPendingAdmin => 11,
        ContractError::InvalidBps => 12,
        ContractError::NotExpiringSoon => 13,
        ContractError::IntervalTooLow => 14,
        ContractError::IntervalTooHigh => 15,
        ContractError::NotExpired => 16,
        ContractError::InvalidBeneficiary => 11,
        ContractError::BalanceOverflow => 12,
        ContractError::VaultExpired => 17,
    }
}

impl ContractError {
    /// The numeric code of this error.
    pub fn code(&self) -> (c: u32)
        ensures
            c == error_code(*self),
    {
        match self {
            ContractError::AlreadyInitialized => 1,
            ContractError::InvalidInterval => 2,
            ContractError::VaultNotFound => 3,
            ContractError::EmptyVault => 4,
            ContractError::InvalidAmount => 5,
            ContractError::NotOwner => 6,
            ContractError::AlreadyReleased => 7,
            ContractError::InsufficientBalance => 8,
            ContractError::NotAdmin => 9,
            ContractError::Paused => 10,
            ContractError::NoPendingAdmin => 11,
            ContractError::InvalidBps => 12,
            ContractError::NotExpiringSoon => 13,
            ContractError::IntervalTooLow => 14,
            ContractError::IntervalTooHigh => 15,
            ContractError::NotExpired => 16,
            ContractError::InvalidBeneficiary => 11,
            ContractError::BalanceOverflow => 12,
            ContractError::VaultExpired => 17,
        }
    }
}

/// Why an operation stopped: a contract error, or an integer overflow in the
/// contract's own arithmetic (which aborts the invocation).
#[derive(Clone, Copy, Debug, PartialEq, Eq, Structural)]
pub enum Failure {
    Contract(ContractError),
    ArithmeticOverflow,
}

/// Lifecycle of a vault.
#[derive(Clone, Copy, Debug, PartialEq, Eq, Hash, Structural)]
pub enum ReleaseStatus {
    Locked,
    Released,
    Cancelled,
}

/// A single beneficiary entry: (address, basis points).
/// All entries of a vault's beneficiaries sum to 10_000 bps (100%).
#[derive(Clone, Copy, Debug, PartialEq, Eq, Structural)]
pub struct BeneficiaryEntry {
    pub address: Address,
    pub bps: u32,
}

/// A time-locked vault.
#[derive(Debug)]
pub struct Vault {
    pub owner: Address,
    /// Primary beneficiary; used by a release only while `beneficiaries` is empty.
    pub beneficiary: Address,
    pub balance: i128,
    /// Seconds allowed between check-ins.
    pub check_in_interval: u64,
    /// Ledger timestamp of the last check-in.
    pub last_check_in: u64,
    pub status: ReleaseStatus,
    /// Multi-beneficiary split; empty means the primary beneficiary takes 100%.
    pub beneficiaries: Vec<BeneficiaryEntry>,
    /// Short metadata (a label or a content hash), as bytes.
    pub metadata: Vec<u8>,
}

/// The mathematical value of a vault.
pub struct VaultView {
    pub owner: Address,
    pub beneficiary: Address,
    pub balance: i128,
    pub check_in_interval: u64,
    pub last_check_in: u64,
    pub status: ReleaseStatus,
    pub beneficiaries: Seq<BeneficiaryEntry>,
    pub metadata: Seq<u8>,
}

impl View for Vault {
    type V = VaultView;

    open spec fn view(&self) -> VaultView {
        VaultView {
            owner: self.owner,
            beneficiary: self.beneficiary,
            balance: self.balance,
            check_in_interval: self.check_in_interval,
            last_check_in: self.last_check_in,
            status: self.status,
            beneficiaries: self.beneficiaries@,
            metadata: self.metadata@,
        }
    }
}

/// Payload of a release event: what one beneficiary received.
#[derive(Clone, Copy, Debug, PartialEq, Eq, Structural)]
pub struct ReleaseEvent {
    pub vault_id: u64,
    pub beneficiary: Address,
    pub amount: i128,
}

/// Events the contract publishes.
#[derive(Clone, Copy, Debug, PartialEq, Eq, Structural)]
pub enum Event {
    VaultCreated { vault_id: u64, owner: Address, beneficiary: Address, check_in_interval: u64 },
    CheckIn { vault_id: u64, at: u64 },
    Deposit { vault_id: u64, amount: i128, balance: i128 },
    Withdraw { vault_id: u64, amount: i128, balance: i128 },
    Release(ReleaseEvent),
    PingExpiry { vault_id: u64, ttl: u64 },
    PartialRelease { vault_id: u64, beneficiary: Address, amount: i128 },
    Cancel { vault_id: u64, owner: Address, refund: i128 },
    OwnershipTransfer { vault_id: u64, old_owner: Address, new_owner: Address },
}

/// The 32-byte hash of uploaded contract code, as big-endian high and low
/// halves.
#[derive(Clone, Copy, Debug, PartialEq, Eq, Hash, Structural)]
pub struct WasmHash {
    pub hi: u128,
    pub lo: u128,
}

/// A call into the host that an operation makes; any of them may abort the
/// invocation.
#[derive(Clone, Copy, Debug, PartialEq, Eq, Structural)]
pub enum HostCall {
    /// The address must have authorized this invocation.
    RequireAuth(Address),
    /// Move `amount` of `token` from `from` to this contract.
    CollectTokens { token: Address, from: Address, amount: i128 },
    /// Move `amount` of `token` from this contract to `to`.
    PayTokens { token: Address, to: Address, amount: i128 },
    /// Replace this contract's code with the uploaded code of this hash.
    UpdateContractWasm(WasmHash),
}

/// What an operation reports: the host calls it makes, in order (all of them
/// made before the result is known), its result, and the events to publish
/// when it succeeds.
pub struct Outcome<T> {
    pub calls: Vec<HostCall>,
    pub result: Result<T, Failure>,
    pub events: Vec<Event>,
}

/// One entry of a vault index: `vault_id` is listed under `address`.
#[derive(Clone, Copy, Debug, PartialEq, Eq, Structural)]
pub struct IndexRecord {
    pub address: Address,
    pub vault_id: u64,
}

} // verus!
