//! Deciding a token transfer: which ledger is asked, by which of its two
//! interfaces, for how much and at what fee. The call itself is the
//! caller's business.

use crate::copy::copy_bytes;
use vstd::prelude::*;

verus! {

/// The fee of a transfer from an account that is not the minting account.
pub const NON_MINTER_FEE: u64 = 10_000;

/// The amount of every transfer, in the smallest unit of the token.
pub const TRANSFER_AMOUNT: u64 = 1_000_000_000;

/// A ledger to transfer on: the bytes of its canister's principal, and
/// whether this canister is its minting account.
#[derive(Clone, Debug, PartialEq, Eq)]
pub struct LedgerConfig {
    pub canister_id: Vec<u8>,
    pub is_mint: bool,
}

pub struct LedgerView {
    pub canister_id: Seq<u8>,
    pub is_mint: bool,
}

impl View for LedgerConfig {
    type V = LedgerView;

    open spec fn view(&self) -> LedgerView {
        LedgerView { canister_id: self.canister_id@, is_mint: self.is_mint }
    }
}

/// The two ledgers that the canister transfers on.
#[derive(Clone, Debug, PartialEq, Eq)]
pub struct State {
    pub icp_ledger: LedgerConfig,
    pub icrc1_ledger: LedgerConfig,
}

/// The bytes of the anonymous principal.
pub open spec fn anonymous() -> Seq<u8> {
    seq![4u8]
}

/// Calls `Principal::anonymous`, the principal that is the single byte 4,
/// and copies its bytes out.
#[verifier::external_body]
fn anonymous_principal() -> (bytes: Vec<u8>)
    ensures
        bytes@ == anonymous(),
{
    candid::Principal::anonymous().as_slice().to_vec()
}

impl Default for State {
    /// Before it is configured, the canister transfers on no ledger: both
    /// are the anonymous principal, and it mints on neither.
    fn default() -> (state: State)
        ensures
            state.icp_ledger@ == (LedgerView { canister_id: anonymous(), is_mint: false }),
            state.icrc1_ledger@ == (LedgerView { canister_id: anonymous(), is_mint: false }),
    {
        State {
            icp_ledger: LedgerConfig { canister_id: anonymous_principal(), is_mint: false },
            icrc1_ledger: LedgerConfig { canister_id: anonymous_principal(), is_mint: false },
        }
    }
}

/// A transfer to make.
#[derive(Clone, Debug, PartialEq, Eq)]
pub enum Transfer {
    /// By the ledger's token-standard interface, to the default account of
    /// the principal `owner`.
    ToPrincipal { ledger: Vec<u8>, owner: Vec<u8>, amount: u64, fee: u64 },
    /// By the ledger's legacy interface, to an account identifier.
    ToAccount { ledger: Vec<u8>, account: Vec<u8>, amount: u64, fee: u64, memo: u64 },
}

pub enum TransferView {
    ToPrincipal { ledger: Seq<u8>, owner: Seq<u8>, amount: u64, fee: u64 },
    ToAccount { ledger: Seq<u8>, account: Seq<u8>, amount: u64, fee: u64, memo: u64 },
}

impl View for Transfer {
    type V = TransferView;

    open spec fn view(&self) -> TransferView {
        match self {
            Transfer::ToPrincipal { ledger, owner, amount, fee } => TransferView::ToPrincipal {
                ledger: ledger@,
                owner: owner@,
                amount: *amount,
                fee: *fee,
            },
            Transfer::ToAccount { ledger, account, amount, fee, memo } => TransferView::ToAccount {
                ledger: ledger@,
                account: account@,
                amount: *amount,
                fee: *fee,
                memo: *memo,
            },
        }
    }
}

/// The receiver of a transfer is neither a principal nor an account
/// identifier.
#[derive(Clone, Copy, Debug, PartialEq, Eq, Structural)]
pub enum TransferError {
    InvalidIdentifier,
}

/// The bytes of the principal that `Principal::from_text` reads from a
/// text, if it reads one.
pub uninterp spec fn principal_of_text(text: Seq<char>) -> Option<Seq<u8>>;

/// The 32 bytes of the account identifier that `AccountIdentifier::from_hex`
/// reads from a text, if it reads one.
pub uninterp spec fn account_of_hex(text: Seq<char>) -> Option<Seq<u8>>;

pub open spec fn bytes_view(bytes: Option<Vec<u8>>) -> Option<Seq<u8>> {
    match bytes {
        Some(b) => Some(b@),
        None => None,
    }
}

/// Calls `Principal::from_text` and copies the bytes of the principal out.
#[verifier::external_body]
fn parse_principal(text: &str) -> (bytes: Option<Vec<u8>>)
    ensures
        bytes_view(bytes) == principal_of_text(text@),
{
    candid::Principal::from_text(text).ok().map(|p| p.as_slice().to_vec())
}

/// Calls `AccountIdentifier::from_hex` and copies the bytes of the account
/// identifier out.
#[verifier::external_body]
fn parse_account(text: &str) -> (bytes: Option<Vec<u8>>)
    ensures
        bytes_view(bytes) == account_of_hex(text@),
{
    ic_ledger_types::AccountIdentifier::from_hex(text).ok().map(|a| a.as_bytes().to_vec())
}

/// The fee of a transfer: the minting account pays none.
pub open spec fn fee_of(is_mint: bool) -> u64 {
    if is_mint {
        0
    } else {
        NON_MINTER_FEE
    }
}

pub fn transfer_fee(is_mint: bool) -> (fee: u64)
    ensures
        fee == fee_of(is_mint),
{
    if is_mint {
        0
    } else {
        NON_MINTER_FEE
    }
}

/// The transfer of the fixed amount to a principal, on a ledger.
pub open spec fn to_principal(ledger: LedgerView, owner: Seq<u8>) -> TransferView {
    TransferView::ToPrincipal {
        ledger: ledger.canister_id,
        owner,
        amount: TRANSFER_AMOUNT,
        fee: fee_of(ledger.is_mint),
    }
}

/// The transfer of the fixed amount to an account identifier, on a ledger.
pub open spec fn to_account(ledger: LedgerView, account: Seq<u8>) -> TransferView {
    TransferView::ToAccount {
        ledger: ledger.canister_id,
        account,
        amount: TRANSFER_AMOUNT,
        fee: fee_of(ledger.is_mint),
        memo: 0,
    }
}

/// What a receiver that was read both ways comes to: a principal is paid
/// as one; else an account identifier is paid as one; else nobody is paid.
pub open spec fn chosen(ledger: LedgerView, principal: Option<Seq<u8>>, account: Option<Seq<u8>>) -> Result<
    TransferView,
    TransferError,
> {
    match principal {
        Some(owner) => Ok(to_principal(ledger, owner)),
        None => match account {
            Some(bytes) => Ok(to_account(ledger, bytes)),
            None => Err(TransferError::InvalidIdentifier),
        },
    }
}

pub open spec fn transfer_view(result: Result<Transfer, TransferError>) -> Result<
    TransferView,
    TransferError,
> {
    match result {
        Ok(transfer) => Ok(transfer@),
        Err(error) => Err(error),
    }
}

/// Decides the transfer to a principal on a ledger.
pub fn transfer_icrc1_to_principal(ledger: &LedgerConfig, owner: Vec<u8>) -> (transfer: Transfer)
    ensures
        transfer@ == to_principal(ledger@, owner@),
{
    Transfer::ToPrincipal {
        ledger: copy_bytes(&ledger.canister_id),
        owner,
        amount: TRANSFER_AMOUNT,
        fee: transfer_fee(ledger.is_mint),
    }
}

/// Decides the transfer for a receiver that was read both ways.
pub fn choose_transfer(ledger: &LedgerConfig, principal: Option<Vec<u8>>, account: Option<Vec<u8>>) -> (result:
    Result<Transfer, TransferError>)
    ensures
        transfer_view(result) == chosen(ledger@, bytes_view(principal), bytes_view(account)),
{
    match principal {
        Some(owner) => Ok(transfer_icrc1_to_principal(ledger, owner)),
        None => match account {
            Some(bytes) => Ok(
                Transfer::ToAccount {
                    ledger: copy_bytes(&ledger.canister_id),
                    account: bytes,
                    amount: TRANSFER_AMOUNT,
                    fee: transfer_fee(ledger.is_mint),
                    memo: 0,
                },
            ),
            None => Err(TransferError::InvalidIdentifier),
        },
    }
}

/// Decides the transfer of tokens of the token-standard ledger to a
/// principal.
pub fn transfer_icrc1(state: &State, owner: Vec<u8>) -> (transfer: Transfer)
    ensures
        transfer@ == to_principal(state.icrc1_ledger@, owner@),
{
    transfer_icrc1_to_principal(&state.icrc1_ledger, owner)
}

/// Decides the transfer of tokens of the main ledger to a receiver given
/// as text: read as a principal first, then as an account identifier.
pub fn transfer_icp(state: &State, to_identifier: &str) -> (result: Result<Transfer, TransferError>)
    ensures
        transfer_view(result) == chosen(
            state.icp_ledger@,
            principal_of_text(to_identifier@),
            account_of_hex(to_identifier@),
        ),
{
    match parse_principal(to_identifier) {
        Some(owner) => choose_transfer(&state.icp_ledger, Some(owner), None),
        None => choose_transfer(&state.icp_ledger, None, parse_account(to_identifier)),
    }
}

} // verus!
