//! Resolution of a call descriptor into the outbound call that the wallet
//! signs, behind the guardian check.

use vstd::prelude::*;
use crate::codec::{
    DescriptorModel, VerveInstruction, encode_descriptor, lemma_decode_encode, lemma_encode_decode,
    lemma_truncated_rejected, parse_descriptor,
};
use crate::error::AaError;
use crate::keys::{Pubkey, WalletSigner, wallet_of};
use crate::registry::{
    GuardianRegistry, WalletGuardian, auth_error, bind_outcome, check_wallet, has_record, live_guardian_of, wallet_error,
};

verus! {

/// One account of an outbound call, with its access flags.
#[derive(Clone, Copy, Debug)]
pub struct AccountMeta {
    pub pubkey: Pubkey,
    pub is_signer: bool,
    pub is_writable: bool,
}

pub ghost struct MetaModel {
    pub pubkey: Seq<u8>,
    pub is_signer: bool,
    pub is_writable: bool,
}

impl View for AccountMeta {
    type V = MetaModel;

    open spec fn view(&self) -> MetaModel {
        MetaModel { pubkey: self.pubkey@, is_signer: self.is_signer, is_writable: self.is_writable }
    }
}

impl AccountMeta {
    /// A writable account.
    pub fn new(pubkey: Pubkey, is_signer: bool) -> (r: AccountMeta)
        ensures
            r@ == (MetaModel { pubkey: pubkey@, is_signer, is_writable: true }),
    {
        AccountMeta { pubkey, is_signer, is_writable: true }
    }

    /// A read-only account.
    pub fn new_readonly(pubkey: Pubkey, is_signer: bool) -> (r: AccountMeta)
        ensures
            r@ == (MetaModel { pubkey: pubkey@, is_signer, is_writable: false }),
    {
        AccountMeta { pubkey, is_signer, is_writable: false }
    }
}

/// An outbound call: the program to call, its accounts in order, and the
/// data handed to it.
#[derive(Clone, Debug)]
pub struct Instruction {
    pub program_id: Pubkey,
    pub accounts: Vec<AccountMeta>,
    pub data: Vec<u8>,
}

pub ghost struct InstructionModel {
    pub program_id: Seq<u8>,
    pub accounts: Seq<MetaModel>,
    pub data: Seq<u8>,
}

impl View for Instruction {
    type V = InstructionModel;

    open spec fn view(&self) -> InstructionModel {
        InstructionModel {
            program_id: self.program_id@,
            accounts: self.accounts@.map_values(|m: AccountMeta| m@),
            data: self.data@,
        }
    }
}

/// The accounts of an execution.
#[derive(Clone, Copy, Debug)]
pub struct ExecInstruction {
    pub wallet: Pubkey,
    pub seed_guardian: Pubkey,
    pub guardian: Pubkey,
    pub payer: Pubkey,
}

/// What the host is asked to do: issue `instruction`, signed as the wallet
/// through `signer`, handing it the account table from `cpi_accounts_start`
/// on (the accounts after the target program).
#[derive(Clone, Debug)]
pub struct SignedCall {
    pub instruction: Instruction,
    pub signer: WalletSigner,
    pub cpi_accounts_start: usize,
}

/// The accounts of the type-export entry point: none.
#[derive(Clone, Copy, Debug)]
pub struct GenerateIdls {}

/// The types that the interface description exports.
#[derive(Clone, Debug)]
pub struct Types {
    pub wallet_guardian: WalletGuardian,
    pub verve_instruction: VerveInstruction,
}

/// Entry point that exists only to export `Types`; it does nothing.
pub fn generate_idl_types_noop(_ctx: &GenerateIdls, _types: Types) -> (r: Result<(), AaError>)
    ensures
        r == Ok::<(), AaError>(()),
{
    Ok(())
}

/// The identities of an account table.
pub open spec fn keys_of(table: Seq<Pubkey>) -> Seq<Seq<u8>> {
    table.map_values(|k: Pubkey| k@)
}

/// Every index of the descriptor names an entry of a table of `n` accounts.
pub open spec fn indices_in_range(d: DescriptorModel, n: nat) -> bool {
    &&& forall|i: int| 0 <= i < d.account_indices.len() ==> d.account_indices[i] < n
    &&& d.program_account_index < n
}

/// The accounts of the outbound call, in the order of the descriptor.
pub open spec fn resolved_accounts(d: DescriptorModel, table: Seq<Seq<u8>>) -> Seq<MetaModel> {
    Seq::new(
        d.account_indices.len(),
        |i: int|
            MetaModel {
                pubkey: table[d.account_indices[i] as int],
                is_signer: d.signer_accounts[i],
                is_writable: d.writable_accounts[i],
            },
    )
}

/// The outbound call that a descriptor stands for against a table.
pub open spec fn planned_instruction(d: DescriptorModel, table: Seq<Seq<u8>>) -> InstructionModel {
    InstructionModel {
        program_id: table[d.program_account_index as int],
        accounts: resolved_accounts(d, table),
        data: d.data,
    }
}

/// The first check that an execution fails, if any: the wallet derivation,
/// the guardian check, the decoding of the payload, and the resolution of
/// its indices, in that order.
pub open spec fn exec_error(
    h: Seq<(Seq<u8>, Seq<u8>)>,
    wallet: Seq<u8>,
    seed_guardian: Seq<u8>,
    guardian: Seq<u8>,
    table: Seq<Seq<u8>>,
    bytes: Seq<u8>,
) -> Option<AaError> {
    if wallet_error(wallet, seed_guardian) is Some {
        wallet_error(wallet, seed_guardian)
    } else if auth_error(h, wallet, guardian) is Some {
        auth_error(h, wallet, guardian)
    } else {
        match parse_descriptor(bytes) {
            None => Some(AaError::MalformedPayload),
            Some(d) => if indices_in_range(d, table.len()) {
                None
            } else {
                Some(AaError::IndexOutOfRange)
            },
        }
    }
}

/// Resolves a descriptor against an account table into an outbound call.
pub fn build_instruction(d: VerveInstruction, table: &Vec<Pubkey>) -> (r: Result<Instruction, AaError>)
    requires
        d.wf(),
    ensures
        match r {
            Ok(ins) => indices_in_range(d@, table@.len()) && ins@ == planned_instruction(d@, keys_of(table@)),
            Err(e) => !indices_in_range(d@, table@.len()) && e == AaError::IndexOutOfRange,
        },
{
    let ghost keys = keys_of(table@);
    let mut accounts: Vec<AccountMeta> = Vec::new();
    let mut i: usize = 0;
    while i < d.account_indices.len()
        invariant
            d.wf(),
            keys == keys_of(table@),
            i <= d.account_indices@.len(),
            forall|j: int| 0 <= j < i ==> d.account_indices@[j] < table@.len(),
            accounts@.map_values(|m: AccountMeta| m@) =~= resolved_accounts(d@, keys).take(i as int),
        decreases d.account_indices@.len() - i,
    {
        let index = d.account_indices[i] as usize;
        if index >= table.len() {
            return Err(AaError::IndexOutOfRange);
        }
        let account_key = table[index];
        let is_writable = d.writable_accounts[i];
        let is_signer = d.signer_accounts[i];
        let meta = if is_writable {
            AccountMeta::new(account_key, is_signer)
        } else {
            AccountMeta::new_readonly(account_key, is_signer)
        };
        assert(keys[index as int] == account_key@);
        assert(meta@ == resolved_accounts(d@, keys)[i as int]);
        let ghost before = accounts@;
        accounts.push(meta);
        assert(accounts@.map_values(|m: AccountMeta| m@) =~= before.map_values(|m: AccountMeta| m@).push(meta@));
        i = i + 1;
        assert(accounts@.map_values(|m: AccountMeta| m@) =~= resolved_accounts(d@, keys).take(i as int));
    }
    assert(resolved_accounts(d@, keys).take(i as int) =~= resolved_accounts(d@, keys));
    let program_index = d.program_account_index as usize;
    if program_index >= table.len() {
        return Err(AaError::IndexOutOfRange);
    }
    let program_id = table[program_index];
    Ok(Instruction { program_id, accounts, data: d.data })
}

/// Executes a call for a wallet: checks that the wallet derives from the
/// seed guardian and that `guardian` is its live guardian, decodes the
/// descriptor, and resolves it against `remaining_accounts` into the call
/// that the host is to issue signed as the wallet.
pub fn exec_instruction(
    registry: &GuardianRegistry,
    ctx: &ExecInstruction,
    remaining_accounts: &Vec<Pubkey>,
    instruction_data: &[u8],
) -> (r: Result<SignedCall, AaError>)
    ensures
        match r {
            Ok(call) => {
                &&& exec_error(
                    registry@,
                    ctx.wallet@,
                    ctx.seed_guardian@,
                    ctx.guardian@,
                    keys_of(remaining_accounts@),
                    instruction_data@,
                ) is None
                &&& call.instruction@ == planned_instruction(
                    parse_descriptor(instruction_data@)->0,
                    keys_of(remaining_accounts@),
                )
                &&& wallet_of(ctx.seed_guardian@) == Some((ctx.wallet@, call.signer.bump))
                &&& call.signer.seed_guardian@ == ctx.seed_guardian@
                &&& call.cpi_accounts_start == parse_descriptor(instruction_data@)->0.program_account_index + 1
            },
            Err(e) => exec_error(
                registry@,
                ctx.wallet@,
                ctx.seed_guardian@,
                ctx.guardian@,
                keys_of(remaining_accounts@),
                instruction_data@,
            ) == Some(e),
        },
{
    let signer = check_wallet(&ctx.wallet, &ctx.seed_guardian)?;
    registry.authorize(&ctx.wallet, &ctx.guardian)?;
    let verve_instruction = VerveInstruction::try_from_slice(instruction_data)?;
    proof {
        lemma_encode_decode(instruction_data@);
    }
    let program_account_index = verve_instruction.program_account_index;
    let instruction = build_instruction(verve_instruction, remaining_accounts)?;
    Ok(SignedCall { instruction, signer, cpi_accounts_start: program_account_index as usize + 1 })
}

/// A wallet just created by its seed guardian lets that guardian execute
/// any well-formed descriptor that references no accounts and whose target
/// lies in the account table.
pub proof fn lemma_init_then_execute(
    h: Seq<(Seq<u8>, Seq<u8>)>,
    wallet: Seq<u8>,
    seed_guardian: Seq<u8>,
    table: Seq<Seq<u8>>,
    d: DescriptorModel,
)
    requires
        bind_outcome(h, wallet, seed_guardian, seed_guardian).1 is Ok,
        d.wf(),
        d.account_indices.len() == 0,
        d.program_account_index < table.len(),
    ensures
        exec_error(
            bind_outcome(h, wallet, seed_guardian, seed_guardian).0,
            wallet,
            seed_guardian,
            seed_guardian,
            table,
            encode_descriptor(d),
        ) is None,
{
    let h1 = bind_outcome(h, wallet, seed_guardian, seed_guardian).0;
    assert(h1[h.len() as int] == (wallet, seed_guardian));
    assert(has_record(h1, wallet, seed_guardian));
    assert(live_guardian_of(h1, wallet) == Some(seed_guardian));
    lemma_decode_encode(d);
}

/// After a wallet is created by its seed guardian and its guardian rotated
/// to another key, the seed guardian is refused with `GuardianMismatch`,
/// while the assigned guardian passes the checks and executes every
/// descriptor whose indices lie in the account table.
pub proof fn lemma_rotation_moves_authority(
    h: Seq<(Seq<u8>, Seq<u8>)>,
    wallet: Seq<u8>,
    seed_guardian: Seq<u8>,
    assigned_guardian: Seq<u8>,
    table: Seq<Seq<u8>>,
    bytes: Seq<u8>,
)
    requires
        assigned_guardian != seed_guardian,
        bind_outcome(h, wallet, seed_guardian, seed_guardian).1 is Ok,
        bind_outcome(
            bind_outcome(h, wallet, seed_guardian, seed_guardian).0,
            wallet,
            seed_guardian,
            assigned_guardian,
        ).1 is Ok,
    ensures
        ({
            let h2 = bind_outcome(
                bind_outcome(h, wallet, seed_guardian, seed_guardian).0,
                wallet,
                seed_guardian,
                assigned_guardian,
            ).0;
            &&& exec_error(h2, wallet, seed_guardian, seed_guardian, table, bytes) == Some(
                AaError::GuardianMismatch,
            )
            &&& auth_error(h2, wallet, assigned_guardian) is None
            &&& (parse_descriptor(bytes) matches Some(d) && indices_in_range(d, table.len())) ==> exec_error(
                h2,
                wallet,
                seed_guardian,
                assigned_guardian,
                table,
                bytes,
            ) is None
        }),
{
    let h1 = bind_outcome(h, wallet, seed_guardian, seed_guardian).0;
    let h2 = bind_outcome(h1, wallet, seed_guardian, assigned_guardian).0;
    assert(h2[h.len() as int] == (wallet, seed_guardian));
    assert(has_record(h2, wallet, seed_guardian));
    assert(h2[h1.len() as int] == (wallet, assigned_guardian));
    assert(has_record(h2, wallet, assigned_guardian));
    assert(live_guardian_of(h2, wallet) == Some(assigned_guardian));
}

/// Once the wallet and guardian checks pass, a descriptor with an account
/// index outside the table is refused with `IndexOutOfRange`.
pub proof fn lemma_index_out_of_range(
    h: Seq<(Seq<u8>, Seq<u8>)>,
    wallet: Seq<u8>,
    seed_guardian: Seq<u8>,
    guardian: Seq<u8>,
    table: Seq<Seq<u8>>,
    d: DescriptorModel,
    i: int,
)
    requires
        wallet_error(wallet, seed_guardian) is None,
        auth_error(h, wallet, guardian) is None,
        d.wf(),
        0 <= i < d.account_indices.len(),
        d.account_indices[i] >= table.len(),
    ensures
        exec_error(h, wallet, seed_guardian, guardian, table, encode_descriptor(d)) == Some(
            AaError::IndexOutOfRange,
        ),
{
    lemma_decode_encode(d);
}

/// Once the wallet and guardian checks pass, a payload cut short anywhere is
/// refused with `MalformedPayload`.
pub proof fn lemma_truncated_payload(
    h: Seq<(Seq<u8>, Seq<u8>)>,
    wallet: Seq<u8>,
    seed_guardian: Seq<u8>,
    guardian: Seq<u8>,
    table: Seq<Seq<u8>>,
    d: DescriptorModel,
    n: int,
)
    requires
        wallet_error(wallet, seed_guardian) is None,
        auth_error(h, wallet, guardian) is None,
        d.wf(),
        0 <= n < encode_descriptor(d).len(),
    ensures
        exec_error(h, wallet, seed_guardian, guardian, table, encode_descriptor(d).take(n)) == Some(
            AaError::MalformedPayload,
        ),
{
    lemma_truncated_rejected(d, n);
}

} // verus!
