use compressed_aa::codec::VerveInstruction;
use compressed_aa::dispatch::{exec_instruction, generate_idl_types_noop, ExecInstruction, GenerateIdls, Types};
use compressed_aa::error::AaError;
use compressed_aa::keys::{derive_wallet, program_id, Pubkey, PDA_WALLET_SEED};
use compressed_aa::registry::{
    init_wallet, register_keypair, GuardianRegistry, InitWallet, RegisterKeypair, WalletGuardian,
};

fn key(b: u8) -> Pubkey {
    Pubkey::new_from_array([b; 32])
}

fn wallet_of(seed: &Pubkey) -> Pubkey {
    derive_wallet(seed).unwrap().0
}

fn init(reg: &mut GuardianRegistry, seed: &Pubkey) -> Result<(), AaError> {
    let ctx = InitWallet { wallet: wallet_of(seed), seed_guardian: *seed, payer: key(99) };
    init_wallet(reg, &ctx)
}

fn rotate(reg: &mut GuardianRegistry, seed: &Pubkey, assigned: &Pubkey) -> Result<(), AaError> {
    let ctx = RegisterKeypair {
        wallet: wallet_of(seed),
        assigned_guardian: *assigned,
        seed_guardian: *seed,
        payer: key(99),
    };
    register_keypair(reg, &ctx)
}

fn exec_ctx(seed: &Pubkey, guardian: &Pubkey) -> ExecInstruction {
    ExecInstruction { wallet: wallet_of(seed), seed_guardian: *seed, guardian: *guardian, payer: key(99) }
}

fn empty_effect() -> Vec<u8> {
    VerveInstruction {
        data: vec![],
        account_indices: vec![],
        writable_accounts: vec![],
        signer_accounts: vec![],
        program_account_index: 0,
    }
    .try_to_vec()
}

fn table() -> Vec<Pubkey> {
    vec![key(10), key(11), key(12)]
}

#[test]
fn derived_wallet_is_a_new_address() {
    let seed = key(1);
    let (w, signer) = derive_wallet(&seed).unwrap();
    assert_ne!(w.to_bytes(), seed.to_bytes());
    assert_ne!(w.to_bytes(), program_id().to_bytes());
    let (w2, signer2) = derive_wallet(&seed).unwrap();
    assert_eq!(w.to_bytes(), w2.to_bytes());
    assert_eq!(signer.bump, signer2.bump);
    assert_ne!(wallet_of(&key(2)).to_bytes(), w.to_bytes());
}

#[test]
fn signer_seeds_are_tag_key_and_bump() {
    let seed = key(5);
    let (_, signer) = derive_wallet(&seed).unwrap();
    let seeds = signer.signer_seeds();
    assert_eq!(seeds.len(), 3);
    assert_eq!(seeds[0], vec![PDA_WALLET_SEED]);
    assert_eq!(seeds[0], b"w".to_vec());
    assert_eq!(seeds[1], vec![5u8; 32]);
    assert_eq!(seeds[2], vec![signer.bump]);
}

#[test]
fn init_then_execute_as_seed_guardian() {
    let mut reg = GuardianRegistry::new();
    let seed = key(1);
    assert_eq!(init(&mut reg, &seed), Ok(()));
    assert_eq!(reg.len(), 1);
    let call = exec_instruction(&reg, &exec_ctx(&seed, &seed), &table(), &empty_effect()).unwrap();
    assert_eq!(call.instruction.program_id.to_bytes(), key(10).to_bytes());
    assert!(call.instruction.accounts.is_empty());
    assert!(call.instruction.data.is_empty());
    assert_eq!(call.cpi_accounts_start, 1);
    assert_eq!(call.signer.seed_guardian.to_bytes(), seed.to_bytes());
    assert_eq!(call.signer.bump, derive_wallet(&seed).unwrap().1.bump);
}

#[test]
fn init_twice_already_exists() {
    let mut reg = GuardianRegistry::new();
    let seed = key(1);
    assert_eq!(init(&mut reg, &seed), Ok(()));
    assert_eq!(init(&mut reg, &seed), Err(AaError::AlreadyExists));
    assert_eq!(reg.len(), 1);
}

#[test]
fn init_with_foreign_wallet_is_refused() {
    let mut reg = GuardianRegistry::new();
    let ctx = InitWallet { wallet: key(3), seed_guardian: key(1), payer: key(99) };
    assert_eq!(init_wallet(&mut reg, &ctx), Err(AaError::WalletMismatch));
    assert_eq!(reg.len(), 0);
}

#[test]
fn rotation_moves_authority() {
    let mut reg = GuardianRegistry::new();
    let seed = key(1);
    let assigned = key(2);
    init(&mut reg, &seed).unwrap();
    rotate(&mut reg, &seed, &assigned).unwrap();
    let w = wallet_of(&seed);
    assert_eq!(reg.live_guardian(&w).unwrap().to_bytes(), assigned.to_bytes());
    assert!(reg.find_record(&w, &seed).is_some());
    let stale = exec_instruction(&reg, &exec_ctx(&seed, &seed), &table(), &empty_effect());
    assert_eq!(stale.err(), Some(AaError::GuardianMismatch));
    let fresh = exec_instruction(&reg, &exec_ctx(&seed, &assigned), &table(), &empty_effect());
    assert!(fresh.is_ok());
}

#[test]
fn rotation_back_to_earlier_guardian_already_exists() {
    let mut reg = GuardianRegistry::new();
    let seed = key(1);
    init(&mut reg, &seed).unwrap();
    rotate(&mut reg, &seed, &key(2)).unwrap();
    assert_eq!(rotate(&mut reg, &seed, &seed), Err(AaError::AlreadyExists));
}

#[test]
fn unknown_guardian_not_found() {
    let mut reg = GuardianRegistry::new();
    let seed = key(1);
    init(&mut reg, &seed).unwrap();
    let r = exec_instruction(&reg, &exec_ctx(&seed, &key(7)), &table(), &empty_effect());
    assert_eq!(r.err(), Some(AaError::NotFound));
}

#[test]
fn execute_with_foreign_wallet_is_refused() {
    let mut reg = GuardianRegistry::new();
    let seed = key(1);
    init(&mut reg, &seed).unwrap();
    let ctx = ExecInstruction { wallet: key(3), seed_guardian: seed, guardian: seed, payer: key(99) };
    let r = exec_instruction(&reg, &ctx, &table(), &empty_effect());
    assert_eq!(r.err(), Some(AaError::WalletMismatch));
}

#[test]
fn account_index_out_of_range() {
    let mut reg = GuardianRegistry::new();
    let seed = key(1);
    init(&mut reg, &seed).unwrap();
    let bytes = VerveInstruction {
        data: vec![1],
        account_indices: vec![1, 3],
        writable_accounts: vec![false, false],
        signer_accounts: vec![false, false],
        program_account_index: 0,
    }
    .try_to_vec();
    let r = exec_instruction(&reg, &exec_ctx(&seed, &seed), &table(), &bytes);
    assert_eq!(r.err(), Some(AaError::IndexOutOfRange));
}

#[test]
fn target_index_out_of_range() {
    let mut reg = GuardianRegistry::new();
    let seed = key(1);
    init(&mut reg, &seed).unwrap();
    let bytes = VerveInstruction {
        data: vec![],
        account_indices: vec![],
        writable_accounts: vec![],
        signer_accounts: vec![],
        program_account_index: 3,
    }
    .try_to_vec();
    let r = exec_instruction(&reg, &exec_ctx(&seed, &seed), &table(), &bytes);
    assert_eq!(r.err(), Some(AaError::IndexOutOfRange));
}

#[test]
fn truncated_payload_is_malformed_and_changes_nothing() {
    let mut reg = GuardianRegistry::new();
    let seed = key(1);
    init(&mut reg, &seed).unwrap();
    let bytes = VerveInstruction {
        data: vec![1, 2, 3],
        account_indices: vec![1, 2],
        writable_accounts: vec![true, false],
        signer_accounts: vec![false, false],
        program_account_index: 0,
    }
    .try_to_vec();
    let cut = &bytes[..12];
    let r = exec_instruction(&reg, &exec_ctx(&seed, &seed), &table(), cut);
    assert_eq!(r.err(), Some(AaError::MalformedPayload));
    assert_eq!(reg.len(), 1);
    assert!(exec_instruction(&reg, &exec_ctx(&seed, &seed), &table(), &bytes).is_ok());
}

#[test]
fn resolves_accounts_in_descriptor_order() {
    let mut reg = GuardianRegistry::new();
    let seed = key(1);
    init(&mut reg, &seed).unwrap();
    let (prog_x, acc_a, acc_b) = (key(20), key(21), key(22));
    let flat = vec![prog_x, acc_a, acc_b];
    let bytes = VerveInstruction {
        data: vec![1, 2, 3],
        account_indices: vec![1, 2],
        writable_accounts: vec![true, false],
        signer_accounts: vec![false, false],
        program_account_index: 0,
    }
    .try_to_vec();
    let call = exec_instruction(&reg, &exec_ctx(&seed, &seed), &flat, &bytes).unwrap();
    let ins = &call.instruction;
    assert_eq!(ins.program_id.to_bytes(), prog_x.to_bytes());
    assert_eq!(ins.data, vec![1, 2, 3]);
    assert_eq!(ins.accounts.len(), 2);
    assert_eq!(ins.accounts[0].pubkey.to_bytes(), acc_a.to_bytes());
    assert!(ins.accounts[0].is_writable);
    assert!(!ins.accounts[0].is_signer);
    assert_eq!(ins.accounts[1].pubkey.to_bytes(), acc_b.to_bytes());
    assert!(!ins.accounts[1].is_writable);
    assert!(!ins.accounts[1].is_signer);
}

#[test]
fn repeated_and_self_referencing_indices_are_kept() {
    let mut reg = GuardianRegistry::new();
    let seed = key(1);
    init(&mut reg, &seed).unwrap();
    let bytes = VerveInstruction {
        data: vec![],
        account_indices: vec![2, 0, 2],
        writable_accounts: vec![true, false, true],
        signer_accounts: vec![true, true, false],
        program_account_index: 0,
    }
    .try_to_vec();
    let call = exec_instruction(&reg, &exec_ctx(&seed, &seed), &table(), &bytes).unwrap();
    let got: Vec<(u8, bool, bool)> = call
        .instruction
        .accounts
        .iter()
        .map(|m| (m.pubkey.to_bytes()[0], m.is_writable, m.is_signer))
        .collect();
    assert_eq!(got, vec![(12, true, true), (10, false, true), (12, true, false)]);
}

#[test]
fn racing_executions_around_a_rotation_see_one_guardian_each() {
    let mut reg = GuardianRegistry::new();
    let seed = key(1);
    let assigned = key(2);
    init(&mut reg, &seed).unwrap();
    let before_seed = exec_instruction(&reg, &exec_ctx(&seed, &seed), &table(), &empty_effect());
    let before_assigned = exec_instruction(&reg, &exec_ctx(&seed, &assigned), &table(), &empty_effect());
    assert!(before_seed.is_ok());
    assert_eq!(before_assigned.err(), Some(AaError::NotFound));
    rotate(&mut reg, &seed, &assigned).unwrap();
    let after_seed = exec_instruction(&reg, &exec_ctx(&seed, &seed), &table(), &empty_effect());
    let after_assigned = exec_instruction(&reg, &exec_ctx(&seed, &assigned), &table(), &empty_effect());
    assert_eq!(after_seed.err(), Some(AaError::GuardianMismatch));
    assert!(after_assigned.is_ok());
}

#[test]
fn wallets_are_independent() {
    let mut reg = GuardianRegistry::new();
    init(&mut reg, &key(1)).unwrap();
    init(&mut reg, &key(2)).unwrap();
    rotate(&mut reg, &key(1), &key(3)).unwrap();
    assert_eq!(reg.live_guardian(&wallet_of(&key(2))).unwrap().to_bytes(), key(2).to_bytes());
    assert!(exec_instruction(&reg, &exec_ctx(&key(2), &key(2)), &table(), &empty_effect()).is_ok());
    assert!(reg.live_guardian(&wallet_of(&key(4))).is_none());
}

#[test]
fn idl_entry_point_does_nothing() {
    let types = Types {
        wallet_guardian: WalletGuardian { wallet: key(1), guardian: key(2) },
        verve_instruction: VerveInstruction {
            data: vec![],
            account_indices: vec![],
            writable_accounts: vec![],
            signer_accounts: vec![],
            program_account_index: 0,
        },
    };
    assert_eq!(generate_idl_types_noop(&GenerateIdls {}, types), Ok(()));
}
