//! Account identities and the derivation of the wallet address.

use vstd::prelude::*;

verus! {

/// A 32-byte account identity.
#[derive(Clone, Copy, Debug)]
pub struct Pubkey {
    pub bytes: [u8; 32],
}

impl View for Pubkey {
    type V = Seq<u8>;

    open spec fn view(&self) -> Seq<u8> {
        self.bytes@
    }
}

impl Pubkey {
    pub fn new_from_array(bytes: [u8; 32]) -> (r: Pubkey)
        ensures
            r@ == bytes@,
    {
        Pubkey { bytes }
    }

    pub fn to_bytes(&self) -> (r: [u8; 32])
        ensures
            r@ == self@,
    {
        self.bytes
    }

    /// Byte-for-byte equality of two identities.
    pub fn same(&self, other: &Pubkey) -> (r: bool)
        ensures
            r == (self@ == other@),
    {
        let mut i: usize = 0;
        while i < 32
            invariant
                i <= 32,
                self@.len() == 32,
                other@.len() == 32,
                forall|j: int| 0 <= j < i ==> self@[j] == other@[j],
            decreases 32 - i,
        {
            if self.bytes[i] != other.bytes[i] {
                return false;
            }
            i = i + 1;
        }
        assert(self@ =~= other@);
        true
    }
}

/// Domain tag of the wallet address seeds (the letter `w`).
pub const PDA_WALLET_SEED: u8 = 0x77;

/// The address under which this program is deployed.
pub fn program_id() -> (r: Pubkey)
    ensures
        r@ == program_id_bytes(),
{
    let bytes: [u8; 32] = [
        7, 243, 141, 64, 244, 188, 152, 17, 221, 123, 49, 221, 162, 119, 169, 160,
        139, 197, 167, 86, 113, 170, 25, 147, 53, 247, 12, 43, 91, 122, 132, 145,
    ];
    let r = Pubkey { bytes };
    assert(r@ =~= program_id_bytes());
    r
}

pub open spec fn program_id_bytes() -> Seq<u8> {
    seq![
        7u8, 243, 141, 64, 244, 188, 152, 17, 221, 123, 49, 221, 162, 119, 169, 160,
        139, 197, 167, 86, 113, 170, 25, 147, 53, 247, 12, 43, 91, 122, 132, 145,
    ]
}

/// The program-derived address (and its bump) that the host finds for the
/// given seeds under the given program, or `None` where no bump yields one.
pub uninterp spec fn program_address_search(seeds: Seq<Seq<u8>>, program: Seq<u8>) -> Option<(Seq<u8>, u8)>;

/// Relies on `Pubkey::try_find_program_address` of solana-program: its result
/// depends on the seeds and the program id alone (a hash search over bumps).
#[verifier::external_body]
fn find_address(tag: &[u8], key: &[u8; 32], program: &[u8; 32]) -> (r: Option<([u8; 32], u8)>)
    ensures
        match r {
            Some((a, b)) => program_address_search(seq![tag@, key@], program@) == Some((a@, b)),
            None => program_address_search(seq![tag@, key@], program@) is None,
        },
{
    let program = anchor_lang::prelude::Pubkey::new_from_array(*program);
    anchor_lang::prelude::Pubkey::try_find_program_address(&[tag, &key[..]], &program)
        .map(|(a, b)| (a.to_bytes(), b))
}

/// The seeds of a wallet: its domain tag and the key of its seed guardian.
pub open spec fn wallet_seeds(seed_guardian: Seq<u8>) -> Seq<Seq<u8>> {
    seq![seq![PDA_WALLET_SEED], seed_guardian]
}

/// The wallet address and bump that belong to a seed guardian.
pub open spec fn wallet_of(seed_guardian: Seq<u8>) -> Option<(Seq<u8>, u8)> {
    program_address_search(wallet_seeds(seed_guardian), program_id_bytes())
}

/// The capability to sign as a wallet: the seed guardian's key and the bump
/// that was found for the wallet's address.
#[derive(Clone, Copy, Debug)]
pub struct WalletSigner {
    pub seed_guardian: Pubkey,
    pub bump: u8,
}

impl WalletSigner {
    /// The seeds that prove the wallet's authority to the host: the domain
    /// tag, the seed guardian's key and the bump.
    pub fn signer_seeds(&self) -> (r: Vec<Vec<u8>>)
        ensures
            r@.len() == 3,
            r@[0]@ == seq![PDA_WALLET_SEED],
            r@[1]@ == self.seed_guardian@,
            r@[2]@ == seq![self.bump],
    {
        let mut tag: Vec<u8> = Vec::new();
        tag.push(PDA_WALLET_SEED);
        let mut key: Vec<u8> = Vec::new();
        let mut i: usize = 0;
        while i < 32
            invariant
                i <= 32,
                self.seed_guardian@.len() == 32,
                key@ == self.seed_guardian@.take(i as int),
            decreases 32 - i,
        {
            key.push(self.seed_guardian.bytes[i]);
            i = i + 1;
            assert(key@ =~= self.seed_guardian@.take(i as int));
        }
        assert(key@ =~= self.seed_guardian@);
        let mut bump: Vec<u8> = Vec::new();
        bump.push(self.bump);
        let mut r: Vec<Vec<u8>> = Vec::new();
        r.push(tag);
        r.push(key);
        r.push(bump);
        assert(r@[0]@ =~= seq![PDA_WALLET_SEED]);
        assert(r@[2]@ =~= seq![self.bump]);
        r
    }
}

/// Derives the wallet address of a seed guardian, with the signing capability
/// for it; `None` when the host finds no address for those seeds.
pub fn derive_wallet(seed_guardian: &Pubkey) -> (r: Option<(Pubkey, WalletSigner)>)
    ensures
        match r {
            Some((w, s)) => wallet_of(seed_guardian@) == Some((w@, s.bump))
                && s.seed_guardian@ == seed_guardian@,
            None => wallet_of(seed_guardian@) is None,
        },
{
    let tag: [u8; 1] = [PDA_WALLET_SEED];
    let pid = program_id();
    let found = find_address(&tag, &seed_guardian.bytes, &pid.bytes);
    proof {
        assert(tag@ =~= seq![PDA_WALLET_SEED]);
    }
    match found {
        Some((a, b)) => Some((Pubkey { bytes: a }, WalletSigner { seed_guardian: *seed_guardian, bump: b })),
        None => None,
    }
}

} // verus!
