//! The guardian registry: which guardian controls each wallet.
//!
//! Bindings of a guardian to a wallet are stored append-only, each under the
//! pair `(wallet, guardian)` that it binds. A wallet's live guardian is the
//! one of its most recent binding; older bindings stay stored but no longer
//! authorize anything.

use vstd::prelude::*;
use crate::error::AaError;
use crate::keys::{Pubkey, derive_wallet, wallet_of};

verus! {

/// A stored binding of a guardian to a wallet.
#[derive(Clone, Copy, Debug)]
pub struct WalletGuardian {
    pub wallet: Pubkey,
    pub guardian: Pubkey,
}

impl View for WalletGuardian {
    type V = (Seq<u8>, Seq<u8>);

    open spec fn view(&self) -> (Seq<u8>, Seq<u8>) {
        (self.wallet@, self.guardian@)
    }
}

/// A standing approval for periodic transfers out of a wallet.
#[derive(Clone, Copy, Debug)]
pub struct PeriodicApproval {
    pub wallet: Pubkey,
    pub from_ata: Pubkey,
    pub amount: u64,
    pub created_timestamp: i64,
    pub period_duration: i64,
    pub last_called_period_index: i64,
}

/// The accounts of wallet creation.
#[derive(Clone, Copy, Debug)]
pub struct InitWallet {
    pub wallet: Pubkey,
    pub seed_guardian: Pubkey,
    pub payer: Pubkey,
}

/// The accounts of a guardian rotation.
#[derive(Clone, Copy, Debug)]
pub struct RegisterKeypair {
    pub wallet: Pubkey,
    pub assigned_guardian: Pubkey,
    pub seed_guardian: Pubkey,
    pub payer: Pubkey,
}

/// Every binding ever created, oldest first.
pub struct GuardianRegistry {
    records: Vec<WalletGuardian>,
}

impl View for GuardianRegistry {
    type V = Seq<(Seq<u8>, Seq<u8>)>;

    closed spec fn view(&self) -> Seq<(Seq<u8>, Seq<u8>)> {
        self.records@.map_values(|r: WalletGuardian| r@)
    }
}

/// A binding of `guardian` to `wallet` is stored.
pub open spec fn has_record(h: Seq<(Seq<u8>, Seq<u8>)>, wallet: Seq<u8>, guardian: Seq<u8>) -> bool {
    h.contains((wallet, guardian))
}

/// The guardian of the most recent binding of `wallet`.
pub open spec fn live_guardian_of(h: Seq<(Seq<u8>, Seq<u8>)>, wallet: Seq<u8>) -> Option<Seq<u8>>
    decreases h.len(),
{
    if h.len() == 0 {
        None
    } else if h.last().0 == wallet {
        Some(h.last().1)
    } else {
        live_guardian_of(h.drop_last(), wallet)
    }
}

/// Why `wallet` is not the address derived from `seed_guardian`, if it is not.
pub open spec fn wallet_error(wallet: Seq<u8>, seed_guardian: Seq<u8>) -> Option<AaError> {
    match wallet_of(seed_guardian) {
        None => Some(AaError::AddressNotFound),
        Some((w, _)) => if w == wallet {
            None
        } else {
            Some(AaError::WalletMismatch)
        },
    }
}

/// Why `guardian` may not act for `wallet`, if it may not: the binding read
/// at `(wallet, guardian)` must exist and be the wallet's live one.
pub open spec fn auth_error(h: Seq<(Seq<u8>, Seq<u8>)>, wallet: Seq<u8>, guardian: Seq<u8>) -> Option<AaError> {
    if !has_record(h, wallet, guardian) {
        Some(AaError::NotFound)
    } else if live_guardian_of(h, wallet) != Some(guardian) {
        Some(AaError::GuardianMismatch)
    } else {
        None
    }
}

/// The registry after binding `guardian` to `wallet` (unless the wallet
/// check or an existing binding refuses it), with the outcome.
pub open spec fn bind_outcome(
    h: Seq<(Seq<u8>, Seq<u8>)>,
    wallet: Seq<u8>,
    seed_guardian: Seq<u8>,
    guardian: Seq<u8>,
) -> (Seq<(Seq<u8>, Seq<u8>)>, Result<(), AaError>) {
    match wallet_error(wallet, seed_guardian) {
        Some(e) => (h, Err(e)),
        None => if has_record(h, wallet, guardian) {
            (h, Err(AaError::AlreadyExists))
        } else {
            (h.push((wallet, guardian)), Ok(()))
        },
    }
}

/// A binding that goes through makes its guardian the wallet's live one,
/// keeps every earlier binding stored, and leaves the live guardian of every
/// other wallet as it was.
pub proof fn lemma_bind_sets_live(
    h: Seq<(Seq<u8>, Seq<u8>)>,
    wallet: Seq<u8>,
    seed_guardian: Seq<u8>,
    guardian: Seq<u8>,
    other: Seq<u8>,
)
    requires
        bind_outcome(h, wallet, seed_guardian, guardian).1 is Ok,
    ensures
        live_guardian_of(bind_outcome(h, wallet, seed_guardian, guardian).0, wallet) == Some(guardian),
        forall|w: Seq<u8>, g: Seq<u8>| has_record(h, w, g) ==> has_record(
            bind_outcome(h, wallet, seed_guardian, guardian).0, w, g),
        other != wallet ==> live_guardian_of(bind_outcome(h, wallet, seed_guardian, guardian).0, other)
            == live_guardian_of(h, other),
{
    let h1 = bind_outcome(h, wallet, seed_guardian, guardian).0;
    assert(h1.drop_last() =~= h);
    assert forall|w: Seq<u8>, g: Seq<u8>| has_record(h, w, g) implies has_record(h1, w, g) by {
        let i = choose|i: int| 0 <= i < h.len() && h[i] == (w, g);
        assert(h1[i] == (w, g));
    }
}

impl GuardianRegistry {
    pub fn new() -> (r: GuardianRegistry)
        ensures
            r@ == Seq::<(Seq<u8>, Seq<u8>)>::empty(),
    {
        let r = GuardianRegistry { records: Vec::new() };
        assert(r@ =~= Seq::<(Seq<u8>, Seq<u8>)>::empty());
        r
    }

    /// The number of stored bindings.
    pub fn len(&self) -> (r: usize)
        ensures
            r == self@.len(),
    {
        self.records.len()
    }

    /// The binding stored under `(wallet, guardian)`, if any.
    pub fn find_record(&self, wallet: &Pubkey, guardian: &Pubkey) -> (r: Option<WalletGuardian>)
        ensures
            r is Some == has_record(self@, wallet@, guardian@),
            r matches Some(rec) ==> rec@ == (wallet@, guardian@),
    {
        let mut i: usize = 0;
        while i < self.records.len()
            invariant
                i <= self.records@.len(),
                self@ == self.records@.map_values(|r: WalletGuardian| r@),
                forall|j: int| 0 <= j < i ==> self@[j] != (wallet@, guardian@),
            decreases self.records@.len() - i,
        {
            let rec = self.records[i];
            if rec.wallet.same(wallet) && rec.guardian.same(guardian) {
                assert(self@[i as int] == (wallet@, guardian@));
                return Some(rec);
            }
            i = i + 1;
        }
        assert(!self@.contains((wallet@, guardian@)));
        None
    }

    /// The live guardian of `wallet`, if it has any binding.
    pub fn live_guardian(&self, wallet: &Pubkey) -> (r: Option<Pubkey>)
        ensures
            match r {
                Some(g) => live_guardian_of(self@, wallet@) == Some(g@),
                None => live_guardian_of(self@, wallet@) is None,
            },
    {
        let ghost h = self@;
        let mut i: usize = self.records.len();
        assert(h.take(i as int) =~= h);
        while i > 0
            invariant
                i <= self.records@.len(),
                h == self@,
                h == self.records@.map_values(|r: WalletGuardian| r@),
                live_guardian_of(h, wallet@) == live_guardian_of(h.take(i as int), wallet@),
            decreases i,
        {
            let rec = self.records[i - 1];
            assert(h.take(i as int).last() == rec@);
            if rec.wallet.same(wallet) {
                return Some(rec.guardian);
            }
            assert(h.take(i as int).drop_last() =~= h.take(i - 1));
            i = i - 1;
        }
        None
    }

    /// Stores a binding of `guardian` to `wallet`, unless one is stored.
    fn create_record(&mut self, wallet: &Pubkey, guardian: &Pubkey) -> (r: Result<(), AaError>)
        ensures
            has_record(old(self)@, wallet@, guardian@) ==> r == Err::<(), AaError>(AaError::AlreadyExists)
                && final(self)@ == old(self)@,
            !has_record(old(self)@, wallet@, guardian@) ==> r == Ok::<(), AaError>(())
                && final(self)@ == old(self)@.push((wallet@, guardian@)),
    {
        if self.find_record(wallet, guardian).is_some() {
            return Err(AaError::AlreadyExists);
        }
        let rec = WalletGuardian { wallet: *wallet, guardian: *guardian };
        self.records.push(rec);
        assert(self@ =~= old(self)@.push((wallet@, guardian@)));
        Ok(())
    }

    /// Checks that `guardian` may act for `wallet`.
    pub fn authorize(&self, wallet: &Pubkey, guardian: &Pubkey) -> (r: Result<(), AaError>)
        ensures
            match r {
                Ok(()) => auth_error(self@, wallet@, guardian@) is None,
                Err(e) => auth_error(self@, wallet@, guardian@) == Some(e),
            },
    {
        if self.find_record(wallet, guardian).is_none() {
            return Err(AaError::NotFound);
        }
        match self.live_guardian(wallet) {
            Some(g) => if g.same(guardian) {
                Ok(())
            } else {
                Err(AaError::GuardianMismatch)
            },
            None => Err(AaError::GuardianMismatch),
        }
    }
}

/// Checks that `wallet` is the address derived from `seed_guardian`.
pub fn check_wallet(wallet: &Pubkey, seed_guardian: &Pubkey) -> (r: Result<crate::keys::WalletSigner, AaError>)
    ensures
        match r {
            Ok(s) => wallet_error(wallet@, seed_guardian@) is None && wallet_of(seed_guardian@)
                == Some((wallet@, s.bump)) && s.seed_guardian@ == seed_guardian@,
            Err(e) => wallet_error(wallet@, seed_guardian@) == Some(e),
        },
{
    match derive_wallet(seed_guardian) {
        None => Err(AaError::AddressNotFound),
        Some((w, s)) => if w.same(wallet) {
            Ok(s)
        } else {
            Err(AaError::WalletMismatch)
        },
    }
}

/// Creates a wallet: binds the seed guardian to the wallet derived from it.
pub fn init_wallet(registry: &mut GuardianRegistry, ctx: &InitWallet) -> (r: Result<(), AaError>)
    ensures
        (final(registry)@, r) == bind_outcome(old(registry)@, ctx.wallet@, ctx.seed_guardian@, ctx.seed_guardian@),
{
    check_wallet(&ctx.wallet, &ctx.seed_guardian)?;
    registry.create_record(&ctx.wallet, &ctx.seed_guardian)
}

/// Rotates a wallet's guardian: binds the assigned guardian to the wallet
/// derived from the seed guardian, which makes it the live one.
pub fn register_keypair(registry: &mut GuardianRegistry, ctx: &RegisterKeypair) -> (r: Result<(), AaError>)
    ensures
        (final(registry)@, r) == bind_outcome(old(registry)@, ctx.wallet@, ctx.seed_guardian@, ctx.assigned_guardian@),
{
    check_wallet(&ctx.wallet, &ctx.seed_guardian)?;
    registry.create_record(&ctx.wallet, &ctx.assigned_guardian)
}

} // verus!
