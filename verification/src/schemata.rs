//! Derivation schemes: a closed set of account-path templates (the standard
//! purpose-based conventions plus one explicit custom template) that produce
//! the hardened account-level subpath of a wallet account.

use vstd::prelude::*;

use crate::HARDENED_INDEX_BOUNDARY;
use crate::indexes::{seg_wf, AccountStep, HardenedIndex, SegmentIndexes};
use crate::path::{raw_vals, DerivationSubpath};

verus! {

/// Error raised when a derivation scheme cannot produce an account path for
/// the given inputs.
#[derive(Clone, Copy, Debug, PartialEq, Eq, Structural)]
pub enum DerivePatternError {
    /// The account number cannot be hardened: it is not below `2^31`.
    AccountOutOfRange(u32),
    /// The coin type cannot be hardened: it is not below `2^31`.
    CoinOutOfRange(u32),
}

/// A closed set of account-path templates: the standard single-signature
/// purposes, the multi-signature purposes (with nested or native script
/// type), and an explicit custom template for arbitrary hardened paths.
#[derive(Debug, PartialEq, Eq)]
pub enum DerivationScheme {
    /// Legacy pay-to-pubkey-hash accounts: `m/44'/coin'/account'`.
    Bip44,
    /// Nested-segwit accounts: `m/49'/coin'/account'`.
    Bip49,
    /// Native-segwit accounts: `m/84'/coin'/account'`.
    Bip84,
    /// Taproot accounts: `m/86'/coin'/account'`.
    Bip86,
    /// Multi-signature accounts with nested segwit scripts:
    /// `m/48'/coin'/account'/1'`.
    Bip48Nested,
    /// Multi-signature accounts with native segwit scripts:
    /// `m/48'/coin'/account'/2'`.
    Bip48Native,
    /// Multi-path accounts: `m/87'/coin'/account'`.
    Bip87,
    /// An explicit account-level template, used as it stands, whatever the
    /// account number and coin type.
    Custom(DerivationSubpath<AccountStep>),
}

impl DerivationScheme {
    /// Whether the scheme is well-formed (a custom template must be a
    /// well-formed hardened subpath).
    pub open spec fn wf(self) -> bool {
        match self {
            DerivationScheme::Custom(p) => p.wf(),
            _ => true,
        }
    }

    /// The raw segment values of the account path the scheme produces for an
    /// account number and a coin type.
    pub open spec fn account_path_vals(self, account: u32, coin: u32) -> Seq<int> {
        let b = HARDENED_INDEX_BOUNDARY as int;
        match self {
            DerivationScheme::Bip44 => seq![b + 44, b + coin, b + account],
            DerivationScheme::Bip49 => seq![b + 49, b + coin, b + account],
            DerivationScheme::Bip84 => seq![b + 84, b + coin, b + account],
            DerivationScheme::Bip86 => seq![b + 86, b + coin, b + account],
            DerivationScheme::Bip48Nested => seq![b + 48, b + coin, b + account, b + 1],
            DerivationScheme::Bip48Native => seq![b + 48, b + coin, b + account, b + 2],
            DerivationScheme::Bip87 => seq![b + 87, b + coin, b + account],
            DerivationScheme::Custom(p) => raw_vals(p@),
        }
    }

    /// Derives the hardened account-level subpath for an account number and
    /// a coin type. Fails exactly when a standard scheme is asked to harden
    /// an account number or coin type that is not below `2^31`; a custom
    /// template is returned as it stands.
    pub fn derive_account_path(&self, account: u32, coin: u32) -> (r: Result<
        DerivationSubpath<AccountStep>,
        DerivePatternError,
    >)
        requires
            self.wf(),
        ensures
            r is Ok <==> (self matches DerivationScheme::Custom(_) || (account
                < HARDENED_INDEX_BOUNDARY && coin < HARDENED_INDEX_BOUNDARY)),
            r matches Ok(p) ==> p.wf() && raw_vals(p@) == self.account_path_vals(account, coin),
            !(self matches DerivationScheme::Custom(_)) && account >= HARDENED_INDEX_BOUNDARY
                ==> r == Err::<DerivationSubpath<AccountStep>, DerivePatternError>(
                DerivePatternError::AccountOutOfRange(account),
            ),
            !(self matches DerivationScheme::Custom(_)) && account < HARDENED_INDEX_BOUNDARY
                && coin >= HARDENED_INDEX_BOUNDARY ==> r == Err::<
                DerivationSubpath<AccountStep>,
                DerivePatternError,
            >(DerivePatternError::CoinOutOfRange(coin)),
    {
        if let DerivationScheme::Custom(template) = self {
            let p = template.duplicate();
            proof {
                assert(raw_vals(p@) =~= raw_vals(template@));
            }
            return Ok(p);
        }
        if account >= HARDENED_INDEX_BOUNDARY {
            return Err(DerivePatternError::AccountOutOfRange(account));
        }
        if coin >= HARDENED_INDEX_BOUNDARY {
            return Err(DerivePatternError::CoinOutOfRange(coin));
        }
        let purpose: u32 = match self {
            DerivationScheme::Bip44 => 44,
            DerivationScheme::Bip49 => 49,
            DerivationScheme::Bip84 => 84,
            DerivationScheme::Bip86 => 86,
            DerivationScheme::Bip48Nested => 48,
            DerivationScheme::Bip48Native => 48,
            DerivationScheme::Bip87 => 87,
            DerivationScheme::Custom(_) => 0,
        };
        let mut segs: Vec<HardenedIndex> = Vec::new();
        segs.push(HardenedIndex(HARDENED_INDEX_BOUNDARY + purpose));
        segs.push(HardenedIndex(HARDENED_INDEX_BOUNDARY + coin));
        segs.push(HardenedIndex(HARDENED_INDEX_BOUNDARY + account));
        match self {
            DerivationScheme::Bip48Nested => {
                segs.push(HardenedIndex(HARDENED_INDEX_BOUNDARY + 1));
            },
            DerivationScheme::Bip48Native => {
                segs.push(HardenedIndex(HARDENED_INDEX_BOUNDARY + 2));
            },
            _ => {},
        }
        proof {
            assert(forall|i: int| 0 <= i < segs@.len() ==> seg_wf(#[trigger] segs@[i]));
        }
        match DerivationSubpath::from_segments(segs) {
            Ok(p) => {
                proof {
                    assert(raw_vals(p@) =~= self.account_path_vals(account, coin));
                }
                Ok(p)
            },
            Err(_) => {
                proof {
                    assert(false);
                }
                Err(DerivePatternError::AccountOutOfRange(account))
            },
        }
    }
}

} // verus!
