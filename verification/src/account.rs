//! Tracking accounts: the unit a watch-only wallet holds for one account.
//! An account binds the master fingerprint, the account-level extended
//! public key (in its 78-byte BIP32 wire form), and the scheme and account
//! path that produced its account level. It never holds private material.

use vstd::prelude::*;

use crate::indexes::{seg_wf, PathStep, SegmentIndexes, TerminalStep};
use crate::path::{raw_vals, DerivationSubpath};
use crate::schemata::{DerivationScheme, DerivePatternError};

verus! {

/// The fingerprint of the master key an account descends from.
#[derive(Clone, Copy, Debug, PartialEq, Eq)]
pub struct Fingerprint(pub [u8; 4]);

/// A watch-only tracking account: master fingerprint, account-level
/// extended public key (78-byte BIP32 encoding), and the scheme and
/// account-level subpath that produced it. Immutable after construction.
#[derive(Debug, PartialEq, Eq)]
pub struct TrackingAccount {
    /// Fingerprint of the master key.
    pub master_fingerprint: Fingerprint,
    /// The account-level extended public key, BIP32-encoded (78 bytes).
    pub account_xpub: Vec<u8>,
    /// The scheme the account path was derived from.
    pub scheme: DerivationScheme,
    /// The hardened account-level subpath.
    pub account_path: DerivationSubpath<crate::indexes::AccountStep>,
}

impl TrackingAccount {
    /// Whether the account is well-formed: the key has the BIP32 wire
    /// length and the account path is a well-formed hardened subpath.
    pub open spec fn wf(self) -> bool {
        self.account_xpub@.len() == 78 && self.account_path.wf() && self.scheme.wf()
    }

    /// Builds a tracking account from the master fingerprint, the
    /// account-level extended public key, and the scheme inputs; fails
    /// exactly when the scheme cannot produce the account path.
    pub fn with(
        fingerprint: Fingerprint,
        account_xpub: Vec<u8>,
        scheme: DerivationScheme,
        account: u32,
        coin: u32,
    ) -> (r: Result<TrackingAccount, DerivePatternError>)
        requires
            account_xpub@.len() == 78,
            scheme.wf(),
        ensures
            r is Ok <==> (scheme matches DerivationScheme::Custom(_) || (account
                < crate::HARDENED_INDEX_BOUNDARY && coin < crate::HARDENED_INDEX_BOUNDARY)),
            r matches Ok(a) ==> a.wf() && a.master_fingerprint == fingerprint
                && a.account_xpub@ == account_xpub@ && raw_vals(a.account_path@)
                == scheme.account_path_vals(account, coin) && a.scheme == scheme,
    {
        let path = match scheme.derive_account_path(account, coin) {
            Ok(p) => p,
            Err(e) => {
                return Err(e);
            },
        };
        Ok(TrackingAccount {
            master_fingerprint: fingerprint,
            account_xpub,
            scheme,
            account_path: path,
        })
    }

    /// The full derivation path of an address of this account: the hardened
    /// account-level steps followed by the unhardened terminal steps.
    pub fn full_path(&self, terminal: &DerivationSubpath<TerminalStep>) -> (r: Vec<PathStep>)
        requires
            self.wf(),
            terminal.wf(),
        ensures
            r@.len() == self.account_path@.len() + terminal@.len(),
            forall|i: int|
                0 <= i < self.account_path@.len() ==> r@[i] == PathStep::Hardened(
                    #[trigger] self.account_path@[i],
                ),
            forall|i: int|
                0 <= i < terminal@.len() ==> r@[self.account_path@.len() + i]
                    == PathStep::Unhardened(#[trigger] terminal@[i]),
    {
        let mut out: Vec<PathStep> = Vec::new();
        let a = self.account_path.segments();
        let mut i: usize = 0;
        while i < a.len()
            invariant
                a@ == self.account_path@,
                0 <= i <= a@.len(),
                out@.len() == i,
                forall|j: int|
                    0 <= j < i ==> out@[j] == PathStep::Hardened(#[trigger] a@[j]),
            decreases a@.len() - i,
        {
            out.push(PathStep::Hardened(a[i]));
            i = i + 1;
        }
        let t = terminal.segments();
        let mut k: usize = 0;
        while k < t.len()
            invariant
                a@ == self.account_path@,
                t@ == terminal@,
                0 <= k <= t@.len(),
                out@.len() == a@.len() + k,
                forall|j: int|
                    0 <= j < a@.len() ==> out@[j] == PathStep::Hardened(#[trigger] a@[j]),
                forall|j: int|
                    0 <= j < k ==> out@[a@.len() + j] == PathStep::Unhardened(#[trigger] t@[j]),
            decreases t@.len() - k,
        {
            out.push(PathStep::Unhardened(t[k]));
            k = k + 1;
        }
        out
    }

    /// A copy of the account's extended public key bytes.
    pub fn xpub_bytes(&self) -> (r: Vec<u8>)
        ensures
            r@ == self.account_xpub@,
    {
        let mut out: Vec<u8> = Vec::new();
        let mut i: usize = 0;
        while i < self.account_xpub.len()
            invariant
                0 <= i <= self.account_xpub@.len(),
                out@ == self.account_xpub@.take(i as int),
            decreases self.account_xpub@.len() - i,
        {
            out.push(self.account_xpub[i]);
            i = i + 1;
        }
        proof {
            assert(self.account_xpub@.take(self.account_xpub@.len() as int)
                =~= self.account_xpub@);
        }
        out
    }
}

} // verus!
