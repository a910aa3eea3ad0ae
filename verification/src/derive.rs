//! Public-key and script derivation for watch-only wallets: given a
//! descriptor template over tracking accounts and an unhardened terminal
//! subpath, derive the concrete public key forward from the account-level
//! extended public key — never touching private material — and build the
//! output script of the template's kind. The elliptic-curve work and the
//! HASH160 digest are done by the bitcoin crate behind trusted wrappers;
//! the script byte layout is this module's own verified logic.

use vstd::prelude::*;

use crate::account::TrackingAccount;
use crate::indexes::{SegmentIndexes, TerminalStep};
use crate::path::DerivationSubpath;

verus! {

/// Error raised when public-only derivation cannot produce a key or script.
#[derive(Clone, Copy, Debug, PartialEq, Eq, Structural)]
pub enum DeriveError {
    /// The 78 bytes held for the account do not decode as an extended
    /// public key (unknown version prefix or invalid curve point).
    InvalidExtendedKey,
    /// A derivation step yielded a degenerate curve point. Cryptographically
    /// negligible, but surfaced as an error rather than skipped.
    DegeneratePoint,
    /// The terminal subpath is longer than the BIP32 depth budget (one byte)
    /// of the account key allows.
    MaxDepthExceeded,
}

/// The compressed public key that BIP32 unhardened derivation yields from an
/// encoded extended public key and a path of unhardened raw indexes.
pub uninterp spec fn derived_pubkey_of(xpub: Seq<u8>, path: Seq<u32>) -> Seq<u8>;

/// Whether `ExtendedPubKey::decode` accepts 78 bytes as an extended public
/// key: a known version prefix and a valid curve point. A pure predicate of
/// the bytes.
pub uninterp spec fn bip32_decode_ok(xpub: Seq<u8>) -> bool;

/// Whether BIP32 unhardened public derivation succeeds on an encoded parent
/// key and a path: the bytes decode, and every child-key step yields a
/// valid scalar and a finite point. A pure predicate of its arguments.
pub uninterp spec fn bip32_derive_ok(xpub: Seq<u8>, path: Seq<u32>) -> bool;

/// The HASH160 digest (SHA-256 then RIPEMD-160) of a byte sequence.
pub uninterp spec fn hash160_of(data: Seq<u8>) -> Seq<u8>;

/// Relies on the bitcoin crate's BIP32 public derivation:
/// `ExtendedPubKey::decode`, `ExtendedPubKey::derive_pub` (unhardened steps
/// only) and `PublicKey::serialize`. The derived compressed key is 33 bytes
/// and a function of the encoded parent key and the path alone; decoding
/// and derivation report failure instead of panicking.
#[verifier::external_body]
fn bip32_derive_compressed(xpub: &Vec<u8>, path: &Vec<u32>) -> (r: Result<Vec<u8>, DeriveError>)
    requires
        xpub@.len() == 78,
        xpub@[4] + path@.len() <= 255,
        forall|i: int| 0 <= i < path@.len() ==> path@[i] < 0x8000_0000,
    ensures
        r matches Ok(pk) ==> pk@ == derived_pubkey_of(xpub@, path@) && pk@.len() == 33,
        r is Ok <==> bip32_derive_ok(xpub@, path@),
        (r matches Err(e) && e == DeriveError::InvalidExtendedKey) <==> !bip32_decode_ok(xpub@),
        r matches Err(e) ==> e == DeriveError::InvalidExtendedKey || e
            == DeriveError::DegeneratePoint,
{
    let key = match bitcoin::util::bip32::ExtendedPubKey::decode(xpub) {
        Ok(k) => k,
        Err(_) => return Err(DeriveError::InvalidExtendedKey),
    };
    let secp = bitcoin::secp256k1::Secp256k1::verification_only();
    let steps: Vec<bitcoin::util::bip32::ChildNumber> = path.iter().map(
        |i| bitcoin::util::bip32::ChildNumber::Normal { index: *i },
    ).collect();
    match key.derive_pub(&secp, &steps) {
        Ok(derived) => Ok(derived.public_key.serialize().to_vec()),
        Err(_) => Err(DeriveError::DegeneratePoint),
    }
}

/// Relies on bitcoin_hashes' HASH160: a 20-byte digest of the input bytes
/// alone.
#[verifier::external_body]
fn hash160_bytes(data: &Vec<u8>) -> (r: Vec<u8>)
    ensures
        r@ == hash160_of(data@),
        r@.len() == 20,
{
    let digest = <bitcoin::hashes::hash160::Hash as bitcoin::hashes::Hash>::hash(
        data.as_slice(),
    );
    let mut out = Vec::with_capacity(20);
    out.extend_from_slice(&digest[..]);
    out
}

/// A Bitcoin output script (scriptPubKey), as its bytes.
#[derive(Debug, PartialEq, Eq)]
pub struct Script(Vec<u8>);

impl View for Script {
    type V = Seq<u8>;

    closed spec fn view(&self) -> Seq<u8> {
        self.0@
    }
}

impl Script {
    /// The bytes of the script.
    pub fn as_bytes(&self) -> (r: &Vec<u8>)
        ensures
            r@ == self@,
    {
        &self.0
    }

    /// A copy of the script.
    pub fn duplicate(&self) -> (r: Script)
        ensures
            r@ == self@,
    {
        let mut v: Vec<u8> = Vec::new();
        let mut i: usize = 0;
        while i < self.0.len()
            invariant
                0 <= i <= self.0@.len(),
                v@ == self.0@.take(i as int),
            decreases self.0@.len() - i,
        {
            v.push(self.0[i]);
            i = i + 1;
        }
        proof {
            assert(self.0@.take(self.0@.len() as int) =~= self.0@);
        }
        Script(v)
    }
}

/// Appends all bytes of a vector to another.
fn extend_bytes(out: &mut Vec<u8>, src: &Vec<u8>)
    ensures
        final(out)@ == old(out)@ + src@,
{
    let mut i: usize = 0;
    while i < src.len()
        invariant
            0 <= i <= src@.len(),
            out@ == old(out)@ + src@.take(i as int),
        decreases src@.len() - i,
    {
        out.push(src[i]);
        proof {
            assert(old(out)@ + src@.take(i as int + 1) =~= (old(out)@ + src@.take(i as int)).push(
                src@[i as int],
            ));
        }
        i = i + 1;
    }
    proof {
        assert(src@.take(src@.len() as int) =~= src@);
    }
}

/// Pay-to-pubkey: a push of the 33-byte key, then `OP_CHECKSIG`.
pub open spec fn p2pk_script(pk: Seq<u8>) -> Seq<u8> {
    seq![0x21u8] + pk + seq![0xacu8]
}

/// Pay-to-pubkey-hash: `OP_DUP OP_HASH160 <20-byte hash> OP_EQUALVERIFY
/// OP_CHECKSIG`.
pub open spec fn p2pkh_script(pk: Seq<u8>) -> Seq<u8> {
    seq![0x76u8, 0xa9u8, 0x14u8] + hash160_of(pk) + seq![0x88u8, 0xacu8]
}

/// Pay-to-witness-pubkey-hash: version 0, then the 20-byte key hash.
pub open spec fn p2wpkh_script(pk: Seq<u8>) -> Seq<u8> {
    seq![0x00u8, 0x14u8] + hash160_of(pk)
}

/// Pay-to-script-hash: `OP_HASH160 <20-byte script hash> OP_EQUAL`.
pub open spec fn p2sh_script(inner: Seq<u8>) -> Seq<u8> {
    seq![0xa9u8, 0x14u8] + hash160_of(inner) + seq![0x87u8]
}

/// A descriptor template: the script-construction rule of an output,
/// parameterized by the tracking account whose derived key fills it.
#[derive(Debug, PartialEq, Eq)]
pub enum DescriptorTemplate {
    /// Bare pay-to-pubkey.
    Pk(TrackingAccount),
    /// Pay-to-pubkey-hash.
    Pkh(TrackingAccount),
    /// Native segwit pay-to-witness-pubkey-hash.
    Wpkh(TrackingAccount),
    /// Nested segwit: pay-to-witness-pubkey-hash wrapped in
    /// pay-to-script-hash.
    ShWpkh(TrackingAccount),
}

/// The account a descriptor template is parameterized by.
pub open spec fn account_of(d: DescriptorTemplate) -> TrackingAccount {
    match d {
        DescriptorTemplate::Pk(a) => a,
        DescriptorTemplate::Pkh(a) => a,
        DescriptorTemplate::Wpkh(a) => a,
        DescriptorTemplate::ShWpkh(a) => a,
    }
}

/// The raw values of a sequence of segments, as 32-bit values.
pub open spec fn seg_raws<S: SegmentIndexes>(segs: Seq<S>) -> Seq<u32> {
    segs.map_values(|s: S| s.raw())
}

/// The scriptPubKey a descriptor template denotes for a terminal path: the
/// template's script rule, filled with the key derived from the account's
/// extended public key along the unhardened terminal steps.
pub open spec fn descriptor_script_spec(d: DescriptorTemplate, terminal: Seq<u32>) -> Seq<u8> {
    let pk = derived_pubkey_of(account_of(d).account_xpub@, terminal);
    match d {
        DescriptorTemplate::Pk(_) => p2pk_script(pk),
        DescriptorTemplate::Pkh(_) => p2pkh_script(pk),
        DescriptorTemplate::Wpkh(_) => p2wpkh_script(pk),
        DescriptorTemplate::ShWpkh(_) => p2sh_script(p2wpkh_script(pk)),
    }
}

impl TrackingAccount {
    /// Derives the compressed public key of this account at an unhardened
    /// terminal subpath, from public material alone. Fails when the terminal
    /// path exceeds the key's BIP32 depth budget, and surfaces the decode
    /// and degenerate-point failures of the curve library.
    pub fn derive_public_key(&self, terminal: &DerivationSubpath<TerminalStep>) -> (r: Result<
        Vec<u8>,
        DeriveError,
    >)
        requires
            self.wf(),
            terminal.wf(),
        ensures
            r matches Ok(pk) ==> pk@ == derived_pubkey_of(
                self.account_xpub@,
                seg_raws(terminal@),
            ) && pk@.len() == 33,
            r is Ok <==> self.account_xpub@[4] + terminal@.len() <= 255 && bip32_derive_ok(
                self.account_xpub@,
                seg_raws(terminal@),
            ),
            self.account_xpub@[4] + terminal@.len() > 255 ==> r == Err::<Vec<u8>, DeriveError>(
                DeriveError::MaxDepthExceeded,
            ),
            self.account_xpub@[4] + terminal@.len() <= 255 && !bip32_decode_ok(
                self.account_xpub@,
            ) ==> r == Err::<Vec<u8>, DeriveError>(DeriveError::InvalidExtendedKey),
            self.account_xpub@[4] + terminal@.len() <= 255 && bip32_decode_ok(self.account_xpub@)
                && !bip32_derive_ok(self.account_xpub@, seg_raws(terminal@)) ==> r == Err::<
                Vec<u8>,
                DeriveError,
            >(DeriveError::DegeneratePoint),
    {
        let depth = self.account_xpub[4];
        if terminal.len() > 255 - (depth as usize) {
            return Err(DeriveError::MaxDepthExceeded);
        }
        let segs = terminal.segments();
        let mut raws: Vec<u32> = Vec::new();
        let mut i: usize = 0;
        while i < segs.len()
            invariant
                segs@ == terminal@,
                0 <= i <= segs@.len(),
                raws@.len() == i,
                forall|k: int| 0 <= k < i ==> raws@[k] == (#[trigger] segs@[k]).raw(),
            decreases segs@.len() - i,
        {
            raws.push(segs[i].first_index());
            i = i + 1;
        }
        proof {
            assert(raws@ =~= seg_raws(terminal@));
            assert(forall|k: int|
                0 <= k < raws@.len() ==> raws@[k] < 0x8000_0000u32);
        }
        bip32_derive_compressed(&self.account_xpub, &raws)
    }
}

impl DescriptorTemplate {
    /// Whether the template is well-formed: its account is.
    pub open spec fn wf(self) -> bool {
        account_of(self).wf()
    }

    /// The tracking account the template is parameterized by.
    pub fn account(&self) -> (r: &TrackingAccount)
        ensures
            *r == account_of(*self),
    {
        match self {
            DescriptorTemplate::Pk(a) => a,
            DescriptorTemplate::Pkh(a) => a,
            DescriptorTemplate::Wpkh(a) => a,
            DescriptorTemplate::ShWpkh(a) => a,
        }
    }

    /// Computes the concrete scriptPubKey for an unhardened terminal
    /// subpath, from public key material alone. Pure in its inputs; fails
    /// only as `derive_public_key` does.
    pub fn script_pubkey(&self, terminal: &DerivationSubpath<TerminalStep>) -> (r: Result<
        Script,
        DeriveError,
    >)
        requires
            self.wf(),
            terminal.wf(),
        ensures
            r matches Ok(s) ==> s@ == descriptor_script_spec(*self, seg_raws(terminal@)),
            r is Ok <==> account_of(*self).account_xpub@[4] + terminal@.len() <= 255
                && bip32_derive_ok(account_of(*self).account_xpub@, seg_raws(terminal@)),
            account_of(*self).account_xpub@[4] + terminal@.len() > 255 ==> r == Err::<
                Script,
                DeriveError,
            >(DeriveError::MaxDepthExceeded),
            account_of(*self).account_xpub@[4] + terminal@.len() <= 255 && !bip32_decode_ok(
                account_of(*self).account_xpub@,
            ) ==> r == Err::<Script, DeriveError>(DeriveError::InvalidExtendedKey),
            account_of(*self).account_xpub@[4] + terminal@.len() <= 255 && bip32_decode_ok(
                account_of(*self).account_xpub@,
            ) && !bip32_derive_ok(account_of(*self).account_xpub@, seg_raws(terminal@)) ==> r
                == Err::<Script, DeriveError>(DeriveError::DegeneratePoint),
    {
        let pk = match self.account().derive_public_key(terminal) {
            Ok(pk) => pk,
            Err(e) => {
                return Err(e);
            },
        };
        let mut out: Vec<u8> = Vec::new();
        match self {
            DescriptorTemplate::Pk(_) => {
                out.push(0x21);
                extend_bytes(&mut out, &pk);
                out.push(0xac);
                proof {
                    assert(out@ =~= p2pk_script(pk@));
                }
            },
            DescriptorTemplate::Pkh(_) => {
                let h = hash160_bytes(&pk);
                out.push(0x76);
                out.push(0xa9);
                out.push(0x14);
                extend_bytes(&mut out, &h);
                out.push(0x88);
                out.push(0xac);
                proof {
                    assert(out@ =~= p2pkh_script(pk@));
                }
            },
            DescriptorTemplate::Wpkh(_) => {
                let h = hash160_bytes(&pk);
                out.push(0x00);
                out.push(0x14);
                extend_bytes(&mut out, &h);
                proof {
                    assert(out@ =~= p2wpkh_script(pk@));
                }
            },
            DescriptorTemplate::ShWpkh(_) => {
                let h = hash160_bytes(&pk);
                let mut inner: Vec<u8> = Vec::new();
                inner.push(0x00);
                inner.push(0x14);
                extend_bytes(&mut inner, &h);
                proof {
                    assert(inner@ =~= p2wpkh_script(pk@));
                }
                let ih = hash160_bytes(&inner);
                out.push(0xa9);
                out.push(0x14);
                extend_bytes(&mut out, &ih);
                out.push(0x87);
                proof {
                    assert(out@ =~= p2sh_script(p2wpkh_script(pk@)));
                }
            },
        }
        Ok(Script(out))
    }
}

} // verus!
