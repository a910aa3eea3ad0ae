use std::str::FromStr;

use wallet_hd::{
    hardened, resolve_descriptor_utxo, unhardened, DerivationScheme, DerivationSubpath,
    DeriveError, DescriptorTemplate, Fingerprint, HardenedIndex, IndexRange, IndexRangeList,
    KeyError, OutputMap, PathStep, ProprietaryKey, ProprietaryKeyTapret, ResolveUtxo, Script,
    SegmentIndexes, SegmentText, TerminalStep, TrackingAccount, UnhardenedIndex, Utxo,
    UtxoResolverError, UtxoSet, ValidationError, HARDENED_INDEX_BOUNDARY,
};

const BOUNDARY: u32 = 0x8000_0000;

fn steps(vals: &[u32]) -> Vec<UnhardenedIndex> {
    vals.iter().map(|v| unhardened(*v).unwrap()).collect()
}

fn terminal_path(vals: &[u32]) -> DerivationSubpath<TerminalStep> {
    DerivationSubpath::from_segments(steps(vals)).unwrap()
}

// A BIP32 test-vector master key, reused as an account-level public key.
const XPUB: &str = "xpub661MyMwAqRbcFtXgS5sYJABqqG9YLmC4Q1Rdap9gSE8NqtwybGhePY2gZ29ESFjqJoCu1Rupje8YtGqsefD265TMg7usUDFdp6W1EGMcet8";

fn xpub_bytes() -> Vec<u8> {
    let key = bitcoin::util::bip32::ExtendedPubKey::from_str(XPUB).unwrap();
    key.encode().to_vec()
}

fn wpkh_account() -> TrackingAccount {
    TrackingAccount::with(
        Fingerprint([0x12, 0x34, 0x56, 0x78]),
        xpub_bytes(),
        DerivationScheme::Bip84,
        0,
        0,
    )
    .unwrap()
}

fn derive_pk_directly(path: &[u32]) -> bitcoin::secp256k1::PublicKey {
    let secp = bitcoin::secp256k1::Secp256k1::verification_only();
    let key = bitcoin::util::bip32::ExtendedPubKey::from_str(XPUB).unwrap();
    let steps: Vec<bitcoin::util::bip32::ChildNumber> = path
        .iter()
        .map(|i| bitcoin::util::bip32::ChildNumber::from_normal_idx(*i).unwrap())
        .collect();
    key.derive_pub(&secp, &steps).unwrap().public_key
}

#[test]
fn unhardened_accepts_lower_half_only() {
    assert_eq!(unhardened(0).unwrap().first_index(), 0);
    assert_eq!(unhardened(BOUNDARY - 1).unwrap().first_index(), BOUNDARY - 1);
    assert_eq!(
        unhardened(BOUNDARY),
        Err(ValidationError::IndexOutOfRange(BOUNDARY))
    );
    assert_eq!(
        unhardened(u32::MAX),
        Err(ValidationError::IndexOutOfRange(u32::MAX))
    );
}

#[test]
fn hardened_accepts_upper_half_only() {
    assert_eq!(hardened(BOUNDARY).unwrap().first_index(), BOUNDARY);
    assert_eq!(hardened(u32::MAX).unwrap().first_index(), u32::MAX);
    assert_eq!(hardened(0), Err(ValidationError::IndexOutOfRange(0)));
    assert_eq!(
        hardened(BOUNDARY - 1),
        Err(ValidationError::IndexOutOfRange(BOUNDARY - 1))
    );
    assert_eq!(HARDENED_INDEX_BOUNDARY, BOUNDARY);
}

#[test]
fn checked_add_respects_boundary() {
    let near = unhardened(BOUNDARY - 5).unwrap();
    assert_eq!(near.checked_add(10), None);
    let reached = near.checked_add(4).unwrap();
    assert_eq!(reached, unhardened(BOUNDARY - 1).unwrap());
    assert_eq!(reached.first_index(), BOUNDARY - 1);
    // Hardened indexes fail only on 32-bit overflow.
    let h = hardened(u32::MAX - 1).unwrap();
    assert_eq!(h.checked_add(1).unwrap().first_index(), u32::MAX);
    assert_eq!(h.checked_add(2), None);
}

#[test]
fn empty_subpath_is_rejected() {
    let r = DerivationSubpath::<TerminalStep>::from_segments(Vec::new());
    assert_eq!(r, Err(ValidationError::EmptySubpath));
    let rh = DerivationSubpath::<HardenedIndex>::from_segments(Vec::new());
    assert_eq!(rh, Err(ValidationError::EmptySubpath));
}

#[test]
fn unhardened_path_text_round_trip() {
    let p = terminal_path(&[0, 7, 2147483647, 15]);
    let text = p.to_text();
    assert_eq!(text, "/0/7/2147483647/15");
    let back = DerivationSubpath::<TerminalStep>::from_text(&text).unwrap();
    assert_eq!(back, p);
}

#[test]
fn hardened_path_text_round_trip() {
    let segs: Vec<HardenedIndex> = vec![
        hardened(BOUNDARY + 84).unwrap(),
        hardened(BOUNDARY).unwrap(),
        hardened(u32::MAX).unwrap(),
    ];
    let p = DerivationSubpath::from_segments(segs).unwrap();
    let text = p.to_text();
    assert_eq!(text, "/84h/0h/2147483647h");
    let back = DerivationSubpath::<HardenedIndex>::from_text(&text).unwrap();
    assert_eq!(back, p);
}

#[test]
fn path_text_rejects_malformed_input() {
    assert!(DerivationSubpath::<TerminalStep>::from_text("").is_err());
    assert!(DerivationSubpath::<TerminalStep>::from_text("0/1").is_err());
    assert!(DerivationSubpath::<TerminalStep>::from_text("/").is_err());
    assert!(DerivationSubpath::<TerminalStep>::from_text("/0//1").is_err());
    assert!(DerivationSubpath::<TerminalStep>::from_text("/0/x").is_err());
    // Value at the boundary is hardened, not unhardened.
    assert!(DerivationSubpath::<TerminalStep>::from_text("/2147483648").is_err());
    // Too large for 32 bits at all.
    assert!(DerivationSubpath::<TerminalStep>::from_text("/4294967296").is_err());
    // Hardened marker in an unhardened path.
    assert!(DerivationSubpath::<TerminalStep>::from_text("/0h").is_err());
    // Unhardened token in a hardened path.
    assert!(DerivationSubpath::<HardenedIndex>::from_text("/0").is_err());
}

#[test]
fn binary_codec_round_trip() {
    let p = terminal_path(&[1, 0, 500, BOUNDARY - 1]);
    let bytes = p.encode();
    assert_eq!(bytes.len(), 2 + 4 * 4);
    assert_eq!(&bytes[0..2], &[4, 0]);
    let back = DerivationSubpath::<TerminalStep>::decode(&bytes).unwrap();
    assert_eq!(back, p);
}

#[test]
fn binary_decode_revalidates() {
    // Too short.
    assert!(DerivationSubpath::<TerminalStep>::decode(&vec![]).is_err());
    // Zero-length path.
    assert_eq!(
        DerivationSubpath::<TerminalStep>::decode(&vec![0, 0]),
        Err(ValidationError::EmptySubpath)
    );
    // Truncated body.
    assert!(DerivationSubpath::<TerminalStep>::decode(&vec![1, 0, 1, 2]).is_err());
    // Trailing bytes.
    assert!(
        DerivationSubpath::<TerminalStep>::decode(&vec![1, 0, 1, 0, 0, 0, 9]).is_err()
    );
    // A hardened value in an unhardened path: 0x80000000 little-endian.
    assert!(
        DerivationSubpath::<TerminalStep>::decode(&vec![1, 0, 0, 0, 0, 0x80]).is_err()
    );
    // The same bytes decode as a hardened path.
    let h = DerivationSubpath::<HardenedIndex>::decode(&vec![1, 0, 0, 0, 0, 0x80]).unwrap();
    assert_eq!(h.segments()[0].first_index(), BOUNDARY);
}

#[test]
fn range_list_merges_adjacent_ranges() {
    let r1 = IndexRange::with(unhardened(0).unwrap(), unhardened(4).unwrap()).unwrap();
    let r2 = IndexRange::with(unhardened(5).unwrap(), unhardened(9).unwrap()).unwrap();
    let mut list = IndexRangeList::empty();
    list.insert(r1);
    list.insert(r2);
    // Adjacent ranges are merged into one canonical range.
    assert_eq!(list.ranges().len(), 1);
    assert_eq!(list.ranges()[0].start.first_index(), 0);
    assert_eq!(list.ranges()[0].end.first_index(), 9);
    let idx: Vec<u32> = list.indexes().iter().map(|i| i.first_index()).collect();
    assert_eq!(idx, vec![0, 1, 2, 3, 4, 5, 6, 7, 8, 9]);
    assert!(list.contains(unhardened(9).unwrap()));
    assert!(!list.contains(unhardened(10).unwrap()));
}

#[test]
fn range_list_keeps_disjoint_ranges_sorted() {
    let r1 = IndexRange::with(unhardened(20).unwrap(), unhardened(21).unwrap()).unwrap();
    let r2 = IndexRange::with(unhardened(3).unwrap(), unhardened(5).unwrap()).unwrap();
    let r3 = IndexRange::with(unhardened(4).unwrap(), unhardened(19).unwrap()).unwrap();
    let mut list = IndexRangeList::empty();
    list.insert(r1);
    list.insert(r2);
    assert_eq!(list.ranges().len(), 2);
    assert_eq!(list.ranges()[0].start.first_index(), 3);
    // Overlapping and adjacent with both: everything merges.
    list.insert(r3);
    assert_eq!(list.ranges().len(), 1);
    let idx: Vec<u32> = list.indexes().iter().map(|i| i.first_index()).collect();
    assert_eq!(idx, (3..=21).collect::<Vec<u32>>());
}

#[test]
fn range_construction_rejects_reversed_bounds() {
    let r = IndexRange::with(unhardened(5).unwrap(), unhardened(4).unwrap());
    assert!(r.is_err());
}

#[test]
fn scheme_bip44_account_path() {
    let p = DerivationScheme::Bip44.derive_account_path(7, 1).unwrap();
    assert_eq!(p.to_text(), "/44h/1h/7h");
    let p84 = DerivationScheme::Bip84.derive_account_path(0, 0).unwrap();
    assert_eq!(p84.to_text(), "/84h/0h/0h");
    let p48 = DerivationScheme::Bip48Native.derive_account_path(2, 0).unwrap();
    assert_eq!(p48.to_text(), "/48h/0h/2h/2h");
}

#[test]
fn scheme_rejects_unhardenable_inputs() {
    assert_eq!(
        DerivationScheme::Bip44.derive_account_path(BOUNDARY, 0),
        Err(wallet_hd::DerivePatternError::AccountOutOfRange(BOUNDARY))
    );
    assert_eq!(
        DerivationScheme::Bip44.derive_account_path(0, BOUNDARY + 3),
        Err(wallet_hd::DerivePatternError::CoinOutOfRange(BOUNDARY + 3))
    );
}

#[test]
fn scheme_custom_returns_template() {
    let template = DerivationSubpath::<HardenedIndex>::from_text("/5h/6h").unwrap();
    let scheme = DerivationScheme::Custom(template);
    let p = scheme.derive_account_path(BOUNDARY, BOUNDARY).unwrap();
    assert_eq!(p.to_text(), "/5h/6h");
}

#[test]
fn tracking_account_binds_its_parts() {
    let a = wpkh_account();
    assert_eq!(a.master_fingerprint, Fingerprint([0x12, 0x34, 0x56, 0x78]));
    assert_eq!(a.account_xpub, xpub_bytes());
    assert_eq!(a.account_path.to_text(), "/84h/0h/0h");
}

#[test]
fn full_path_appends_terminal_steps() {
    let a = wpkh_account();
    let term = terminal_path(&[0, 7]);
    let full = a.full_path(&term);
    assert_eq!(full.len(), 5);
    assert_eq!(full[0], PathStep::Hardened(hardened(BOUNDARY + 84).unwrap()));
    assert_eq!(full[3], PathStep::Unhardened(unhardened(0).unwrap()));
    assert_eq!(full[4], PathStep::Unhardened(unhardened(7).unwrap()));
}

#[test]
fn hardened_normal_split_accepts_clean_shapes() {
    let a = wpkh_account();
    let term = terminal_path(&[0, 7]);
    let full = a.full_path(&term);
    let (h, u) = wallet_hd::hardened_normal_split(&full).unwrap();
    assert_eq!(h.len(), 3);
    assert_eq!(u.len(), 2);
    assert_eq!(u[1].first_index(), 7);
}

#[test]
fn hardened_normal_split_rejects_interleaved_kinds() {
    let mixed = vec![
        PathStep::Unhardened(unhardened(0).unwrap()),
        PathStep::Hardened(hardened(BOUNDARY).unwrap()),
    ];
    assert!(wallet_hd::hardened_normal_split(&mixed).is_none());
}

#[test]
fn wpkh_script_matches_direct_derivation() {
    let a = wpkh_account();
    let term = DerivationSubpath::<TerminalStep>::from_text("/0/7").unwrap();
    let script = DescriptorTemplate::Wpkh(a).script_pubkey(&term).unwrap();
    let pk = bitcoin::PublicKey::new(derive_pk_directly(&[0, 7]));
    let expected = bitcoin::Script::new_v0_p2wpkh(&pk.wpubkey_hash().unwrap());
    assert_eq!(script.as_bytes().as_slice(), expected.as_bytes());
}

#[test]
fn pkh_and_sh_wpkh_scripts_match_direct_derivation() {
    let term = DerivationSubpath::<TerminalStep>::from_text("/1/2").unwrap();
    let pk = bitcoin::PublicKey::new(derive_pk_directly(&[1, 2]));

    let pkh = DescriptorTemplate::Pkh(wpkh_account()).script_pubkey(&term).unwrap();
    let expected_pkh = bitcoin::Script::new_p2pkh(&pk.pubkey_hash());
    assert_eq!(pkh.as_bytes().as_slice(), expected_pkh.as_bytes());

    let sh = DescriptorTemplate::ShWpkh(wpkh_account()).script_pubkey(&term).unwrap();
    let inner = bitcoin::Script::new_v0_p2wpkh(&pk.wpubkey_hash().unwrap());
    let expected_sh = bitcoin::Script::new_p2sh(&inner.script_hash());
    assert_eq!(sh.as_bytes().as_slice(), expected_sh.as_bytes());
}

#[test]
fn derivation_rejects_exhausted_depth() {
    let a = wpkh_account();
    let too_deep = terminal_path(&vec![1u32; 256]);
    assert_eq!(
        a.derive_public_key(&too_deep),
        Err(DeriveError::MaxDepthExceeded)
    );
}

#[test]
fn derivation_rejects_invalid_key_bytes() {
    let a = TrackingAccount::with(
        Fingerprint([0; 4]),
        vec![0u8; 78],
        DerivationScheme::Bip84,
        0,
        0,
    )
    .unwrap();
    let term = terminal_path(&[0]);
    assert_eq!(
        a.derive_public_key(&term),
        Err(DeriveError::InvalidExtendedKey)
    );
}

struct StubResolver;

impl ResolveUtxo for StubResolver {
    fn resolve_utxo(&self, scripts: &Vec<Script>) -> Result<Vec<UtxoSet>, String> {
        let mut out: Vec<UtxoSet> = Vec::new();
        for s in scripts {
            out.push(vec![Utxo { txid: s.as_bytes().clone(), vout: 0, value: 1000 }]);
        }
        Ok(out)
    }
}

struct FailingResolver;

impl ResolveUtxo for FailingResolver {
    fn resolve_utxo(&self, _scripts: &Vec<Script>) -> Result<Vec<UtxoSet>, String> {
        Err(String::from("connection refused"))
    }
}

#[test]
fn batch_resolution_pairs_each_index_with_its_script() {
    let d = DescriptorTemplate::Wpkh(wpkh_account());
    let base = steps(&[0]);
    let from = unhardened(0).unwrap();
    let m = resolve_descriptor_utxo(&StubResolver, &d, &base, from, 3).unwrap();
    assert_eq!(m.len(), 3);
    for (j, (idx, script, set)) in m.iter().enumerate() {
        assert_eq!(idx.first_index(), j as u32);
        let term = terminal_path(&[0, j as u32]);
        let expected = d.script_pubkey(&term).unwrap();
        assert_eq!(script, &expected);
        assert_eq!(set, &vec![Utxo { txid: script.as_bytes().clone(), vout: 0, value: 1000 }]);
    }
}

#[test]
fn batch_resolution_rejects_windows_crossing_the_boundary() {
    let d = DescriptorTemplate::Wpkh(wpkh_account());
    let base = steps(&[0]);
    let from = unhardened(BOUNDARY - 2).unwrap();
    let r = resolve_descriptor_utxo(&StubResolver, &d, &base, from, 5);
    // The first logical index that crosses the boundary is the boundary
    // itself: indexes boundary-2 and boundary-1 are still unhardened.
    assert_eq!(r, Err(UtxoResolverError::IndexOutOfRange(BOUNDARY as u64)));
    // A window that stops right at the last unhardened index passes the
    // range check.
    let ok = resolve_descriptor_utxo(&StubResolver, &d, &base, from, 2).unwrap();
    assert_eq!(ok.len(), 2);
    assert_eq!(ok[1].0.first_index(), BOUNDARY - 1);
}

#[test]
fn batch_resolution_wraps_collaborator_failure() {
    let d = DescriptorTemplate::Wpkh(wpkh_account());
    let r = resolve_descriptor_utxo(&FailingResolver, &d, &Vec::new(), unhardened(0).unwrap(), 2);
    assert_eq!(
        r,
        Err(UtxoResolverError::Backend(String::from("connection refused")))
    );
}

#[test]
fn tapret_keys_carry_their_subtypes() {
    let host = ProprietaryKey::tapret_host();
    assert_eq!(host.prefix, b"TAPRET".to_vec());
    assert_eq!(host.subtype, wallet_hd::tapret::PSBT_OUT_TAPRET_HOST);
    assert!(host.key.is_empty());
    assert_eq!(
        ProprietaryKey::tapret_commitment().subtype,
        wallet_hd::tapret::PSBT_OUT_TAPRET_COMMITMENT
    );
    assert_eq!(
        ProprietaryKey::tapret_proof().subtype,
        wallet_hd::tapret::PSBT_OUT_TAPRET_PROOF
    );
}

#[test]
fn tapret_host_flag_round_trip() {
    let mut out = OutputMap::new();
    assert!(!out.can_host_tapret());
    assert!(!out.set_can_host_tapret(true));
    assert!(out.can_host_tapret());
    assert!(out.set_can_host_tapret(false));
    assert!(!out.can_host_tapret());
}

#[test]
fn tapret_commitment_round_trip() {
    let mut out = OutputMap::new();
    assert!(!out.has_tapret_commitment());
    assert_eq!(out.tapret_commitment(), None);
    let commitment = vec![7u8; 32];
    out.set_tapret_commitment(&commitment).unwrap();
    assert!(out.has_tapret_commitment());
    assert_eq!(out.tapret_commitment(), Some(commitment.clone()));
    // A second commitment is refused.
    assert_eq!(
        out.set_tapret_commitment(&vec![9u8; 32]),
        Err(KeyError::OutputAlreadyHasCommitment)
    );
    assert_eq!(out.tapret_commitment(), Some(commitment));
    // The host flag lives under its own subtype, untouched.
    assert!(!out.can_host_tapret());
}

#[test]
fn tapret_proof_requires_branch_shape() {
    let mut out = OutputMap::new();
    assert!(!out.has_tapret_proof());
    assert_eq!(out.tapret_proof(), None);
    out.proprietary.push((ProprietaryKey::tapret_proof(), vec![1u8; 64]));
    assert!(out.has_tapret_proof());
    assert_eq!(out.tapret_proof(), Some(vec![1u8; 64]));
    // An ill-shaped proof is present but yields nothing.
    let mut bad = OutputMap::new();
    bad.proprietary.push((ProprietaryKey::tapret_proof(), vec![1u8; 63]));
    assert!(bad.has_tapret_proof());
    assert_eq!(bad.tapret_proof(), None);
}

#[test]
fn error_variants_are_precise() {
    assert_eq!(
        DerivationSubpath::<TerminalStep>::from_text("0/1"),
        Err(ValidationError::InvalidPathFormat)
    );
    assert_eq!(
        DerivationSubpath::<TerminalStep>::from_text("/0/x"),
        Err(ValidationError::InvalidSegmentText)
    );
    assert_eq!(
        DerivationSubpath::<TerminalStep>::decode(&vec![1, 0, 1, 2]),
        Err(ValidationError::InvalidEncoding)
    );
}

#[test]
fn batch_resolution_wraps_derivation_failure() {
    let bad = TrackingAccount::with(
        Fingerprint([0; 4]),
        vec![0u8; 78],
        DerivationScheme::Bip84,
        0,
        0,
    )
    .unwrap();
    let d = DescriptorTemplate::Wpkh(bad);
    let r = resolve_descriptor_utxo(&StubResolver, &d, &Vec::new(), unhardened(0).unwrap(), 1);
    assert_eq!(
        r,
        Err(UtxoResolverError::Derivation(DeriveError::InvalidExtendedKey))
    );
}

#[test]
fn tapret_setters_preserve_foreign_entries() {
    let mut out = OutputMap::new();
    // A foreign vendor's entry: same subtype byte, different prefix.
    let foreign = ProprietaryKey { prefix: b"OTHER".to_vec(), subtype: 0x08, key: vec![1, 2] };
    out.proprietary.push((foreign, vec![9, 9]));
    out.set_can_host_tapret(true);
    out.set_tapret_commitment(&vec![5u8; 32]).unwrap();
    assert!(out.can_host_tapret());
    assert_eq!(out.proprietary[0].0.prefix, b"OTHER".to_vec());
    assert_eq!(out.proprietary[0].0.key, vec![1, 2]);
    assert_eq!(out.proprietary[0].1, vec![9, 9]);
    out.set_can_host_tapret(false);
    assert!(!out.can_host_tapret());
    assert_eq!(out.proprietary[0].0.prefix, b"OTHER".to_vec());
    assert!(out.has_tapret_commitment());
    // Repeating a host toggle leaves the state identical.
    out.set_can_host_tapret(true);
    let before: Vec<(Vec<u8>, u8, Vec<u8>, Vec<u8>)> = out
        .proprietary
        .iter()
        .map(|e| (e.0.prefix.clone(), e.0.subtype, e.0.key.clone(), e.1.clone()))
        .collect();
    out.set_can_host_tapret(true);
    let after: Vec<(Vec<u8>, u8, Vec<u8>, Vec<u8>)> = out
        .proprietary
        .iter()
        .map(|e| (e.0.prefix.clone(), e.0.subtype, e.0.key.clone(), e.1.clone()))
        .collect();
    assert_eq!(before, after);
}

#[test]
fn zero_constructors() {
    assert_eq!(UnhardenedIndex::zero().first_index(), 0);
    assert_eq!(HardenedIndex::zero().first_index(), BOUNDARY);
}
