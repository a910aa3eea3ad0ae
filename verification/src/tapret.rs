//! Proprietary PSBT output keys for taproot OP_RETURN (tapret) commitments:
//! marking outputs that may host a commitment, and storing the 32-byte
//! commitment and its taptree merkle proof. The proprietary entries of an
//! output are held as an ordered key-value list; lookups go by the first
//! entry carrying the tapret prefix and the queried subtype.

use vstd::prelude::*;

verus! {

/// Proprietary key subtype marking outputs that may host a tapret
/// commitment.
pub const PSBT_OUT_TAPRET_HOST: u8 = 0x08;

/// Proprietary key subtype holding the 32-byte tapret commitment.
pub const PSBT_OUT_TAPRET_COMMITMENT: u8 = 0x09;

/// Proprietary key subtype holding the merkle branch path of the tapret
/// tweak inside the taptree.
pub const PSBT_OUT_TAPRET_PROOF: u8 = 0x0a;

/// A proprietary PSBT key: a vendor prefix, a subtype, and key data.
#[derive(Debug, PartialEq, Eq)]
pub struct ProprietaryKey {
    /// The vendor prefix.
    pub prefix: Vec<u8>,
    /// The subtype under that prefix.
    pub subtype: u8,
    /// Additional key data.
    pub key: Vec<u8>,
}

/// Errors processing tapret-related proprietary keys and their values.
#[derive(Clone, Copy, Debug, PartialEq, Eq, Structural)]
pub enum KeyError {
    /// The output already holds a commitment; there must be a single
    /// commitment per output.
    OutputAlreadyHasCommitment,
}

/// The ASCII bytes of the tapret vendor prefix.
pub open spec fn tapret_prefix_spec() -> Seq<u8> {
    seq![0x54u8, 0x41u8, 0x50u8, 0x52u8, 0x45u8, 0x54u8]
}

/// Whether a proprietary key is the tapret key of a subtype: the tapret
/// prefix, that subtype, and empty key data.
pub open spec fn is_tapret_key(k: ProprietaryKey, st: u8) -> bool {
    k.prefix@ == tapret_prefix_spec() && k.subtype == st && k.key@.len() == 0
}

/// The value of the first entry carrying the tapret key of a subtype.
pub open spec fn tapret_val(s: Seq<(ProprietaryKey, Vec<u8>)>, st: u8) -> Option<Seq<u8>>
    decreases s.len(),
{
    if s.len() == 0 {
        None
    } else if is_tapret_key(s[0].0, st) {
        Some(s[0].1@)
    } else {
        tapret_val(s.drop_first(), st)
    }
}

/// How appending an entry changes a tapret lookup: an earlier entry wins,
/// else the new entry answers if it matches.
proof fn lemma_tapret_val_push(s: Seq<(ProprietaryKey, Vec<u8>)>, st: u8, e: (
    ProprietaryKey,
    Vec<u8>,
))
    ensures
        tapret_val(s.push(e), st) == (if tapret_val(s, st) is Some {
            tapret_val(s, st)
        } else if is_tapret_key(e.0, st) {
            Some(e.1@)
        } else {
            None
        }),
    decreases s.len(),
{
    if s.len() == 0 {
        assert(s.push(e)[0] == e);
        assert(s.push(e).drop_first() =~= Seq::<(ProprietaryKey, Vec<u8>)>::empty());
        assert(tapret_val(s, st) is None);
        assert(tapret_val(s.push(e).drop_first(), st) is None);
    } else {
        assert(s.push(e)[0] == s[0]);
        assert(s.push(e).drop_first() =~= s.drop_first().push(e));
        lemma_tapret_val_push(s.drop_first(), st, e);
        if is_tapret_key(s[0].0, st) {
            assert(tapret_val(s, st) == Some(s[0].1@));
            assert(tapret_val(s.push(e), st) == Some(s[0].1@));
        } else {
            assert(tapret_val(s, st) == tapret_val(s.drop_first(), st));
            assert(tapret_val(s.push(e), st) == tapret_val(s.drop_first().push(e), st));
        }
    }
}

/// A lookup skips over entries that do not match.
proof fn lemma_tapret_val_skip(s: Seq<(ProprietaryKey, Vec<u8>)>, st: u8, i: int)
    requires
        0 <= i <= s.len(),
        forall|j: int| 0 <= j < i ==> !is_tapret_key((#[trigger] s[j]).0, st),
    ensures
        tapret_val(s, st) == tapret_val(s.skip(i), st),
    decreases i,
{
    if i == 0 {
        assert(s.skip(0) =~= s);
    } else {
        assert(!is_tapret_key(s[0].0, st));
        assert(forall|j: int|
            0 <= j < i - 1 ==> !is_tapret_key((#[trigger] s.drop_first()[j]).0, st));
        lemma_tapret_val_skip(s.drop_first(), st, i - 1);
        assert(s.drop_first().skip(i - 1) =~= s.skip(i));
    }
}

/// The content of one proprietary entry: prefix, subtype, key data, value.
pub open spec fn entry_view(e: (ProprietaryKey, Vec<u8>)) -> (Seq<u8>, u8, Seq<u8>, Seq<u8>) {
    (e.0.prefix@, e.0.subtype, e.0.key@, e.1@)
}

/// The contents of a proprietary entry list, in order.
pub open spec fn entries_view(s: Seq<(ProprietaryKey, Vec<u8>)>) -> Seq<
    (Seq<u8>, u8, Seq<u8>, Seq<u8>),
> {
    s.map_values(|e: (ProprietaryKey, Vec<u8>)| entry_view(e))
}

/// The contents of the entries that do not carry the tapret key of a
/// subtype, in order: what a tapret operation on that subtype must leave
/// untouched.
pub open spec fn others_view(s: Seq<(ProprietaryKey, Vec<u8>)>, st: u8) -> Seq<
    (Seq<u8>, u8, Seq<u8>, Seq<u8>),
>
    decreases s.len(),
{
    if s.len() == 0 {
        Seq::<(Seq<u8>, u8, Seq<u8>, Seq<u8>)>::empty()
    } else if is_tapret_key(s.last().0, st) {
        others_view(s.drop_last(), st)
    } else {
        others_view(s.drop_last(), st).push(entry_view(s.last()))
    }
}

/// A copy of a byte vector.
fn copy_bytes(v: &Vec<u8>) -> (r: Vec<u8>)
    ensures
        r@ == v@,
{
    let mut out: Vec<u8> = Vec::new();
    let mut i: usize = 0;
    while i < v.len()
        invariant
            0 <= i <= v@.len(),
            out@ == v@.take(i as int),
        decreases v@.len() - i,
    {
        out.push(v[i]);
        i = i + 1;
    }
    proof {
        assert(v@.take(v@.len() as int) =~= v@);
    }
    out
}

/// Whether two byte vectors hold the same bytes.
fn bytes_eq(a: &Vec<u8>, b: &Vec<u8>) -> (r: bool)
    ensures
        r == (a@ == b@),
{
    if a.len() != b.len() {
        return false;
    }
    let mut i: usize = 0;
    while i < a.len()
        invariant
            a@.len() == b@.len(),
            0 <= i <= a@.len(),
            forall|j: int| 0 <= j < i ==> a@[j] == b@[j],
        decreases a@.len() - i,
    {
        if a[i] != b[i] {
            return false;
        }
        i = i + 1;
    }
    proof {
        assert(a@ =~= b@);
    }
    true
}

/// The tapret vendor prefix, as bytes.
fn tapret_prefix() -> (r: Vec<u8>)
    ensures
        r@ == tapret_prefix_spec(),
{
    let mut v: Vec<u8> = Vec::new();
    v.push(0x54);
    v.push(0x41);
    v.push(0x50);
    v.push(0x52);
    v.push(0x45);
    v.push(0x54);
    proof {
        assert(v@ =~= tapret_prefix_spec());
    }
    v
}

/// Whether a proprietary key is the tapret key of a subtype.
fn is_tapret_key_exec(k: &ProprietaryKey, st: u8) -> (r: bool)
    ensures
        r == is_tapret_key(*k, st),
{
    let p = tapret_prefix();
    bytes_eq(&k.prefix, &p) && k.subtype == st && k.key.len() == 0
}

/// Static constructors of the tapret-related proprietary keys.
pub trait ProprietaryKeyTapret {
    /// Constructs the key marking an output that may host a commitment.
    fn tapret_host() -> (k: ProprietaryKey)
        ensures
            is_tapret_key(k, PSBT_OUT_TAPRET_HOST),
    ;

    /// Constructs the key holding the 32-byte commitment.
    fn tapret_commitment() -> (k: ProprietaryKey)
        ensures
            is_tapret_key(k, PSBT_OUT_TAPRET_COMMITMENT),
    ;

    /// Constructs the key holding the merkle proof of the commitment.
    fn tapret_proof() -> (k: ProprietaryKey)
        ensures
            is_tapret_key(k, PSBT_OUT_TAPRET_PROOF),
    ;
}

impl ProprietaryKeyTapret for ProprietaryKey {
    fn tapret_host() -> (k: ProprietaryKey) {
        ProprietaryKey { prefix: tapret_prefix(), subtype: PSBT_OUT_TAPRET_HOST, key: Vec::new() }
    }

    fn tapret_commitment() -> (k: ProprietaryKey) {
        ProprietaryKey {
            prefix: tapret_prefix(),
            subtype: PSBT_OUT_TAPRET_COMMITMENT,
            key: Vec::new(),
        }
    }

    fn tapret_proof() -> (k: ProprietaryKey) {
        ProprietaryKey { prefix: tapret_prefix(), subtype: PSBT_OUT_TAPRET_PROOF, key: Vec::new() }
    }
}

/// The proprietary key-value entries of one PSBT output.
#[derive(Debug, PartialEq, Eq)]
pub struct OutputMap {
    /// The proprietary entries, in order.
    pub proprietary: Vec<(ProprietaryKey, Vec<u8>)>,
}

/// Finds the first entry carrying the tapret key of a subtype.
fn find_tapret(entries: &Vec<(ProprietaryKey, Vec<u8>)>, st: u8) -> (r: Option<usize>)
    ensures
        r matches Some(i) ==> i < entries@.len() && tapret_val(entries@, st) == Some(
            entries@[i as int].1@,
        ),
        r is None ==> tapret_val(entries@, st) is None,
{
    let mut i: usize = 0;
    while i < entries.len()
        invariant
            0 <= i <= entries@.len(),
            forall|j: int| 0 <= j < i ==> !is_tapret_key((#[trigger] entries@[j]).0, st),
        decreases entries@.len() - i,
    {
        let e = &entries[i];
        if is_tapret_key_exec(&e.0, st) {
            proof {
                lemma_tapret_val_skip(entries@, st, i as int);
                assert(entries@.skip(i as int)[0] == entries@[i as int]);
            }
            return Some(i);
        }
        i = i + 1;
    }
    proof {
        lemma_tapret_val_skip(entries@, st, entries@.len() as int);
        assert(entries@.skip(entries@.len() as int)
            =~= Seq::<(ProprietaryKey, Vec<u8>)>::empty());
    }
    None
}

/// The entries without any tapret entry of one subtype; lookups of every
/// other subtype are unchanged.
fn without_tapret(entries: &Vec<(ProprietaryKey, Vec<u8>)>, st: u8) -> (out: Vec<
    (ProprietaryKey, Vec<u8>),
>)
    ensures
        tapret_val(out@, st) is None,
        forall|s2: u8| s2 != st ==> tapret_val(out@, s2) == tapret_val(entries@, s2),
        entries_view(out@) == others_view(entries@, st),
{
    let mut out: Vec<(ProprietaryKey, Vec<u8>)> = Vec::new();
    let mut i: usize = 0;
    while i < entries.len()
        invariant
            0 <= i <= entries@.len(),
            tapret_val(out@, st) is None,
            forall|s2: u8|
                s2 != st ==> tapret_val(out@, s2) == tapret_val(entries@.take(i as int), s2),
            entries_view(out@) == others_view(entries@.take(i as int), st),
        decreases entries@.len() - i,
    {
        let e = &entries[i];
        let keep = !is_tapret_key_exec(&e.0, st);
        let ghost oldout = out@;
        if keep {
            let copied = (
                ProprietaryKey {
                    prefix: copy_bytes(&e.0.prefix),
                    subtype: e.0.subtype,
                    key: copy_bytes(&e.0.key),
                },
                copy_bytes(&e.1),
            );
            proof {
                assert(copied.0.prefix@ == entries@[i as int].0.prefix@);
            }
            out.push(copied);
        }
        proof {
            assert(entries@.take(i as int + 1) =~= entries@.take(i as int).push(
                entries@[i as int],
            ));
            assert(entries@.take(i as int + 1).drop_last() =~= entries@.take(i as int));
            assert(entries@.take(i as int + 1).last() == entries@[i as int]);
            if keep {
                let copied = out@.last();
                assert(entries_view(out@) =~= entries_view(oldout).push(entry_view(copied)));
                assert(entry_view(copied) == entry_view(entries@[i as int]));
            } else {
                assert(entries_view(out@) == entries_view(oldout));
            }
            assert forall|s2: u8| s2 != st implies tapret_val(out@, s2) == tapret_val(
                entries@.take(i as int + 1),
                s2,
            ) by {
                lemma_tapret_val_push(entries@.take(i as int), s2, entries@[i as int]);
                if keep {
                    let copied = out@.last();
                    assert(out@ == oldout.push(copied));
                    lemma_tapret_val_push(oldout, s2, copied);
                    assert(is_tapret_key(copied.0, s2) == is_tapret_key(
                        entries@[i as int].0,
                        s2,
                    ));
                    assert(copied.1@ == entries@[i as int].1@);
                }
            }
            if keep {
                let copied = out@.last();
                lemma_tapret_val_push(oldout, st, copied);
                assert(!is_tapret_key(copied.0, st));
            }
        }
        i = i + 1;
    }
    proof {
        assert(entries@.take(entries@.len() as int) =~= entries@);
    }
    out
}

impl OutputMap {
    /// The value stored under the tapret key of a subtype, if any.
    pub open spec fn tapret_entry(self, st: u8) -> Option<Seq<u8>> {
        tapret_val(self.proprietary@, st)
    }

    /// An output map with no proprietary entries.
    pub fn new() -> (r: OutputMap)
        ensures
            forall|st: u8| r.tapret_entry(st) is None,
    {
        OutputMap { proprietary: Vec::new() }
    }

    /// Whether this output may host a tapret commitment: detected by the
    /// presence of the host key.
    pub fn can_host_tapret(&self) -> (r: bool)
        ensures
            r == (self.tapret_entry(PSBT_OUT_TAPRET_HOST) is Some),
    {
        find_tapret(&self.proprietary, PSBT_OUT_TAPRET_HOST).is_some()
    }

    /// Marks or unmarks this output as a possible tapret commitment host,
    /// returning whether it was marked before. Entries of other subtypes
    /// are untouched.
    pub fn set_can_host_tapret(&mut self, can_host_commitment: bool) -> (prev: bool)
        ensures
            prev == (old(self).tapret_entry(PSBT_OUT_TAPRET_HOST) is Some),
            can_host_commitment ==> final(self).tapret_entry(PSBT_OUT_TAPRET_HOST) == Some(
                Seq::<u8>::empty(),
            ),
            !can_host_commitment ==> final(self).tapret_entry(PSBT_OUT_TAPRET_HOST) is None,
            forall|st: u8|
                st != PSBT_OUT_TAPRET_HOST ==> final(self).tapret_entry(st) == old(
                    self,
                ).tapret_entry(st),
            can_host_commitment ==> entries_view(final(self).proprietary@) == others_view(
                old(self).proprietary@,
                PSBT_OUT_TAPRET_HOST,
            ).push(
                (
                    tapret_prefix_spec(),
                    PSBT_OUT_TAPRET_HOST,
                    Seq::<u8>::empty(),
                    Seq::<u8>::empty(),
                ),
            ),
            !can_host_commitment ==> entries_view(final(self).proprietary@) == others_view(
                old(self).proprietary@,
                PSBT_OUT_TAPRET_HOST,
            ),
    {
        let prev = self.can_host_tapret();
        let mut cleaned = without_tapret(&self.proprietary, PSBT_OUT_TAPRET_HOST);
        if can_host_commitment {
            let ghost pre = cleaned@;
            let entry = (ProprietaryKey::tapret_host(), Vec::<u8>::new());
            proof {
                assert(is_tapret_key(entry.0, PSBT_OUT_TAPRET_HOST));
            }
            cleaned.push(entry);
            proof {
                assert(entries_view(cleaned@) =~= entries_view(pre).push(
                    entry_view(cleaned@.last()),
                ));
                assert(cleaned@.last().0.key@ =~= Seq::<u8>::empty());
                assert(cleaned@.last().1@ =~= Seq::<u8>::empty());
                assert(entry_view(cleaned@.last()) == (
                    tapret_prefix_spec(),
                    PSBT_OUT_TAPRET_HOST,
                    Seq::<u8>::empty(),
                    Seq::<u8>::empty(),
                ));
                assert forall|st: u8|
                    tapret_val(cleaned@, st) == (if tapret_val(pre, st) is Some {
                        tapret_val(pre, st)
                    } else if is_tapret_key(cleaned@.last().0, st) {
                        Some(cleaned@.last().1@)
                    } else {
                        None
                    }) by {
                    lemma_tapret_val_push(pre, st, cleaned@.last());
                }
            }
        }
        self.proprietary = cleaned;
        prev
    }

    /// Whether this output holds a tapret commitment entry.
    pub fn has_tapret_commitment(&self) -> (r: bool)
        ensures
            r == (self.tapret_entry(PSBT_OUT_TAPRET_COMMITMENT) is Some),
    {
        find_tapret(&self.proprietary, PSBT_OUT_TAPRET_COMMITMENT).is_some()
    }

    /// The 32-byte tapret commitment, if present and well-sized; an absent
    /// or ill-sized commitment yields nothing rather than an error.
    pub fn tapret_commitment(&self) -> (r: Option<Vec<u8>>)
        ensures
            r matches Some(v) ==> self.tapret_entry(PSBT_OUT_TAPRET_COMMITMENT) == Some(v@)
                && v@.len() == 32,
            r is None ==> (self.tapret_entry(PSBT_OUT_TAPRET_COMMITMENT) is None
                || self.tapret_entry(PSBT_OUT_TAPRET_COMMITMENT).unwrap().len() != 32),
    {
        match find_tapret(&self.proprietary, PSBT_OUT_TAPRET_COMMITMENT) {
            Some(i) => {
                let v = &self.proprietary[i].1;
                if v.len() == 32 {
                    Some(copy_bytes(v))
                } else {
                    None
                }
            },
            None => None,
        }
    }

    /// Stores the 32-byte tapret commitment; fails, leaving the output
    /// unchanged, if one is already present.
    pub fn set_tapret_commitment(&mut self, commitment: &Vec<u8>) -> (r: Result<(), KeyError>)
        requires
            commitment@.len() == 32,
        ensures
            old(self).tapret_entry(PSBT_OUT_TAPRET_COMMITMENT) is Some ==> r == Err::<
                (),
                KeyError,
            >(KeyError::OutputAlreadyHasCommitment) && *final(self) == *old(self),
            old(self).tapret_entry(PSBT_OUT_TAPRET_COMMITMENT) is None ==> r == Ok::<
                (),
                KeyError,
            >(()) && final(self).tapret_entry(PSBT_OUT_TAPRET_COMMITMENT) == Some(commitment@)
                && forall|st: u8|
                st != PSBT_OUT_TAPRET_COMMITMENT ==> final(self).tapret_entry(st) == old(
                    self,
                ).tapret_entry(st),
            old(self).tapret_entry(PSBT_OUT_TAPRET_COMMITMENT) is None ==> entries_view(
                final(self).proprietary@,
            ) == entries_view(old(self).proprietary@).push(
                (
                    tapret_prefix_spec(),
                    PSBT_OUT_TAPRET_COMMITMENT,
                    Seq::<u8>::empty(),
                    commitment@,
                ),
            ),
    {
        if self.has_tapret_commitment() {
            return Err(KeyError::OutputAlreadyHasCommitment);
        }
        let ghost pre = self.proprietary@;
        let entry = (ProprietaryKey::tapret_commitment(), copy_bytes(commitment));
        self.proprietary.push(entry);
        proof {
            assert(entries_view(self.proprietary@) =~= entries_view(pre).push(
                entry_view(self.proprietary@.last()),
            ));
            assert(self.proprietary@.last().0.key@ =~= Seq::<u8>::empty());
            assert(self.proprietary@.last().1@ =~= commitment@);
            assert(entry_view(self.proprietary@.last()) == (
                tapret_prefix_spec(),
                PSBT_OUT_TAPRET_COMMITMENT,
                Seq::<u8>::empty(),
                commitment@,
            ));
            assert forall|st: u8|
                tapret_val(self.proprietary@, st) == (if tapret_val(pre, st) is Some {
                    tapret_val(pre, st)
                } else if is_tapret_key(self.proprietary@.last().0, st) {
                    Some(self.proprietary@.last().1@)
                } else {
                    None
                }) by {
                lemma_tapret_val_push(pre, st, self.proprietary@.last());
            }
        }
        Ok(())
    }

    /// Whether this output holds a tapret proof entry.
    pub fn has_tapret_proof(&self) -> (r: bool)
        ensures
            r == (self.tapret_entry(PSBT_OUT_TAPRET_PROOF) is Some),
    {
        find_tapret(&self.proprietary, PSBT_OUT_TAPRET_PROOF).is_some()
    }

    /// The tapret merkle proof, if present and shaped as a taptree branch:
    /// whole 32-byte nodes, at most 128 of them. An absent or ill-shaped
    /// proof yields nothing rather than an error.
    pub fn tapret_proof(&self) -> (r: Option<Vec<u8>>)
        ensures
            r matches Some(v) ==> self.tapret_entry(PSBT_OUT_TAPRET_PROOF) == Some(v@) && v@.len()
                % 32 == 0 && v@.len() <= 4096,
            r is None ==> (self.tapret_entry(PSBT_OUT_TAPRET_PROOF) is None || !(
            self.tapret_entry(PSBT_OUT_TAPRET_PROOF).unwrap().len() % 32 == 0
                && self.tapret_entry(PSBT_OUT_TAPRET_PROOF).unwrap().len() <= 4096)),
    {
        match find_tapret(&self.proprietary, PSBT_OUT_TAPRET_PROOF) {
            Some(i) => {
                let v = &self.proprietary[i].1;
                if v.len() % 32 == 0 && v.len() <= 4096 {
                    Some(copy_bytes(v))
                } else {
                    None
                }
            },
            None => None,
        }
    }
}

} // verus!
