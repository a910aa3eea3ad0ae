//! Batch UTXO resolution: derive a window of consecutive scriptPubKeys from
//! a descriptor template — holding the higher path segments fixed and
//! varying only the terminal index — then resolve their UTXO sets against
//! an external chain-data collaborator in one round-trip, all-or-nothing,
//! and hand the results back ordered ascending by index.

use vstd::prelude::*;

use crate::HARDENED_INDEX_BOUNDARY;
use crate::derive::{
    account_of, bip32_derive_ok, descriptor_script_spec, seg_raws, DeriveError,
    DescriptorTemplate, Script,
};
use crate::indexes::{seg_wf, SegmentIndexes, UnhardenedIndex};
use crate::path::DerivationSubpath;

verus! {

/// One unspent transaction output.
#[derive(Clone, Debug, PartialEq, Eq)]
pub struct Utxo {
    /// Id of the transaction holding the output.
    pub txid: Vec<u8>,
    /// Position of the output in that transaction.
    pub vout: u32,
    /// Value of the output, in satoshi.
    pub value: u64,
}

/// The set of unspent outputs of one script, as the collaborator hands it
/// back.
pub type UtxoSet = Vec<Utxo>;

/// Errors during batch UTXO resolution.
#[derive(Debug, PartialEq, Eq)]
pub enum UtxoResolverError {
    /// Deriving one of the scripts failed.
    Derivation(DeriveError),
    /// A window index would leave the unhardened range; carries the first
    /// logical index that crosses the boundary, computed without overflow.
    IndexOutOfRange(u64),
    /// The chain-data collaborator failed; its message, wrapped unaltered.
    Backend(String),
}

/// A collaborator that resolves the UTXO sets of a batch of scripts in one
/// round-trip. It fails with a message of its own, which the core wraps
/// without altering.
pub trait ResolveUtxo {
    /// Finds the UTXO set of every given script: on success, exactly one
    /// set per script, in the order of the scripts.
    fn resolve_utxo(&self, scripts: &Vec<Script>) -> (r: Result<Vec<UtxoSet>, String>)
        ensures
            r matches Ok(sets) ==> sets@.len() == scripts@.len(),
    ;
}

/// The terminal raw path of one window position: the fixed terminal steps,
/// then the varying index.
pub open spec fn window_raws(base: Seq<UnhardenedIndex>, idx: int) -> Seq<u32> {
    seg_raws(base).push(idx as u32)
}

/// Whether script derivation succeeds at one window position: the terminal
/// path fits the account key's depth budget and BIP32 public derivation
/// succeeds along it.
pub open spec fn window_derive_ok(
    d: DescriptorTemplate,
    base: Seq<UnhardenedIndex>,
    idx: int,
) -> bool {
    account_of(d).account_xpub@[4] + base.len() + 1 <= 255 && bip32_derive_ok(
        account_of(d).account_xpub@,
        window_raws(base, idx),
    )
}

/// Pairs each window index and script with the UTXO set the collaborator
/// returned at the same position.
fn zip_window(
    indices: Vec<UnhardenedIndex>,
    scripts: Vec<Script>,
    sets: Vec<UtxoSet>,
) -> (out: Vec<(UnhardenedIndex, Script, UtxoSet)>)
    requires
        indices@.len() == scripts@.len(),
        scripts@.len() == sets@.len(),
    ensures
        out@.len() == indices@.len(),
        forall|k: int|
            0 <= k < out@.len() ==> (#[trigger] out@[k]).0 == indices@[k] && out@[k].1
                == scripts@[k] && out@[k].2 == sets@[k],
{
    let ghost indices0 = indices@;
    let ghost scripts0 = scripts@;
    let ghost sets0 = sets@;
    let n = indices.len();
    let mut scripts_rest = scripts;
    let mut sets_rest = sets;
    let mut out: Vec<(UnhardenedIndex, Script, UtxoSet)> = Vec::new();
    let mut k: usize = 0;
    while k < n
        invariant
            n == indices0.len(),
            indices@ == indices0,
            scripts0.len() == n,
            sets0.len() == n,
            0 <= k <= n,
            scripts_rest@ == scripts0.skip(k as int),
            sets_rest@ == sets0.skip(k as int),
            out@.len() == k,
            forall|q: int|
                0 <= q < k ==> (#[trigger] out@[q]).0 == indices0[q] && out@[q].1 == scripts0[q]
                    && out@[q].2 == sets0[q],
        decreases n - k,
    {
        let idx = indices[k];
        let script = scripts_rest.remove(0);
        let set = sets_rest.remove(0);
        proof {
            assert(scripts0.skip(k as int)[0] == scripts0[k as int]);
            assert(sets0.skip(k as int)[0] == sets0[k as int]);
            assert(scripts0.skip(k as int).remove(0) =~= scripts0.skip(k as int + 1));
            assert(sets0.skip(k as int).remove(0) =~= sets0.skip(k as int + 1));
        }
        out.push((idx, script, set));
        k = k + 1;
    }
    out
}

/// Derives the scriptPubKeys of `count` consecutive indexes starting at
/// `from_index` — the fixed terminal steps of `terminal_base` stay, only the
/// last position varies — resolves all of them against the collaborator in
/// one call, and pairs every UTXO set back with its index and script,
/// ascending by index.
///
/// If any of the `count` additions would cross the hardened boundary the
/// whole call fails up front with the first offending logical index (always
/// the boundary itself, since the window is consecutive). Otherwise the
/// call fails with a `Derivation` error exactly when some window position
/// cannot derive, and with the collaborator's own message, wrapped
/// unaltered as `Backend`, when the single lookup call fails; a partial
/// result is never returned.
pub fn resolve_descriptor_utxo<R: ResolveUtxo>(
    resolver: &R,
    descriptor: &DescriptorTemplate,
    terminal_base: &Vec<UnhardenedIndex>,
    from_index: UnhardenedIndex,
    count: u32,
) -> (r: Result<Vec<(UnhardenedIndex, Script, UtxoSet)>, UtxoResolverError>)
    requires
        descriptor.wf(),
        forall|i: int| 0 <= i < terminal_base@.len() ==> seg_wf(#[trigger] terminal_base@[i]),
        seg_wf(from_index),
    ensures
        from_index.0 + count > HARDENED_INDEX_BOUNDARY ==> r == Err::<
            Vec<(UnhardenedIndex, Script, UtxoSet)>,
            UtxoResolverError,
        >(UtxoResolverError::IndexOutOfRange(HARDENED_INDEX_BOUNDARY as u64)),
        from_index.0 + count <= HARDENED_INDEX_BOUNDARY ==> !(r matches Err(
            UtxoResolverError::IndexOutOfRange(_),
        )),
        from_index.0 + count <= HARDENED_INDEX_BOUNDARY ==> ((r matches Err(
            UtxoResolverError::Derivation(_),
        )) <==> exists|j: int|
            0 <= j < count && !(#[trigger] window_derive_ok(
                *descriptor,
                terminal_base@,
                from_index.0 + j,
            ))),
        from_index.0 + count <= HARDENED_INDEX_BOUNDARY && (forall|j: int|
            0 <= j < count ==> #[trigger] window_derive_ok(
                *descriptor,
                terminal_base@,
                from_index.0 + j,
            )) ==> (r is Ok || r matches Err(UtxoResolverError::Backend(_))),
        r matches Ok(m) ==> {
            &&& m@.len() == count
            &&& forall|j: int|
                0 <= j < count ==> (#[trigger] m@[j]).0.0 == from_index.0 + j && seg_wf(
                    m@[j].0,
                )
            &&& forall|j: int|
                0 <= j < count ==> (#[trigger] m@[j]).1@ == descriptor_script_spec(
                    *descriptor,
                    window_raws(terminal_base@, from_index.0 + j),
                )
        },
{
    if (from_index.0 as u64) + (count as u64) > (HARDENED_INDEX_BOUNDARY as u64) {
        return Err(UtxoResolverError::IndexOutOfRange(HARDENED_INDEX_BOUNDARY as u64));
    }
    let mut scratch: Vec<UnhardenedIndex> = Vec::new();
    let mut i: usize = 0;
    while i < terminal_base.len()
        invariant
            0 <= i <= terminal_base@.len(),
            scratch@ == terminal_base@.take(i as int),
        decreases terminal_base@.len() - i,
    {
        scratch.push(terminal_base[i]);
        i = i + 1;
    }
    proof {
        assert(terminal_base@.take(terminal_base@.len() as int) =~= terminal_base@);
    }
    scratch.push(from_index);
    let mut path = match DerivationSubpath::from_segments(scratch) {
        Ok(p) => p,
        Err(_) => {
            proof {
                assert(false);
            }
            return Err(UtxoResolverError::IndexOutOfRange(0));
        },
    };
    let ghost base = terminal_base@;
    let mut indices: Vec<UnhardenedIndex> = Vec::new();
    let mut scripts: Vec<Script> = Vec::new();
    let mut j: u32 = 0;
    while j < count
        invariant
            base == terminal_base@,
            from_index.0 + count <= HARDENED_INDEX_BOUNDARY,
            descriptor.wf(),
            forall|k: int| 0 <= k < base.len() ==> seg_wf(#[trigger] base[k]),
            seg_wf(from_index),
            0 <= j <= count,
            path@.len() == base.len() + 1,
            forall|k: int| 0 <= k < base.len() ==> path@[k] == #[trigger] base[k],
            seg_wf(path@.last()),
            indices@.len() == j,
            scripts@.len() == j,
            forall|k: int|
                0 <= k < j ==> (#[trigger] indices@[k]).0 == from_index.0 + k && seg_wf(
                    indices@[k],
                ),
            forall|k: int|
                0 <= k < j ==> (#[trigger] scripts@[k])@ == descriptor_script_spec(
                    *descriptor,
                    window_raws(base, from_index.0 + k),
                ),
            forall|k: int|
                0 <= k < j ==> #[trigger] window_derive_ok(*descriptor, base, from_index.0 + k),
        decreases count - j,
    {
        let idx = UnhardenedIndex(from_index.0 + j);
        path.set_last(idx);
        proof {
            assert(path@.last() == idx);
            assert(forall|k: int| 0 <= k < base.len() ==> path@[k] == #[trigger] base[k]);
            assert forall|t: int| 0 <= t < path@.len() implies seg_wf(#[trigger] path@[t]) by {
                if t < base.len() {
                    assert(path@[t] == base[t]);
                } else {
                    assert(path@[t] == idx);
                }
            }
            assert(path.wf());
            assert(seg_raws(path@) =~= window_raws(base, from_index.0 + j));
        }
        let script = match descriptor.script_pubkey(&path) {
            Ok(s) => s,
            Err(e) => {
                proof {
                    assert(!window_derive_ok(*descriptor, base, from_index.0 + j));
                }
                return Err(UtxoResolverError::Derivation(e));
            },
        };
        proof {
            assert(window_derive_ok(*descriptor, base, from_index.0 + j));
        }
        indices.push(idx);
        scripts.push(script);
        j = j + 1;
    }
    let sets = match resolver.resolve_utxo(&scripts) {
        Ok(s) => s,
        Err(msg) => {
            return Err(UtxoResolverError::Backend(msg));
        },
    };
    let out = zip_window(indices, scripts, sets);
    Ok(out)
}

} // verus!
