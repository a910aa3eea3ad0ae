//! Derivation path segment indexes, split by kind: unhardened indexes live in
//! `[0, 2^31)`, hardened indexes in `[2^31, 2^32)`. The kind is a property of
//! the type; a value outside its declared range cannot be produced by any
//! constructor of this module.

use vstd::prelude::*;

use crate::HARDENED_INDEX_BOUNDARY;
use crate::decimal::{
    all_digits, dec_parse, dec_render, dec_rep, dec_val, is_digit, lemma_dec_rep_digits,
    lemma_dec_rep_val, lemma_dec_val_nonneg, lemma_digit_not_marker,
};

verus! {

/// Error raised when a value does not satisfy a structural invariant of this
/// library: an index in the wrong half of the 32-bit space, an empty
/// derivation subpath, or a malformed text or binary form.
#[derive(Clone, Copy, Debug, PartialEq, Eq, Structural)]
pub enum ValidationError {
    /// The raw value lies outside the range the index kind admits.
    IndexOutOfRange(u32),
    /// A derivation subpath must hold at least one segment.
    EmptySubpath,
    /// A path segment token is not a well-formed number with an optional
    /// hardened marker, or its value does not fit the segment kind.
    InvalidSegmentText,
    /// A derivation subpath text form must start with the `/` separator.
    InvalidPathFormat,
    /// A binary encoding is truncated, has trailing bytes, or holds a
    /// segment outside its declared range.
    InvalidEncoding,
}

/// Capability shared by all derivation path segment kinds: each wraps a raw
/// 32-bit value confined to its own half of the index space and offers
/// overflow-checked arithmetic that never crosses the kind boundary.
pub trait SegmentIndexes: Sized + Copy {
    /// The raw 32-bit value of this segment.
    spec fn raw(self) -> u32;

    /// Whether a (mathematical) value lies in the range this kind admits.
    spec fn kind_range(v: int) -> bool;

    /// Constructs a segment from a raw value; fails if and only if the value
    /// lies outside the range this kind admits.
    fn from_index(v: u32) -> (r: Result<Self, ValidationError>)
        ensures
            r is Ok <==> Self::kind_range(v as int),
            r matches Ok(s) ==> s.raw() == v,
            r is Err ==> r == Err::<Self, ValidationError>(ValidationError::IndexOutOfRange(v)),
    ;

    /// The raw numeric value of the segment.
    fn first_index(&self) -> (r: u32)
        ensures
            r == self.raw(),
    ;

    /// Adds an offset, failing (with `None`) if the result would leave the
    /// range of this segment kind, so in particular if it would cross the
    /// hardened boundary or overflow 32 bits.
    fn checked_add(&self, offset: u32) -> (r: Option<Self>)
        requires
            Self::kind_range(self.raw() as int),
        ensures
            r is Some <==> Self::kind_range(self.raw() as int + offset as int),
            r matches Some(s) ==> s.raw() as int == self.raw() as int + offset as int,
    ;
}

/// Whether a segment value satisfies the range invariant of its own kind.
pub open spec fn seg_wf<S: SegmentIndexes>(s: S) -> bool {
    S::kind_range(s.raw() as int)
}

/// An unhardened derivation index: a value in `[0, 2^31)`, deriving a child
/// key computable from the parent public key alone.
#[derive(Clone, Copy, Debug, PartialEq, Eq, Structural, Hash)]
pub struct UnhardenedIndex(pub u32);

/// A hardened derivation index: a value in `[2^31, 2^32)`, deriving a child
/// key that requires the parent private key.
#[derive(Clone, Copy, Debug, PartialEq, Eq, Structural, Hash)]
pub struct HardenedIndex(pub u32);

/// Segment kind used at the account level of a derivation path: always
/// hardened. Purely a usage-site distinction over the same capability.
pub type AccountStep = HardenedIndex;

/// Segment kind used at the terminal (address) level of a derivation path:
/// always unhardened, so watch-only derivation can proceed through it.
pub type TerminalStep = UnhardenedIndex;

impl SegmentIndexes for UnhardenedIndex {
    open spec fn raw(self) -> u32 {
        self.0
    }

    open spec fn kind_range(v: int) -> bool {
        0 <= v < HARDENED_INDEX_BOUNDARY
    }

    fn from_index(v: u32) -> (r: Result<Self, ValidationError>) {
        if v < HARDENED_INDEX_BOUNDARY {
            Ok(UnhardenedIndex(v))
        } else {
            Err(ValidationError::IndexOutOfRange(v))
        }
    }

    fn first_index(&self) -> (r: u32) {
        self.0
    }

    fn checked_add(&self, offset: u32) -> (r: Option<Self>) {
        match self.0.checked_add(offset) {
            Some(sum) if sum < HARDENED_INDEX_BOUNDARY => Some(UnhardenedIndex(sum)),
            _ => None,
        }
    }
}

impl SegmentIndexes for HardenedIndex {
    open spec fn raw(self) -> u32 {
        self.0
    }

    open spec fn kind_range(v: int) -> bool {
        HARDENED_INDEX_BOUNDARY <= v < 0x1_0000_0000
    }

    fn from_index(v: u32) -> (r: Result<Self, ValidationError>) {
        if v >= HARDENED_INDEX_BOUNDARY {
            Ok(HardenedIndex(v))
        } else {
            Err(ValidationError::IndexOutOfRange(v))
        }
    }

    fn first_index(&self) -> (r: u32) {
        self.0
    }

    fn checked_add(&self, offset: u32) -> (r: Option<Self>) {
        match self.0.checked_add(offset) {
            Some(sum) => Some(HardenedIndex(sum)),
            None => None,
        }
    }
}

impl UnhardenedIndex {
    /// The smallest unhardened index.
    pub fn zero() -> (r: Self)
        ensures
            r.raw() == 0,
    {
        UnhardenedIndex(0)
    }
}

impl HardenedIndex {
    /// The smallest hardened index.
    pub fn zero() -> (r: Self)
        ensures
            r.raw() == HARDENED_INDEX_BOUNDARY,
    {
        HardenedIndex(HARDENED_INDEX_BOUNDARY)
    }
}

/// Text form of a path segment: a decimal number, carrying a trailing `h`
/// marker for hardened segments, so that the kind of a segment can be read
/// back from its text. Parsing the rendered text gives the segment back.
pub trait SegmentText: SegmentIndexes {
    /// The canonical text of the segment.
    spec fn render_spec(self) -> Seq<char>;

    /// The segment a token denotes, if the token is well-formed for this
    /// segment kind.
    spec fn parse_spec(s: Seq<char>) -> Option<Self>;

    /// Parsing the canonical text of a well-formed segment gives the segment
    /// back; the text is non-empty and made of digits and the hardened
    /// marker, so in particular free of the path separator.
    proof fn lemma_text_round_trip(self)
        requires
            seg_wf(self),
        ensures
            Self::parse_spec(self.render_spec()) == Some(self),
            self.render_spec().len() >= 1,
            forall|i: int|
                0 <= i < self.render_spec().len() ==> is_digit(#[trigger] self.render_spec()[i])
                    || self.render_spec()[i] == 'h',
            forall|i: int|
                0 <= i < self.render_spec().len() ==> self.render_spec()[i] != '/',
    ;

    /// Whatever parses is a well-formed segment.
    proof fn lemma_parse_wf(s: Seq<char>)
        ensures
            Self::parse_spec(s) matches Some(x) ==> seg_wf(x),
    ;

    /// Renders the canonical text of the segment.
    fn render(&self) -> (out: Vec<char>)
        requires
            seg_wf(*self),
        ensures
            out@ == self.render_spec(),
    ;

    /// Parses one path token; fails, always with the segment-text error,
    /// exactly on the tokens that denote no segment of this kind.
    fn parse_token(token: &Vec<char>) -> (r: Result<Self, ValidationError>)
        ensures
            r matches Ok(x) ==> Self::parse_spec(token@) == Some(x),
            r is Err <==> Self::parse_spec(token@) is None,
            r is Err ==> r == Err::<Self, ValidationError>(ValidationError::InvalidSegmentText),
    ;
}

impl SegmentText for UnhardenedIndex {
    open spec fn render_spec(self) -> Seq<char> {
        dec_rep(self.0 as nat)
    }

    open spec fn parse_spec(s: Seq<char>) -> Option<Self> {
        if s.len() > 0 && all_digits(s) && dec_val(s) < HARDENED_INDEX_BOUNDARY {
            Some(UnhardenedIndex(dec_val(s) as u32))
        } else {
            None
        }
    }

    proof fn lemma_text_round_trip(self) {
        lemma_dec_rep_digits(self.0 as nat);
        lemma_dec_rep_val(self.0 as nat);
        assert forall|i: int|
            0 <= i < self.render_spec().len() implies is_digit(#[trigger] self.render_spec()[i])
            && self.render_spec()[i] != '/' by {
            assert(is_digit(self.render_spec()[i]));
            lemma_digit_not_marker(self.render_spec()[i]);
        }
        assert(Self::parse_spec(self.render_spec()) == Some(UnhardenedIndex(self.0)));
    }

    proof fn lemma_parse_wf(s: Seq<char>) {
        if s.len() > 0 && all_digits(s) && dec_val(s) < HARDENED_INDEX_BOUNDARY {
            lemma_dec_val_nonneg(s);
        }
    }

    fn render(&self) -> (out: Vec<char>) {
        dec_render(self.0)
    }

    fn parse_token(token: &Vec<char>) -> (r: Result<Self, ValidationError>) {
        match dec_parse(token) {
            Some(v) if v < HARDENED_INDEX_BOUNDARY => Ok(UnhardenedIndex(v)),
            _ => Err(ValidationError::InvalidSegmentText),
        }
    }
}

impl SegmentText for HardenedIndex {
    open spec fn render_spec(self) -> Seq<char> {
        dec_rep((self.0 - HARDENED_INDEX_BOUNDARY) as nat).push('h')
    }

    open spec fn parse_spec(s: Seq<char>) -> Option<Self> {
        if s.len() >= 2 && s.last() == 'h' && all_digits(s.drop_last()) && dec_val(s.drop_last())
            < HARDENED_INDEX_BOUNDARY {
            Some(HardenedIndex((dec_val(s.drop_last()) + HARDENED_INDEX_BOUNDARY) as u32))
        } else {
            None
        }
    }

    proof fn lemma_text_round_trip(self) {
        let body = dec_rep((self.0 - HARDENED_INDEX_BOUNDARY) as nat);
        lemma_dec_rep_digits((self.0 - HARDENED_INDEX_BOUNDARY) as nat);
        lemma_dec_rep_val((self.0 - HARDENED_INDEX_BOUNDARY) as nat);
        assert(self.render_spec().drop_last() =~= body);
        assert(self.render_spec().last() == 'h');
        assert forall|i: int|
            0 <= i < self.render_spec().len() implies (is_digit(
            #[trigger] self.render_spec()[i],
        ) || self.render_spec()[i] == 'h') && self.render_spec()[i] != '/' by {
            if i < body.len() {
                assert(self.render_spec()[i] == body[i]);
                assert(is_digit(body[i]));
                lemma_digit_not_marker(body[i]);
            } else {
                assert(self.render_spec()[i] == 'h');
            }
        }
        assert(Self::parse_spec(self.render_spec()) == Some(HardenedIndex(self.0)));
    }

    proof fn lemma_parse_wf(s: Seq<char>) {
        if s.len() >= 2 && s.last() == 'h' && all_digits(s.drop_last()) && dec_val(s.drop_last())
            < HARDENED_INDEX_BOUNDARY {
            lemma_dec_val_nonneg(s.drop_last());
        }
    }

    fn render(&self) -> (out: Vec<char>) {
        let mut out = dec_render(self.0 - HARDENED_INDEX_BOUNDARY);
        out.push('h');
        out
    }

    fn parse_token(token: &Vec<char>) -> (r: Result<Self, ValidationError>) {
        if token.len() < 2 {
            return Err(ValidationError::InvalidSegmentText);
        }
        if token[token.len() - 1] != 'h' {
            return Err(ValidationError::InvalidSegmentText);
        }
        let mut body: Vec<char> = Vec::new();
        let mut i: usize = 0;
        while i < token.len() - 1
            invariant
                token@.len() >= 2,
                0 <= i <= token@.len() - 1,
                body@ == token@.take(i as int),
            decreases token@.len() - 1 - i,
        {
            body.push(token[i]);
            i = i + 1;
        }
        proof {
            assert(token@.drop_last() =~= token@.take(token@.len() - 1));
        }
        match dec_parse(&body) {
            Some(v) if v < HARDENED_INDEX_BOUNDARY => Ok(
                HardenedIndex(v + HARDENED_INDEX_BOUNDARY),
            ),
            _ => Err(ValidationError::InvalidSegmentText),
        }
    }
}

/// One step of a full (mixed) derivation path. Mixing kinds in one sequence
/// takes this explicit, visible wrapping: homogeneous subpaths stay typed.
#[derive(Clone, Copy, Debug, PartialEq, Eq, Structural)]
pub enum PathStep {
    /// A hardened step.
    Hardened(HardenedIndex),
    /// An unhardened step.
    Unhardened(UnhardenedIndex),
}

/// Whether a full-path step carries a value in the range of its kind.
pub open spec fn path_step_wf(s: PathStep) -> bool {
    match s {
        PathStep::Hardened(h) => seg_wf(h),
        PathStep::Unhardened(u) => seg_wf(u),
    }
}

/// Constructs an unhardened index from a raw value; succeeds exactly on the
/// lower half `[0, 2^31)` of the 32-bit space.
pub fn unhardened(v: u32) -> (r: Result<UnhardenedIndex, ValidationError>)
    ensures
        r is Ok <==> v < HARDENED_INDEX_BOUNDARY,
        r matches Ok(i) ==> i.raw() == v,
        r is Err ==> r == Err::<UnhardenedIndex, ValidationError>(
            ValidationError::IndexOutOfRange(v),
        ),
{
    UnhardenedIndex::from_index(v)
}

/// Constructs a hardened index from a raw value; succeeds exactly on the
/// upper half `[2^31, 2^32)` of the 32-bit space.
pub fn hardened(v: u32) -> (r: Result<HardenedIndex, ValidationError>)
    ensures
        r is Ok <==> v >= HARDENED_INDEX_BOUNDARY,
        r matches Ok(i) ==> i.raw() == v,
        r is Err ==> r == Err::<HardenedIndex, ValidationError>(
            ValidationError::IndexOutOfRange(v),
        ),
{
    HardenedIndex::from_index(v)
}

} // verus!
