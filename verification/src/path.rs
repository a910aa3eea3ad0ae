//! Non-empty derivation subpaths: ordered sequences of one segment kind,
//! with a canonical `/`-separated text form and a canonical binary form.
//! Parsing the rendered text of a subpath reproduces an equal subpath, and
//! decoding re-validates every structural invariant instead of coercing.

use vstd::prelude::*;
use vstd::arithmetic::div_mod::{
    lemma_div_denominator, lemma_div_pos_is_pos, lemma_fundamental_div_mod, lemma_small_mod,
};
use vstd::arithmetic::mul::lemma_mul_inequality;

use crate::decimal::{append_path_char, is_digit, str_chars};
use crate::indexes::{
    seg_wf, HardenedIndex, PathStep, SegmentIndexes, SegmentText, UnhardenedIndex,
    ValidationError,
};

verus! {

/// A derivation path consisting of a single kind of segments, guaranteed to
/// hold at least one segment when well-formed. Useful for specifying concrete
/// derivation from an extended public key without the private key at hand.
#[derive(Debug, PartialEq, Eq)]
pub struct DerivationSubpath<Segment: SegmentIndexes>(Vec<Segment>);

impl<Segment: SegmentIndexes> View for DerivationSubpath<Segment> {
    type V = Seq<Segment>;

    closed spec fn view(&self) -> Seq<Segment> {
        self.0@
    }
}

impl<Segment: SegmentIndexes> DerivationSubpath<Segment> {
    /// Whether the subpath is well-formed: non-empty, with every segment in
    /// the range of its kind.
    pub open spec fn wf(self) -> bool {
        self@.len() >= 1 && forall|i: int| 0 <= i < self@.len() ==> seg_wf(#[trigger] self@[i])
    }

    /// Constructs a subpath from a sequence of segments; fails if and only
    /// if the sequence is empty. The non-emptiness invariant is relied on
    /// downstream: batch derivation always finds a terminal segment to vary.
    pub fn from_segments(segments: Vec<Segment>) -> (r: Result<Self, ValidationError>)
        requires
            forall|i: int| 0 <= i < segments@.len() ==> seg_wf(#[trigger] segments@[i]),
        ensures
            r is Ok <==> segments@.len() > 0,
            r matches Ok(p) ==> p@ == segments@ && p.wf(),
            r is Err ==> r == Err::<Self, ValidationError>(ValidationError::EmptySubpath),
    {
        if segments.len() == 0 {
            Err(ValidationError::EmptySubpath)
        } else {
            Ok(DerivationSubpath(segments))
        }
    }

    /// The number of segments.
    pub fn len(&self) -> (n: usize)
        ensures
            n == self@.len(),
    {
        self.0.len()
    }

    /// The segment at a position.
    pub fn segment(&self, i: usize) -> (s: Segment)
        requires
            i < self@.len(),
        ensures
            s == self@[i as int],
    {
        self.0[i]
    }

    /// The segments of the subpath, in order.
    pub fn segments(&self) -> (r: &Vec<Segment>)
        ensures
            r@ == self@,
    {
        &self.0
    }

    /// Appends one segment at the terminal end.
    pub fn push(&mut self, seg: Segment)
        ensures
            final(self)@ == old(self)@.push(seg),
    {
        self.0.push(seg);
    }

    /// Replaces the terminal segment.
    pub fn set_last(&mut self, seg: Segment)
        requires
            old(self)@.len() >= 1,
        ensures
            final(self)@ == old(self)@.update(old(self)@.len() - 1, seg),
    {
        let n = self.0.len();
        self.0.set(n - 1, seg);
    }

    /// A copy of the subpath.
    pub fn duplicate(&self) -> (r: Self)
        ensures
            r@ == self@,
    {
        let mut v: Vec<Segment> = Vec::new();
        let mut i: usize = 0;
        while i < self.0.len()
            invariant
                0 <= i <= self.0@.len(),
                v@ == self.0@.take(i as int),
            decreases self.0@.len() - i,
        {
            v.push(self.0[i]);
            i = i + 1;
        }
        proof {
            assert(self.0@.take(self.0@.len() as int) =~= self.0@);
        }
        DerivationSubpath(v)
    }
}

/// The canonical text of a sequence of segments: one `/`-preceded token per
/// segment.
pub open spec fn render_path_spec<S: SegmentText>(segs: Seq<S>) -> Seq<char>
    decreases segs.len(),
{
    if segs.len() == 0 {
        Seq::<char>::empty()
    } else {
        render_path_spec(segs.drop_last()) + seq!['/'] + segs.last().render_spec()
    }
}

/// Splits a text on the `/` separator: the result holds one (possibly
/// empty) token more than the text holds separators.
pub open spec fn split_tokens(t: Seq<char>) -> Seq<Seq<char>>
    decreases t.len(),
{
    if t.len() == 0 {
        seq![Seq::<char>::empty()]
    } else if t.last() == '/' {
        split_tokens(t.drop_last()).push(Seq::<char>::empty())
    } else {
        let r = split_tokens(t.drop_last());
        r.update(r.len() - 1, r.last().push(t.last()))
    }
}

/// The segments denoted by a sequence of tokens, if every token parses.
pub open spec fn parse_tokens_spec<S: SegmentText>(toks: Seq<Seq<char>>) -> Option<Seq<S>>
    decreases toks.len(),
{
    if toks.len() == 0 {
        Some(Seq::<S>::empty())
    } else {
        match (parse_tokens_spec::<S>(toks.drop_last()), S::parse_spec(toks.last())) {
            (Some(init), Some(seg)) => Some(init.push(seg)),
            _ => None,
        }
    }
}

/// The segments denoted by a text: it must start with the separator, and
/// every token after it must denote a segment of the expected kind.
pub open spec fn parse_path_spec<S: SegmentText>(t: Seq<char>) -> Option<Seq<S>> {
    if t.len() == 0 || t[0] != '/' {
        None
    } else {
        parse_tokens_spec::<S>(split_tokens(t.drop_first()))
    }
}

/// The canonical tokens of a sequence of segments.
pub open spec fn rendered_tokens<S: SegmentText>(segs: Seq<S>) -> Seq<Seq<char>> {
    segs.map_values(|s: S| s.render_spec())
}

/// Splitting always yields at least one token.
pub proof fn lemma_split_len(t: Seq<char>)
    ensures
        split_tokens(t).len() >= 1,
    decreases t.len(),
{
    if t.len() > 0 {
        lemma_split_len(t.drop_last());
    }
}

/// A separator-free text splits into itself alone.
proof fn lemma_split_noslash(r: Seq<char>)
    requires
        forall|i: int| 0 <= i < r.len() ==> r[i] != '/',
    ensures
        split_tokens(r) == seq![r],
    decreases r.len(),
{
    if r.len() == 0 {
        assert(split_tokens(r) =~~= seq![r]);
    } else {
        assert(forall|i: int| 0 <= i < r.drop_last().len() ==> r.drop_last()[i] != '/');
        lemma_split_noslash(r.drop_last());
        assert(r.last() != '/');
        let s = split_tokens(r.drop_last());
        assert(s.last() == r.drop_last());
        assert(r.drop_last().push(r.last()) =~= r);
        assert(split_tokens(r) =~~= seq![r]);
    }
}

/// Appending a separator and a separator-free token appends one token to the
/// split.
proof fn lemma_split_append(t: Seq<char>, r: Seq<char>)
    requires
        forall|i: int| 0 <= i < r.len() ==> r[i] != '/',
    ensures
        split_tokens(t + seq!['/'] + r) == split_tokens(t).push(r),
    decreases r.len(),
{
    let u = t + seq!['/'] + r;
    if r.len() == 0 {
        assert(u.last() == '/');
        assert(u.drop_last() =~= t);
        assert(r =~= Seq::<char>::empty());
        assert(split_tokens(u) =~~= split_tokens(t).push(r));
    } else {
        assert(u.last() == r.last());
        assert(r.last() != '/');
        assert(u.drop_last() =~= t + seq!['/'] + r.drop_last());
        assert(forall|i: int|
            0 <= i < r.drop_last().len() ==> r.drop_last()[i] != '/');
        lemma_split_append(t, r.drop_last());
        let s = split_tokens(u.drop_last());
        assert(s == split_tokens(t).push(r.drop_last()));
        lemma_split_len(t);
        assert(s.last() == r.drop_last());
        assert(r.drop_last().push(r.last()) =~= r);
        assert(split_tokens(u) =~~= split_tokens(t).push(r));
    }
}

/// A rendered non-empty path is non-empty and starts with the separator.
proof fn lemma_render_shape<S: SegmentText>(segs: Seq<S>)
    requires
        segs.len() >= 1,
        forall|i: int| 0 <= i < segs.len() ==> seg_wf(#[trigger] segs[i]),
    ensures
        render_path_spec(segs).len() >= 1,
        render_path_spec(segs)[0] == '/',
    decreases segs.len(),
{
    if segs.len() == 1 {
        assert(render_path_spec(segs.drop_last()) =~= Seq::<char>::empty());
        assert(render_path_spec(segs)[0] == '/');
    } else {
        assert(forall|i: int|
            0 <= i < segs.drop_last().len() ==> seg_wf(#[trigger] segs.drop_last()[i]));
        lemma_render_shape(segs.drop_last());
        assert(render_path_spec(segs)[0] == render_path_spec(segs.drop_last())[0]);
    }
}

/// Splitting the tail of a rendered path recovers the canonical tokens.
proof fn lemma_split_render<S: SegmentText>(segs: Seq<S>)
    requires
        segs.len() >= 1,
        forall|i: int| 0 <= i < segs.len() ==> seg_wf(#[trigger] segs[i]),
    ensures
        split_tokens(render_path_spec(segs).drop_first()) == rendered_tokens(segs),
    decreases segs.len(),
{
    let last = segs.last();
    last.lemma_text_round_trip();
    if segs.len() == 1 {
        assert(render_path_spec(segs).drop_first() =~= last.render_spec());
        lemma_split_noslash(last.render_spec());
        assert(seq![last.render_spec()] =~~= rendered_tokens(segs));
    } else {
        assert(forall|i: int|
            0 <= i < segs.drop_last().len() ==> seg_wf(#[trigger] segs.drop_last()[i]));
        lemma_render_shape(segs.drop_last());
        lemma_split_render(segs.drop_last());
        let t = render_path_spec(segs.drop_last()).drop_first();
        assert(render_path_spec(segs).drop_first() =~= t + seq!['/'] + last.render_spec());
        lemma_split_append(t, last.render_spec());
        assert(split_tokens(t).push(last.render_spec()) =~~= rendered_tokens(segs));
    }
}

/// Every canonical token of a well-formed path parses back to its segment.
proof fn lemma_parse_rendered<S: SegmentText>(segs: Seq<S>)
    requires
        forall|i: int| 0 <= i < segs.len() ==> seg_wf(#[trigger] segs[i]),
    ensures
        parse_tokens_spec::<S>(rendered_tokens(segs)) == Some(segs),
    decreases segs.len(),
{
    let toks = rendered_tokens(segs);
    if segs.len() == 0 {
        assert(toks =~= Seq::<Seq<char>>::empty());
        assert(Seq::<S>::empty() =~= segs);
    } else {
        assert(forall|i: int|
            0 <= i < segs.drop_last().len() ==> seg_wf(#[trigger] segs.drop_last()[i]));
        lemma_parse_rendered(segs.drop_last());
        assert(toks.drop_last() =~= rendered_tokens(segs.drop_last()));
        assert(toks.last() == segs.last().render_spec());
        segs.last().lemma_text_round_trip();
        assert(S::parse_spec(toks.last()) == Some(segs.last()));
        assert(segs.drop_last().push(segs.last()) =~= segs);
    }
}

/// Round-trip law: parsing the rendered text of any well-formed derivation
/// subpath (any non-empty sequence of well-formed same-kind segments)
/// reproduces an equal subpath.
pub proof fn lemma_path_text_round_trip<S: SegmentText>(p: DerivationSubpath<S>)
    requires
        p.wf(),
    ensures
        parse_path_spec::<S>(render_path_spec(p@)) == Some(p@),
{
    lemma_render_shape(p@);
    lemma_split_render(p@);
    lemma_parse_rendered(p@);
}

/// If any token prefix fails to parse, the whole sequence fails to parse.
proof fn lemma_parse_tokens_prefix_none<S: SegmentText>(toks: Seq<Seq<char>>, i: int)
    requires
        0 <= i <= toks.len(),
        parse_tokens_spec::<S>(toks.take(i)) is None,
    ensures
        parse_tokens_spec::<S>(toks) is None,
    decreases toks.len() - i,
{
    if i == toks.len() {
        assert(toks.take(i) =~= toks);
    } else {
        assert(toks.take(i + 1).drop_last() =~= toks.take(i));
        lemma_parse_tokens_prefix_none::<S>(toks, i + 1);
    }
}

/// The views of a sequence of character vectors.
pub open spec fn tok_views(ts: Seq<Vec<char>>) -> Seq<Seq<char>> {
    ts.map_values(|v: Vec<char>| v@)
}

impl<Segment: SegmentText> DerivationSubpath<Segment> {
    /// Renders the canonical text of the subpath: every segment, preceded by
    /// the `/` separator.
    pub fn to_text(&self) -> (out: String)
        requires
            self.wf(),
        ensures
            out@ == render_path_spec(self@),
    {
        let mut out = String::new();
        let mut i: usize = 0;
        while i < self.0.len()
            invariant
                self.wf(),
                0 <= i <= self.0@.len(),
                out@ == render_path_spec(self@.take(i as int)),
            decreases self.0@.len() - i,
        {
            let seg = self.0[i];
            proof {
                assert(seg_wf(seg));
                seg.lemma_text_round_trip();
            }
            append_path_char(&mut out, '/');
            proof {
                assert(out@ =~= render_path_spec(self@.take(i as int)) + seq!['/']);
            }
            let chars = seg.render();
            let mut j: usize = 0;
            while j < chars.len()
                invariant
                    0 <= j <= chars@.len(),
                    chars@ == seg.render_spec(),
                    forall|k: int|
                        0 <= k < chars@.len() ==> is_digit(#[trigger] chars@[k]) || chars@[k]
                            == 'h',
                    out@ == render_path_spec(self@.take(i as int)) + seq!['/'] + chars@.take(
                        j as int,
                    ),
                decreases chars@.len() - j,
            {
                append_path_char(&mut out, chars[j]);
                proof {
                    assert(chars@.take(j as int + 1) =~= chars@.take(j as int).push(
                        chars@[j as int],
                    ));
                    assert(out@ =~= render_path_spec(self@.take(i as int)) + seq!['/']
                        + chars@.take(j as int + 1));
                }
                j = j + 1;
            }
            proof {
                assert(chars@.take(chars@.len() as int) =~= chars@);
                assert(self@.take(i as int + 1).drop_last() =~= self@.take(i as int));
                assert(self@.take(i as int + 1).last() == self@[i as int]);
                assert(render_path_spec(self@.take(i as int + 1)) == render_path_spec(
                    self@.take(i as int),
                ) + seq!['/'] + seg.render_spec());
            }
            i = i + 1;
        }
        proof {
            assert(self@.take(self.0@.len() as int) =~= self@);
        }
        out
    }

    /// Parses a subpath from its text form. Succeeds exactly on the texts
    /// that denote a subpath of this segment kind: the text starts with the
    /// separator and every token after it is a well-formed segment. A text
    /// without the leading separator fails with the path-format error; one
    /// with a malformed token fails with the segment-text error.
    pub fn from_text(s: &str) -> (r: Result<Self, ValidationError>)
        ensures
            r matches Ok(p) ==> parse_path_spec::<Segment>(s@) == Some(p@) && p.wf(),
            r is Err <==> parse_path_spec::<Segment>(s@) is None,
            s@.len() == 0 || s@[0] != '/' ==> r == Err::<Self, ValidationError>(
                ValidationError::InvalidPathFormat,
            ),
            s@.len() > 0 && s@[0] == '/' && parse_path_spec::<Segment>(s@) is None ==> r
                == Err::<Self, ValidationError>(ValidationError::InvalidSegmentText),
    {
        let chars = str_chars(s);
        if chars.len() == 0 {
            return Err(ValidationError::InvalidPathFormat);
        }
        if chars[0] != '/' {
            return Err(ValidationError::InvalidPathFormat);
        }
        let mut tokens: Vec<Vec<char>> = Vec::new();
        tokens.push(Vec::new());
        proof {
            assert(chars@.subrange(1, 1) =~= Seq::<char>::empty());
            assert(tok_views(tokens@) =~~= split_tokens(chars@.subrange(1, 1)));
        }
        let mut i: usize = 1;
        while i < chars.len()
            invariant
                chars@ == s@,
                chars@.len() >= 1,
                chars@[0] == '/',
                1 <= i <= chars@.len(),
                tokens@.len() >= 1,
                tok_views(tokens@) == split_tokens(chars@.subrange(1, i as int)),
            decreases chars@.len() - i,
        {
            let c = chars[i];
            let ghost pre = chars@.subrange(1, i as int);
            let ghost cur = chars@.subrange(1, i as int + 1);
            proof {
                assert(cur.drop_last() =~= pre);
                assert(cur.last() == chars@[i as int]);
                lemma_split_len(pre);
            }
            if c == '/' {
                tokens.push(Vec::new());
                proof {
                    assert(split_tokens(cur) == split_tokens(pre).push(Seq::<char>::empty()));
                    assert(tok_views(tokens@) =~~= split_tokens(cur));
                }
            } else {
                let mut lastv = tokens.pop().unwrap();
                lastv.push(c);
                tokens.push(lastv);
                proof {
                    assert(tok_views(tokens@) =~~= split_tokens(cur));
                }
            }
            i = i + 1;
        }
        proof {
            assert(chars@.subrange(1, chars@.len() as int) =~= chars@.drop_first());
        }
        let ghost tvs = split_tokens(chars@.drop_first());
        let mut segs: Vec<Segment> = Vec::new();
        let mut j: usize = 0;
        while j < tokens.len()
            invariant
                s@.len() >= 1,
                s@[0] == '/',
                tok_views(tokens@) == tvs,
                0 <= j <= tokens@.len(),
                parse_tokens_spec::<Segment>(tvs.take(j as int)) == Some(segs@),
                segs@.len() == j,
                forall|k: int| 0 <= k < segs@.len() ==> seg_wf(#[trigger] segs@[k]),
                parse_path_spec::<Segment>(s@) == parse_tokens_spec::<Segment>(tvs),
            decreases tokens@.len() - j,
        {
            let tk = &tokens[j];
            proof {
                assert(tvs.take(j as int + 1).drop_last() =~= tvs.take(j as int));
                assert(tvs.take(j as int + 1).last() == tvs[j as int]);
                assert(tvs[j as int] == tokens@[j as int]@);
            }
            match Segment::parse_token(tk) {
                Ok(seg) => {
                    proof {
                        Segment::lemma_parse_wf(tvs[j as int]);
                    }
                    segs.push(seg);
                },
                Err(e) => {
                    proof {
                        lemma_parse_tokens_prefix_none::<Segment>(tvs, j as int + 1);
                    }
                    return Err(e);
                },
            }
            j = j + 1;
        }
        proof {
            assert(tvs.take(tokens@.len() as int) =~= tvs);
            lemma_split_len(chars@.drop_first());
        }
        Ok(DerivationSubpath(segs))
    }
}

/// Whether position `k` splits a full path into a hardened prefix and an
/// unhardened suffix.
pub open spec fn is_hn_split(s: Seq<PathStep>, k: int) -> bool {
    0 <= k <= s.len() && (forall|i: int| 0 <= i < k ==> (#[trigger] s[i]) is Hardened) && (
    forall|i: int| k <= i < s.len() ==> (#[trigger] s[i]) is Unhardened)
}

/// Splits a full (mixed) derivation path into its hardened prefix and its
/// unhardened suffix. Succeeds exactly when the path has that shape; the
/// split is where public-key-only derivation may legally begin, since only
/// unhardened steps can be derived without the private key.
pub fn hardened_normal_split(path: &Vec<PathStep>) -> (r: Option<
    (Vec<HardenedIndex>, Vec<UnhardenedIndex>),
>)
    ensures
        r is Some <==> exists|k: int| is_hn_split(path@, k),
        r matches Some(p) ==> {
            &&& p.0@.len() + p.1@.len() == path@.len()
            &&& is_hn_split(path@, p.0@.len() as int)
            &&& forall|i: int|
                0 <= i < p.0@.len() ==> path@[i] == PathStep::Hardened(#[trigger] p.0@[i])
            &&& forall|i: int|
                0 <= i < p.1@.len() ==> path@[p.0@.len() + i] == PathStep::Unhardened(
                    #[trigger] p.1@[i],
                )
        },
{
    let n = path.len();
    let mut k: usize = n;
    let mut i: usize = 0;
    while i < n
        invariant
            n == path@.len(),
            0 <= i <= n,
            k <= n,
            k < n ==> i == n,
            k == n ==> forall|j: int| 0 <= j < i ==> (#[trigger] path@[j]) is Hardened,
            k < n ==> (path@[k as int] is Unhardened && forall|j: int|
                0 <= j < k ==> (#[trigger] path@[j]) is Hardened),
        decreases n - i,
    {
        match path[i] {
            PathStep::Hardened(_) => {
                i = i + 1;
            },
            PathStep::Unhardened(_) => {
                k = i;
                i = n;
            },
        }
    }
    let mut h: Vec<HardenedIndex> = Vec::new();
    let mut j: usize = 0;
    while j < k
        invariant
            n == path@.len(),
            0 <= j <= k <= n,
            forall|m: int| 0 <= m < k ==> (#[trigger] path@[m]) is Hardened,
            h@.len() == j,
            forall|m: int| 0 <= m < j ==> path@[m] == PathStep::Hardened(#[trigger] h@[m]),
        decreases k - j,
    {
        match path[j] {
            PathStep::Hardened(x) => {
                h.push(x);
            },
            PathStep::Unhardened(_) => {
                proof {
                    assert(false);
                }
            },
        }
        j = j + 1;
    }
    let mut u: Vec<UnhardenedIndex> = Vec::new();
    let mut m: usize = k;
    while m < n
        invariant
            n == path@.len(),
            k <= m <= n,
            k < n ==> path@[k as int] is Unhardened,
            forall|q: int| 0 <= q < k ==> (#[trigger] path@[q]) is Hardened,
            u@.len() == m - k,
            forall|q: int|
                0 <= q < u@.len() ==> path@[k + q] == PathStep::Unhardened(#[trigger] u@[q]),
        decreases n - m,
    {
        match path[m] {
            PathStep::Unhardened(x) => {
                u.push(x);
            },
            PathStep::Hardened(_) => {
                proof {
                    assert forall|s: int| !is_hn_split(path@, s) by {
                        if is_hn_split(path@, s) {
                            if s <= m {
                                assert(path@[m as int] is Unhardened);
                            } else {
                                assert(path@[k as int] is Hardened);
                            }
                            assert(false);
                        }
                    }
                }
                return None;
            },
        }
        m = m + 1;
    }
    proof {
        assert forall|t: int| k <= t < n implies (#[trigger] path@[t]) is Unhardened by {
            assert(path@[k + (t - k)] == PathStep::Unhardened(u@[t - k]));
        }
        assert(is_hn_split(path@, k as int));
    }
    Some((h, u))
}

/// The little-endian bytes of a 32-bit value.
pub open spec fn u32_le_spec(v: u32) -> Seq<u8> {
    seq![
        (v % 256) as u8,
        ((v / 256) % 256) as u8,
        ((v / 65536) % 256) as u8,
        ((v / 16777216) % 256) as u8,
    ]
}

/// The value of four little-endian bytes.
pub open spec fn le_val(b0: u8, b1: u8, b2: u8, b3: u8) -> int {
    b0 + 256 * b1 + 65536 * b2 + 16777216 * b3
}

/// A 32-bit value survives the little-endian byte round trip.
proof fn lemma_u32_le_round_trip(v: u32)
    ensures
        le_val(u32_le_spec(v)[0], u32_le_spec(v)[1], u32_le_spec(v)[2], u32_le_spec(v)[3]) == v,
{
    let x = v as int;
    lemma_fundamental_div_mod(x, 256);
    lemma_fundamental_div_mod(x / 256, 256);
    lemma_div_denominator(x, 256, 256);
    lemma_fundamental_div_mod(x / 65536, 256);
    lemma_div_denominator(x, 65536, 256);
    lemma_fundamental_div_mod(x, 16777216);
    lemma_div_pos_is_pos(x, 16777216);
    if x / 16777216 >= 256 {
        lemma_mul_inequality(256, x / 16777216, 16777216);
        assert(false);
    }
    lemma_small_mod((x / 16777216) as nat, 256);
}

/// The canonical binary form of a sequence of segments: their count as a
/// 16-bit little-endian prefix, then each raw value as 32 little-endian bits.
pub open spec fn encode_segs_spec<S: SegmentIndexes>(segs: Seq<S>) -> Seq<u8>
    decreases segs.len(),
{
    if segs.len() == 0 {
        Seq::<u8>::empty()
    } else {
        encode_segs_spec(segs.drop_last()) + u32_le_spec(segs.last().raw())
    }
}

/// The canonical binary form of a subpath.
pub open spec fn encode_path_spec<S: SegmentIndexes>(segs: Seq<S>) -> Seq<u8> {
    seq![(segs.len() % 256) as u8, ((segs.len() / 256) % 256) as u8] + encode_segs_spec(segs)
}

/// The segment count a binary form declares.
pub open spec fn decode_len(b: Seq<u8>) -> int {
    b[0] + 256 * b[1]
}

/// The raw value of the segment at a position of a binary form.
pub open spec fn byte_group_val(b: Seq<u8>, i: int) -> int {
    le_val(b[2 + 4 * i], b[3 + 4 * i], b[4 + 4 * i], b[5 + 4 * i])
}

/// Whether a binary form decodes as a subpath of segment kind `S`: the
/// declared count is at least one, the length fits it exactly, and every
/// segment value lies in the range of the kind.
pub open spec fn decode_path_ok<S: SegmentIndexes>(b: Seq<u8>) -> bool {
    b.len() >= 2 && decode_len(b) >= 1 && b.len() == 2 + 4 * decode_len(b) && forall|i: int|
        0 <= i < decode_len(b) ==> S::kind_range(#[trigger] byte_group_val(b, i))
}

/// The raw segment values a binary form holds.
pub open spec fn decoded_raws(b: Seq<u8>) -> Seq<int> {
    Seq::new(decode_len(b) as nat, |i: int| byte_group_val(b, i))
}

/// The raw values of a sequence of segments.
pub open spec fn raw_vals<S: SegmentIndexes>(segs: Seq<S>) -> Seq<int> {
    segs.map_values(|s: S| s.raw() as int)
}

/// The binary form of the segments is four bytes per segment.
proof fn lemma_encode_segs_len<S: SegmentIndexes>(segs: Seq<S>)
    ensures
        encode_segs_spec(segs).len() == 4 * segs.len(),
    decreases segs.len(),
{
    if segs.len() > 0 {
        lemma_encode_segs_len(segs.drop_last());
    }
}

/// Each byte of the binary form of the segments comes from its own segment.
proof fn lemma_encode_segs_index<S: SegmentIndexes>(segs: Seq<S>, i: int, j: int)
    requires
        0 <= i < segs.len(),
        0 <= j < 4,
    ensures
        encode_segs_spec(segs)[4 * i + j] == u32_le_spec(segs[i].raw())[j],
    decreases segs.len(),
{
    lemma_encode_segs_len(segs);
    lemma_encode_segs_len(segs.drop_last());
    if i == segs.len() - 1 {
        assert(encode_segs_spec(segs)[4 * i + j] == u32_le_spec(segs.last().raw())[j]);
    } else {
        lemma_encode_segs_index(segs.drop_last(), i, j);
        assert(segs.drop_last()[i] == segs[i]);
    }
}

/// Round-trip law for the binary form: the encoding of any well-formed
/// subpath decodes, back to the same declared count and raw segment values.
pub proof fn lemma_path_codec_round_trip<S: SegmentIndexes>(p: DerivationSubpath<S>)
    requires
        p.wf(),
        p@.len() <= 65535,
    ensures
        decode_path_ok::<S>(encode_path_spec(p@)),
        decoded_raws(encode_path_spec(p@)) == raw_vals(p@),
{
    let b = encode_path_spec(p@);
    let n = p@.len() as int;
    lemma_encode_segs_len(p@);
    lemma_fundamental_div_mod(n, 256);
    lemma_div_pos_is_pos(n, 256);
    lemma_small_mod((n / 256) as nat, 256);
    assert(n % 256 < 256 && n / 256 < 256);
    assert(b[0] == (n % 256) as u8 && b[1] == ((n / 256) % 256) as u8);
    assert(decode_len(b) == n);
    assert forall|i: int| 0 <= i < n implies S::kind_range(#[trigger] byte_group_val(b, i))
        && byte_group_val(b, i) == p@[i].raw() by {
        assert(b[2 + 4 * i] == encode_segs_spec(p@)[4 * i + 0]);
        assert(b[3 + 4 * i] == encode_segs_spec(p@)[4 * i + 1]);
        assert(b[4 + 4 * i] == encode_segs_spec(p@)[4 * i + 2]);
        assert(b[5 + 4 * i] == encode_segs_spec(p@)[4 * i + 3]);
        lemma_encode_segs_index(p@, i, 0);
        lemma_encode_segs_index(p@, i, 1);
        lemma_encode_segs_index(p@, i, 2);
        lemma_encode_segs_index(p@, i, 3);
        lemma_u32_le_round_trip(p@[i].raw());
        assert(seg_wf(p@[i]));
    }
    assert(decoded_raws(b) =~= raw_vals(p@));
}

impl<Segment: SegmentIndexes> DerivationSubpath<Segment> {
    /// Encodes the subpath in its canonical binary form. The 16-bit count
    /// prefix caps the encodable length at 65535 segments.
    pub fn encode(&self) -> (out: Vec<u8>)
        requires
            self.wf(),
            self@.len() <= 65535,
        ensures
            out@ == encode_path_spec(self@),
    {
        let n = self.0.len();
        let mut out: Vec<u8> = Vec::new();
        out.push((n % 256) as u8);
        out.push(((n / 256) % 256) as u8);
        let ghost prefix = seq![
            (self@.len() % 256) as u8,
            ((self@.len() / 256) % 256) as u8,
        ];
        proof {
            assert(encode_segs_spec(self@.take(0)) =~= Seq::<u8>::empty());
            assert(out@ =~= prefix + encode_segs_spec(self@.take(0)));
        }
        let mut i: usize = 0;
        while i < n
            invariant
                n == self@.len(),
                self@ == self.0@,
                0 <= i <= n,
                prefix == seq![
                    (self@.len() % 256) as u8,
                    ((self@.len() / 256) % 256) as u8,
                ],
                out@ == prefix + encode_segs_spec(self@.take(i as int)),
            decreases n - i,
        {
            let v = self.0[i].first_index();
            out.push((v % 256) as u8);
            out.push(((v / 256) % 256) as u8);
            out.push(((v / 65536) % 256) as u8);
            out.push(((v / 16777216) % 256) as u8);
            proof {
                assert(self@.take(i as int + 1).drop_last() =~= self@.take(i as int));
                assert(self@.take(i as int + 1).last() == self@[i as int]);
                assert(out@ =~= prefix + (encode_segs_spec(self@.take(i as int)) + u32_le_spec(
                    v,
                )));
            }
            i = i + 1;
        }
        proof {
            assert(self@.take(n as int) =~= self@);
        }
        out
    }

    /// Decodes a subpath from its canonical binary form, re-validating the
    /// structural invariants: it fails, rather than coerces, on an empty
    /// path, a length mismatch, or a segment outside the range of its kind.
    pub fn decode(bytes: &Vec<u8>) -> (r: Result<Self, ValidationError>)
        ensures
            r matches Ok(p) ==> decode_path_ok::<Segment>(bytes@) && raw_vals(p@) == decoded_raws(
                bytes@,
            ) && p.wf(),
            r is Err <==> !decode_path_ok::<Segment>(bytes@),
    {
        if bytes.len() < 2 {
            return Err(ValidationError::InvalidEncoding);
        }
        let n: usize = bytes[0] as usize + 256 * (bytes[1] as usize);
        assert(n == decode_len(bytes@));
        if n == 0 {
            return Err(ValidationError::EmptySubpath);
        }
        if bytes.len() != 2 + 4 * n {
            return Err(ValidationError::InvalidEncoding);
        }
        let mut segs: Vec<Segment> = Vec::new();
        let mut i: usize = 0;
        while i < n
            invariant
                bytes@.len() == 2 + 4 * n,
                1 <= n <= 65535,
                n == decode_len(bytes@),
                0 <= i <= n,
                segs@.len() == i,
                forall|k: int|
                    0 <= k < i ==> seg_wf(#[trigger] segs@[k]) && segs@[k].raw() as int
                        == byte_group_val(bytes@, k),
            decreases n - i,
        {
            let off = 2 + 4 * i;
            let v: u32 = bytes[off] as u32 + 256 * (bytes[off + 1] as u32) + 65536 * (bytes[off
                + 2] as u32) + 16777216 * (bytes[off + 3] as u32);
            assert(v as int == byte_group_val(bytes@, i as int));
            match Segment::from_index(v) {
                Ok(seg) => {
                    segs.push(seg);
                },
                Err(_) => {
                    assert(!Segment::kind_range(byte_group_val(bytes@, i as int)));
                    return Err(ValidationError::InvalidEncoding);
                },
            }
            i = i + 1;
        }
        proof {
            assert forall|k: int|
                0 <= k < decode_len(bytes@) implies Segment::kind_range(
                #[trigger] byte_group_val(bytes@, k),
            ) by {
                assert(seg_wf(segs@[k]));
                assert(segs@[k].raw() as int == byte_group_val(bytes@, k));
            }
            assert(decode_path_ok::<Segment>(bytes@));
            assert(raw_vals(segs@) =~= decoded_raws(bytes@));
        }
        Ok(DerivationSubpath(segs))
    }
}

} // verus!
