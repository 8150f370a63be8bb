use vstd::prelude::*;
use vstd::string::{StrSliceExecFns, StringExecFns};
use crate::model::{
    Segment, SegView, SyllableIndex, UnderlyingIndex, get_seg_type, seg_type_spec, with_morph,
    with_syll,
};
use crate::syllable::{
    clear_spec, lemma_syllabify_preserves_content, seg_views, syllabify, syllabify_spec,
};

verus! {

/// The fixed seed every freshly constructed candidate's stream starts from.
pub const DEFAULT_SEED: u64 = 7777777;

#[verifier::external_type_specification]
#[verifier::external_body]
pub struct ExStdRng(rand::rngs::StdRng);

/// Relies on rand::SeedableRng::seed_from_u64: a generator determined by the
/// seed. The generator is opaque here, so nothing further is stated.
#[verifier::external_body]
fn rng_from_seed(seed: u64) -> rand::rngs::StdRng {
    <rand::rngs::StdRng as rand::SeedableRng>::seed_from_u64(seed)
}

/// Relies on rand::Rng::gen_range over `0..len`: a uniformly drawn index below
/// `len`. The range must be non-empty, or the call panics. Which index comes
/// back depends on the generator state, so only the bound is stated.
#[verifier::external_body]
fn rng_gen_index(rng: &mut rand::rngs::StdRng, len: usize) -> (r: usize)
    requires
        len > 0,
    ensures
        r < len,
{
    rand::Rng::gen_range(rng, 0..len)
}

/// Relies on StdRng::clone: a second generator. Its state is opaque here, so
/// nothing is stated about it.
#[verifier::external_body]
fn clone_rng(rng: &rand::rngs::StdRng) -> rand::rngs::StdRng {
    rng.clone()
}

/// The extended grapheme clusters of a character sequence.
pub uninterp spec fn graphemes_of(s: Seq<char>) -> Seq<Seq<char>>;

/// The concatenation of a sequence of grapheme clusters.
pub open spec fn flatten_chars(gs: Seq<Seq<char>>) -> Seq<char>
    decreases gs.len(),
{
    if gs.len() == 0 {
        Seq::empty()
    } else {
        gs[0] + flatten_chars(gs.drop_first())
    }
}

/// Relies on unicode_segmentation::UnicodeSegmentation::graphemes with
/// extended clusters: the clusters are non-empty substrings of the input that
/// concatenate back to the input, and depend on the characters alone.
#[verifier::external_body]
fn split_graphemes(s: &str) -> (r: Vec<String>)
    ensures
        r@.map(|i: int, g: String| g@) == graphemes_of(s@),
        flatten_chars(r@.map(|i: int, g: String| g@)) == s@,
        forall|i: int| 0 <= i < r@.len() ==> r@[i]@.len() > 0,
{
    unicode_segmentation::UnicodeSegmentation::graphemes(s, true)
        .map(|g| g.to_owned())
        .collect()
}

/// The tie-barred stop that opens the two-grapheme affricate pattern.
pub open spec fn is_tie_spec(g: Seq<char>) -> bool {
    g.len() == 2 && g[0] == 'd' && g[1] == '\u{361}'
}

/// The fricative that closes the two-grapheme affricate pattern.
pub open spec fn is_fric_spec(g: Seq<char>) -> bool {
    g.len() == 1 && g[0] == '\u{292}'
}

fn is_tie(g: &str) -> (r: bool)
    ensures
        r == is_tie_spec(g@),
{
    g.unicode_len() == 2 && g.get_char(0) == 'd' && g.get_char(1) == '\u{361}'
}

fn is_fric(g: &str) -> (r: bool)
    ensures
        r == is_fric_spec(g@),
{
    g.unicode_len() == 1 && g.get_char(0) == '\u{292}'
}

/// Two adjacent segments coalesced into one affricate segment: the graphemes
/// are concatenated and the first segment's tags are kept.
pub open spec fn merge2(a: SegView, b: SegView) -> SegView {
    SegView {
        grapheme: a.grapheme + b.grapheme,
        syllable_index: a.syllable_index,
        seg_type: a.seg_type,
        morpheme_index: a.morpheme_index,
    }
}

/// One left-to-right, non-overlapping coalescing pass: each adjacent pair
/// matching the affricate pattern becomes a single merged segment.
pub open spec fn merge_spec(s: Seq<SegView>) -> Seq<SegView>
    decreases s.len(),
{
    if s.len() == 0 {
        Seq::empty()
    } else if s.len() >= 2 && is_tie_spec(s[0].grapheme) && is_fric_spec(s[1].grapheme) {
        seq![merge2(s[0], s[1])] + merge_spec(s.skip(2))
    } else {
        seq![s[0]] + merge_spec(s.skip(1))
    }
}

/// The morpheme-position tags a fresh parse assigns: the first segment is
/// Initial (also in a one-segment form), the last is Final, the rest Interior.
pub open spec fn tag_morphemes_spec(s: Seq<SegView>) -> Seq<SegView> {
    Seq::new(
        s.len(),
        |i: int|
            with_morph(
                s[i],
                if i == 0 {
                    UnderlyingIndex::Initial
                } else if i == s.len() - 1 {
                    UnderlyingIndex::Final
                } else {
                    UnderlyingIndex::Interior
                },
            ),
    )
}

/// The segments a raw grapheme list starts from: each cluster classified,
/// every tag in its initial state.
pub open spec fn initial_segs(gs: Seq<Seq<char>>) -> Seq<SegView> {
    Seq::new(
        gs.len(),
        |i: int|
            SegView {
                grapheme: gs[i],
                syllable_index: SyllableIndex::Unassigned,
                seg_type: seg_type_spec(gs[i]),
                morpheme_index: UnderlyingIndex::Interior,
            },
    )
}

/// What parsing raw text yields: grapheme segmentation, classification,
/// affricate coalescing, morpheme-edge tagging, then syllabification.
pub open spec fn parse_spec(text: Seq<char>) -> Seq<SegView> {
    syllabify_spec(tag_morphemes_spec(merge_spec(initial_segs(graphemes_of(text)))))
}

/// The text a candidate serializes to: its graphemes concatenated in order.
pub open spec fn serialize_spec(s: Seq<SegView>) -> Seq<char>
    decreases s.len(),
{
    if s.len() == 0 {
        Seq::empty()
    } else {
        serialize_spec(s.drop_last()) + s.last().grapheme
    }
}

/// Well-formed: every segment carries at least one character.
pub open spec fn wf_segs(s: Seq<SegView>) -> bool {
    forall|i: int| 0 <= i < s.len() ==> s[i].grapheme.len() > 0
}

/// Serialization distributes over concatenation of segment sequences.
pub proof fn lemma_serialize_concat(a: Seq<SegView>, b: Seq<SegView>)
    ensures
        serialize_spec(a + b) == serialize_spec(a) + serialize_spec(b),
    decreases b.len(),
{
    if b.len() == 0 {
        assert(a + b =~~= a);
        assert(serialize_spec(b) =~~= Seq::<char>::empty());
        assert(serialize_spec(a) + serialize_spec(b) =~~= serialize_spec(a));
    } else {
        lemma_serialize_concat(a, b.drop_last());
        assert((a + b).drop_last() =~~= a + b.drop_last());
        assert((a + b).last() == b.last());
        assert(serialize_spec(a + b) == serialize_spec(a + b.drop_last()) + b.last().grapheme);
        assert(serialize_spec(b) == serialize_spec(b.drop_last()) + b.last().grapheme);
        assert(serialize_spec(a) + (serialize_spec(b.drop_last()) + b.last().grapheme)
            =~~= (serialize_spec(a) + serialize_spec(b.drop_last())) + b.last().grapheme);
    }
}

/// Serialization reads a sequence from the front as well.
pub proof fn lemma_serialize_head(s: Seq<SegView>)
    requires
        s.len() > 0,
    ensures
        serialize_spec(s) == s[0].grapheme + serialize_spec(s.skip(1)),
{
    assert(s =~~= seq![s[0]] + s.skip(1));
    lemma_serialize_concat(seq![s[0]], s.skip(1));
    assert(serialize_spec(seq![s[0]]) == serialize_spec(Seq::<SegView>::empty())
        + s[0].grapheme) by {
        assert(seq![s[0]].drop_last() =~~= Seq::<SegView>::empty());
    }
    assert(serialize_spec(seq![s[0]]) =~~= s[0].grapheme);
    assert(s[0].grapheme + serialize_spec(s.skip(1)) =~~= serialize_spec(seq![s[0]])
        + serialize_spec(s.skip(1)));
}

/// Coalescing affricate pairs never changes the serialized text.
pub proof fn lemma_serialize_merge(s: Seq<SegView>)
    ensures
        serialize_spec(merge_spec(s)) == serialize_spec(s),
    decreases s.len(),
{
    if s.len() == 0 {
    } else if s.len() >= 2 && is_tie_spec(s[0].grapheme) && is_fric_spec(s[1].grapheme) {
        lemma_serialize_merge(s.skip(2));
        lemma_serialize_head(merge_spec(s));
        assert(merge_spec(s).skip(1) =~~= merge_spec(s.skip(2)));
        lemma_serialize_head(s);
        lemma_serialize_head(s.skip(1));
        assert(s.skip(1)[0] == s[1]);
        assert(s.skip(1).skip(1) =~~= s.skip(2));
        assert(merge_spec(s)[0] == merge2(s[0], s[1]));
        assert(serialize_spec(merge_spec(s)) =~~= (s[0].grapheme + s[1].grapheme)
            + serialize_spec(s.skip(2)));
        assert((s[0].grapheme + s[1].grapheme) + serialize_spec(s.skip(2)) =~~= s[0].grapheme + (
        s[1].grapheme + serialize_spec(s.skip(2))));
    } else {
        lemma_serialize_merge(s.skip(1));
        lemma_serialize_head(merge_spec(s));
        assert(merge_spec(s).skip(1) =~~= merge_spec(s.skip(1)));
        assert(merge_spec(s)[0] == s[0]);
        lemma_serialize_head(s);
    }
}

/// Serialization depends on the graphemes alone.
pub proof fn lemma_serialize_same_graphemes(a: Seq<SegView>, b: Seq<SegView>)
    requires
        a.len() == b.len(),
        forall|i: int| 0 <= i < a.len() ==> a[i].grapheme == b[i].grapheme,
    ensures
        serialize_spec(a) == serialize_spec(b),
    decreases a.len(),
{
    if a.len() > 0 {
        assert(forall|i: int|
            0 <= i < a.len() - 1 ==> a.drop_last()[i].grapheme == b.drop_last()[i].grapheme);
        lemma_serialize_same_graphemes(a.drop_last(), b.drop_last());
    }
}

/// Serializing the segments a grapheme list starts from rebuilds exactly the
/// concatenation of the clusters.
pub proof fn lemma_serialize_initial(gs: Seq<Seq<char>>)
    ensures
        serialize_spec(initial_segs(gs)) == flatten_chars(gs),
    decreases gs.len(),
{
    if gs.len() == 0 {
    } else {
        lemma_serialize_initial(gs.drop_first());
        lemma_serialize_head(initial_segs(gs));
        assert(initial_segs(gs).skip(1) =~~= initial_segs(gs.drop_first()));
        assert(initial_segs(gs)[0].grapheme == gs[0]);
    }
}

/// Every order-preserving subsequence of the segments, by subsets of the
/// index set: the empty subset first, the full subset last.
pub open spec fn subseqs_of(s: Seq<SegView>) -> Seq<Seq<SegView>>
    decreases s.len(),
{
    if s.len() == 0 {
        seq![Seq::<SegView>::empty()]
    } else {
        let rest = subseqs_of(s.drop_last());
        rest + rest.map(|i: int, t: Seq<SegView>| t.push(s.last()))
    }
}

/// Two to the n-th power.
pub open spec fn pow2(n: nat) -> nat
    decreases n,
{
    if n == 0 {
        1
    } else {
        2 * pow2((n - 1) as nat)
    }
}

/// A sequence of n segments has exactly two-to-the-n subsequences.
pub proof fn lemma_subseqs_count(s: Seq<SegView>)
    ensures
        subseqs_of(s).len() == pow2(s.len()),
    decreases s.len(),
{
    if s.len() > 0 {
        lemma_subseqs_count(s.drop_last());
    }
}

/// Mapping a push through the segment-view map.
pub proof fn lemma_seg_views_push(s: Seq<Segment>, x: Segment)
    ensures
        seg_views(s.push(x)) =~~= seg_views(s).push(x@),
{
    assert forall|j: int| 0 <= j < s.len() + 1 implies seg_views(s.push(x))[j] =~~= seg_views(
        s,
    ).push(x@)[j] by {
        assert(seg_views(s.push(x))[j] == s.push(x)[j]@);
        if j < s.len() {
            assert(s.push(x)[j] == s[j]);
            assert(seg_views(s)[j] == s[j]@);
        }
    }
}

/// Mapping a removal through the segment-view map.
pub proof fn lemma_seg_views_remove(s: Seq<Segment>, i: int)
    requires
        0 <= i < s.len(),
    ensures
        seg_views(s.remove(i)) =~~= seg_views(s).remove(i),
{
    assert forall|j: int| 0 <= j < s.len() - 1 implies seg_views(s.remove(i))[j] =~~= seg_views(
        s,
    ).remove(i)[j] by {
        assert(seg_views(s.remove(i))[j] == s.remove(i)[j]@);
        if j < i {
            assert(s.remove(i)[j] == s[j]);
        } else {
            assert(s.remove(i)[j] == s[j + 1]);
        }
    }
}

/// Coalescing keeps every grapheme non-empty.
pub proof fn lemma_merge_wf(s: Seq<SegView>)
    requires
        wf_segs(s),
    ensures
        wf_segs(merge_spec(s)),
    decreases s.len(),
{
    if s.len() == 0 {
    } else if s.len() >= 2 && is_tie_spec(s[0].grapheme) && is_fric_spec(s[1].grapheme) {
        assert(wf_segs(s.skip(2))) by {
            assert(forall|i: int| 0 <= i < s.skip(2).len() ==> s.skip(2)[i] == s[i + 2]);
        }
        lemma_merge_wf(s.skip(2));
        assert forall|i: int| 0 <= i < merge_spec(s).len() implies merge_spec(
            s,
        )[i].grapheme.len() > 0 by {
            if i > 0 {
                assert(merge_spec(s)[i] == merge_spec(s.skip(2))[i - 1]);
            }
        }
    } else {
        assert(wf_segs(s.skip(1))) by {
            assert(forall|i: int| 0 <= i < s.skip(1).len() ==> s.skip(1)[i] == s[i + 1]);
        }
        lemma_merge_wf(s.skip(1));
        assert forall|i: int| 0 <= i < merge_spec(s).len() implies merge_spec(
            s,
        )[i].grapheme.len() > 0 by {
            if i > 0 {
                assert(merge_spec(s)[i] == merge_spec(s.skip(1))[i - 1]);
            }
        }
    }
}

/// Every subsequence of a well-formed segment sequence is well-formed.
pub proof fn lemma_subseqs_wf(s: Seq<SegView>)
    requires
        wf_segs(s),
    ensures
        forall|j: int| 0 <= j < subseqs_of(s).len() ==> wf_segs(#[trigger] subseqs_of(s)[j]),
    decreases s.len(),
{
    if s.len() == 0 {
        assert(wf_segs(subseqs_of(s)[0]));
    } else {
        let rest = subseqs_of(s.drop_last());
        assert(wf_segs(s.drop_last())) by {
            assert(forall|i: int| 0 <= i < s.len() - 1 ==> s.drop_last()[i] == s[i]);
        }
        lemma_subseqs_wf(s.drop_last());
        assert forall|j: int| 0 <= j < subseqs_of(s).len() implies wf_segs(
            #[trigger] subseqs_of(s)[j],
        ) by {
            if j < rest.len() {
                assert(subseqs_of(s)[j] == rest[j]);
            } else {
                let t = rest[j - rest.len()];
                assert(subseqs_of(s)[j] == t.push(s.last()));
                assert(wf_segs(t));
                assert forall|i: int| 0 <= i < t.push(s.last()).len() implies t.push(
                    s.last(),
                )[i].grapheme.len() > 0 by {
                    if i < t.len() {
                        assert(t.push(s.last())[i] == t[i]);
                    }
                }
            }
        }
    }
}

/// Clone a segment vector; the clone models identically.
fn clone_segments(v: &Vec<Segment>) -> (r: Vec<Segment>)
    ensures
        r@.len() == v@.len(),
        seg_views(r@) =~~= seg_views(v@),
{
    let mut out: Vec<Segment> = Vec::new();
    let mut i: usize = 0;
    while i < v.len()
        invariant
            i <= v.len(),
            out@.len() == i,
            forall|j: int| #![trigger out@[j]] 0 <= j < i ==> out@[j]@ =~~= v@[j]@,
        decreases v.len() - i,
    {
        out.push(v[i].clone());
        i += 1;
    }
    proof {
        assert forall|j: int| 0 <= j < out@.len() implies seg_views(out@)[j] =~~= seg_views(
            v@,
        )[j] by {
            assert(seg_views(out@)[j] == out@[j]@);
            assert(seg_views(v@)[j] == v@[j]@);
        }
    }
    out
}

/// Reset every syllable tag of a segment vector to Unassigned.
fn clear_form(v: Vec<Segment>) -> (r: Vec<Segment>)
    ensures
        seg_views(r@) == clear_spec(seg_views(v@)),
{
    let mut out: Vec<Segment> = Vec::new();
    let mut i: usize = 0;
    while i < v.len()
        invariant
            i <= v.len(),
            out@.len() == i,
            forall|j: int|
                #![trigger out@[j]]
                0 <= j < i ==> out@[j]@ =~~= clear_spec(seg_views(v@))[j],
        decreases v.len() - i,
    {
        out.push(v[i].morph_type(SyllableIndex::Unassigned));
        i += 1;
    }
    proof {
        let cs = clear_spec(seg_views(v@));
        assert forall|j: int| 0 <= j < out@.len() implies seg_views(out@)[j] =~~= cs[j] by {
            assert(seg_views(out@)[j] == out@[j]@);
        }
        assert(seg_views(out@) =~~= cs);
    }
    out
}

/// Coalesce each adjacent affricate pair into a single segment, left to right.
fn merge_affricates(v: Vec<Segment>) -> (r: Vec<Segment>)
    ensures
        seg_views(r@) == merge_spec(seg_views(v@)),
{
    let sv = Ghost(seg_views(v@));
    let mut out: Vec<Segment> = Vec::new();
    let mut i: usize = 0;
    proof {
        assert(sv@.skip(0) =~~= sv@);
        assert(seg_views(out@) =~~= Seq::<SegView>::empty());
        assert(seg_views(out@) + merge_spec(sv@.skip(0)) =~~= merge_spec(sv@));
    }
    while i < v.len()
        invariant
            i <= v.len(),
            sv@ == seg_views(v@),
            merge_spec(sv@) =~~= seg_views(out@) + merge_spec(sv@.skip(i as int)),
        decreases v.len() - i,
    {
        let ghost prev = out@;
        let ghost rest = sv@.skip(i as int);
        proof {
            assert(rest[0] =~~= sv@[i as int]);
            assert(sv@[i as int] == v@[i as int]@);
        }
        if i + 1 < v.len() && is_tie(v[i].grapheme.as_str()) && is_fric(v[i + 1].grapheme.as_str()) {
            let mut g = v[i].grapheme.clone();
            g.append(v[i + 1].grapheme.as_str());
            out.push(
                Segment {
                    grapheme: g,
                    syllable_index: v[i].syllable_index,
                    seg_type: v[i].seg_type,
                    morpheme_index: v[i].morpheme_index,
                },
            );
            proof {
                assert(rest[1] =~~= sv@[i + 1]);
                assert(sv@[i + 1] == v@[i + 1]@);
                assert(out@ == prev.push(out@.last()));
                assert(out@.last()@ =~~= merge2(rest[0], rest[1]));
                lemma_seg_views_push(prev, out@.last());
                assert(merge_spec(rest) =~~= seq![merge2(rest[0], rest[1])] + merge_spec(
                    rest.skip(2),
                ));
                assert(rest.skip(2) =~~= sv@.skip(i + 2));
                assert(seg_views(out@) =~~= seg_views(prev).push(merge2(rest[0], rest[1])));
                assert(seg_views(prev).push(merge2(rest[0], rest[1])) + merge_spec(
                    sv@.skip(i + 2),
                ) =~~= seg_views(prev) + (seq![merge2(rest[0], rest[1])] + merge_spec(
                    sv@.skip(i + 2),
                )));
                assert(merge_spec(sv@) =~~= seg_views(out@) + merge_spec(sv@.skip(i + 2)));
            }
            i += 2;
        } else {
            out.push(v[i].clone());
            proof {
                assert(out@ == prev.push(out@.last()));
                assert(out@.last()@ =~~= rest[0]);
                lemma_seg_views_push(prev, out@.last());
                assert(!(rest.len() >= 2 && is_tie_spec(rest[0].grapheme) && is_fric_spec(
                    rest[1].grapheme,
                ))) by {
                    if rest.len() >= 2 {
                        assert(rest[1] =~~= sv@[i + 1]);
                        assert(sv@[i + 1] == v@[i + 1]@);
                    }
                }
                assert(merge_spec(rest) =~~= seq![rest[0]] + merge_spec(rest.skip(1)));
                assert(rest.skip(1) =~~= sv@.skip(i + 1));
                assert(seg_views(out@) =~~= seg_views(prev).push(rest[0]));
                assert(seg_views(prev).push(rest[0]) + merge_spec(sv@.skip(i + 1)) =~~= seg_views(
                    prev,
                ) + (seq![rest[0]] + merge_spec(sv@.skip(i + 1))));
                assert(merge_spec(sv@) =~~= seg_views(out@) + merge_spec(sv@.skip(i + 1)));
            }
            i += 1;
        }
    }
    proof {
        assert(sv@.skip(i as int) =~~= Seq::<SegView>::empty());
        assert(merge_spec(Seq::<SegView>::empty()) =~~= Seq::<SegView>::empty());
        assert(seg_views(out@) + Seq::<SegView>::empty() =~~= seg_views(out@));
        assert(seg_views(out@) =~~= merge_spec(sv@));
    }
    out
}

/// Assign each segment its morpheme-position tag by position.
fn tag_edges(v: Vec<Segment>) -> (r: Vec<Segment>)
    ensures
        seg_views(r@) == tag_morphemes_spec(seg_views(v@)),
{
    let mut out: Vec<Segment> = Vec::new();
    let mut i: usize = 0;
    while i < v.len()
        invariant
            i <= v.len(),
            out@.len() == i,
            forall|j: int|
                #![trigger out@[j]]
                0 <= j < i ==> out@[j]@ =~~= tag_morphemes_spec(seg_views(v@))[j],
        decreases v.len() - i,
    {
        let pos = if i == 0 {
            UnderlyingIndex::Initial
        } else if i + 1 == v.len() {
            UnderlyingIndex::Final
        } else {
            UnderlyingIndex::Interior
        };
        let seg = &v[i];
        out.push(
            Segment {
                grapheme: seg.grapheme.clone(),
                syllable_index: seg.syllable_index,
                seg_type: seg.seg_type,
                morpheme_index: pos,
            },
        );
        i += 1;
    }
    proof {
        let ts = tag_morphemes_spec(seg_views(v@));
        assert forall|j: int| 0 <= j < out@.len() implies seg_views(out@)[j] =~~= ts[j] by {
            assert(seg_views(out@)[j] == out@[j]@);
        }
        assert(seg_views(out@) =~~= ts);
    }
    out
}

/// An ordered sequence of segments together with an owned pseudorandom
/// stream. Candidates are created by parsing raw text; every transform
/// returns a new value.
#[derive(Debug)]
pub struct SyllabifiedCandidate {
    pub(crate) form: Vec<Segment>,
    pub(crate) rng: rand::rngs::StdRng,
}

impl View for SyllabifiedCandidate {
    type V = Seq<SegView>;

    closed spec fn view(&self) -> Seq<SegView> {
        seg_views(self.form@)
    }
}

/// What a candidate models is exactly the view of its segment vector.
pub(crate) proof fn lemma_view_is_form(c: &SyllabifiedCandidate)
    ensures
        c@ == seg_views(c.form@),
{
}

impl SyllabifiedCandidate {
    /// Well-formed: every segment carries at least one character.
    pub open spec fn wf(&self) -> bool {
        wf_segs(self@)
    }

    /// Parse raw text: split into extended grapheme clusters, classify each,
    /// coalesce affricate pairs, tag morpheme edges, and syllabify. Total:
    /// any text, the empty string included, yields a candidate, and the
    /// candidate serializes back to exactly the text it was parsed from.
    pub fn from_text(text: &str) -> (r: SyllabifiedCandidate)
        ensures
            r@ == parse_spec(text@),
            serialize_spec(r@) == text@,
            r.wf(),
    {
        let gs = split_graphemes(text);
        let ghost gviews = graphemes_of(text@);
        let mut segs: Vec<Segment> = Vec::new();
        let mut i: usize = 0;
        while i < gs.len()
            invariant
                i <= gs.len(),
                gs@.map(|k: int, g: String| g@) == gviews,
                segs@.len() == i,
                forall|j: int|
                    #![trigger segs@[j]]
                    0 <= j < i ==> segs@[j]@ =~~= initial_segs(gviews)[j],
            decreases gs.len() - i,
        {
            let g = gs[i].clone();
            let t = get_seg_type(g.as_str());
            proof {
                assert(gviews[i as int] == gs@.map(|k: int, g2: String| g2@)[i as int]);
                assert(gviews[i as int] == gs@[i as int]@);
            }
            segs.push(
                Segment {
                    grapheme: g,
                    syllable_index: SyllableIndex::Unassigned,
                    seg_type: t,
                    morpheme_index: UnderlyingIndex::Interior,
                },
            );
            i += 1;
        }
        proof {
            assert(gs@.map(|k: int, g: String| g@).len() == gs@.len());
            assert forall|j: int| 0 <= j < segs@.len() implies seg_views(segs@)[j] =~~= initial_segs(
                gviews,
            )[j] by {
                assert(seg_views(segs@)[j] == segs@[j]@);
            }
            assert(seg_views(segs@) =~~= initial_segs(gviews));
        }
        let merged = merge_affricates(segs);
        let tagged = tag_edges(merged);
        let form = syllabify(tagged);
        proof {
            assert(wf_segs(initial_segs(gviews))) by {
                assert(forall|j: int|
                    0 <= j < initial_segs(gviews).len() ==> initial_segs(gviews)[j].grapheme
                        == gviews[j]);
            }
            lemma_merge_wf(initial_segs(gviews));
            let ms = merge_spec(initial_segs(gviews));
            let ts = tag_morphemes_spec(ms);
            assert(wf_segs(ts)) by {
                assert(forall|j: int| 0 <= j < ts.len() ==> ts[j].grapheme == ms[j].grapheme);
            }
            lemma_syllabify_preserves_content(ts);
            assert(wf_segs(syllabify_spec(ts)));
            lemma_serialize_initial(gviews);
            lemma_serialize_merge(initial_segs(gviews));
            assert(forall|j: int| 0 <= j < ts.len() ==> ts[j].grapheme == ms[j].grapheme);
            lemma_serialize_same_graphemes(ts, ms);
            lemma_serialize_same_graphemes(syllabify_spec(ts), ts);
        }
        SyllabifiedCandidate { form, rng: rng_from_seed(DEFAULT_SEED) }
    }

    /// Serialize the candidate back to text: its graphemes concatenated in
    /// order. Lossy: syllable and morpheme tags are not encoded.
    pub fn to_text(&self) -> (r: String)
        ensures
            r@ == serialize_spec(self@),
    {
        let mut out = String::new();
        let mut i: usize = 0;
        while i < self.form.len()
            invariant
                i <= self.form.len(),
                out@ =~~= serialize_spec(self@.take(i as int)),
            decreases self.form.len() - i,
        {
            out.append(self.form[i].grapheme.as_str());
            i += 1;
            proof {
                let sv = self@;
                assert(sv.take(i as int).drop_last() =~~= sv.take(i - 1));
                assert(sv.take(i as int).last() =~~= sv[i - 1]);
                assert(sv[i - 1] == self.form@[i - 1]@);
                assert(serialize_spec(sv.take(i as int)) =~~= serialize_spec(sv.take(i - 1))
                    + sv[i - 1].grapheme);
            }
        }
        proof {
            assert(self@.take(self.form@.len() as int) =~~= self@);
        }
        out
    }

    /// Reset every syllable tag to Unassigned, leaving graphemes,
    /// classifications and morpheme tags untouched.
    pub fn clear_indices(self) -> (r: Self)
        ensures
            r@ == clear_spec(self@),
            self.wf() ==> r.wf(),
    {
        let ghost orig = self@;
        let SyllabifiedCandidate { form, rng } = self;
        let cleared = clear_form(form);
        proof {
            if wf_segs(orig) {
                assert forall|j: int| 0 <= j < clear_spec(orig).len() implies clear_spec(
                    orig,
                )[j].grapheme.len() > 0 by {
                    assert(clear_spec(orig)[j] == with_syll(orig[j], SyllableIndex::Unassigned));
                }
            }
        }
        SyllabifiedCandidate { form: cleared, rng }
    }

    /// Remove one uniformly drawn segment — a no-op on an empty candidate —
    /// then clear all syllable tags and re-syllabify. The length shrinks by
    /// exactly one whenever the candidate was non-empty.
    pub fn delete(self) -> (r: Self)
        ensures
            self@.len() == 0 ==> r@ == self@,
            self@.len() > 0 ==> r@.len() == self@.len() - 1,
            self@.len() > 0 ==> exists|k: int|
                0 <= k < self@.len() && r@ == syllabify_spec(clear_spec(self@.remove(k))),
            self.wf() ==> r.wf(),
    {
        let ghost orig = self@;
        let SyllabifiedCandidate { mut form, mut rng } = self;
        let ghost mut reduced = orig;
        if form.len() > 0 {
            let k = rng_gen_index(&mut rng, form.len());
            let ghost before = form@;
            form.remove(k);
            proof {
                lemma_seg_views_remove(before, k as int);
                reduced = orig.remove(k as int);
                assert(seg_views(form@) =~~= reduced);
            }
        }
        let cleared = clear_form(form);
        let syl = syllabify(cleared);
        proof {
            assert(seg_views(syl@) == syllabify_spec(clear_spec(reduced)));
            if orig.len() == 0 {
                assert(seg_views(syl@) =~~= orig);
            }
            if wf_segs(orig) {
                assert(wf_segs(reduced));
                let cl = clear_spec(reduced);
                assert(wf_segs(cl)) by {
                    assert(forall|j: int| 0 <= j < cl.len() ==> cl[j].grapheme == reduced[j].grapheme);
                }
                lemma_syllabify_preserves_content(cl);
                assert(wf_segs(syllabify_spec(cl)));
            }
        }
        SyllabifiedCandidate { form: syl, rng }
    }

    /// Every competitor obtainable by deleting some subset of the segments:
    /// one candidate per subset of the positions, the empty and the full
    /// subset included, surviving order kept. Each competitor is freshly
    /// seeded with the fixed constant seed and re-syllabified from cleared
    /// tags; none inherits this candidate's stream.
    pub fn permute(&self) -> (r: Vec<SyllabifiedCandidate>)
        requires
            self.wf(),
        ensures
            r@.len() == subseqs_of(self@).len(),
            r@.len() == pow2(self@.len()),
            forall|k: int|
                0 <= k < r@.len() ==> (#[trigger] r@[k])@ == syllabify_spec(
                    clear_spec(subseqs_of(self@)[k]),
                ) && r@[k].wf(),
    {
        proof {
            lemma_subseqs_count(self@);
        }
        let ghost sv = self@;
        let mut forms: Vec<Vec<Segment>> = Vec::new();
        forms.push(Vec::new());
        proof {
            assert(sv.take(0) =~~= Seq::<SegView>::empty());
            assert(subseqs_of(Seq::<SegView>::empty()) =~~= seq![Seq::<SegView>::empty()]);
            assert(seg_views(forms@[0]@) =~~= Seq::<SegView>::empty());
        }
        let mut k: usize = 0;
        while k < self.form.len()
            invariant
                k <= self.form.len(),
                sv == self@,
                sv.len() == self.form@.len(),
                forms@.len() == subseqs_of(sv.take(k as int)).len(),
                forall|j: int|
                    #![trigger forms@[j]]
                    0 <= j < forms@.len() ==> seg_views(forms@[j]@) =~~= subseqs_of(
                        sv.take(k as int),
                    )[j],
            decreases self.form.len() - k,
        {
            let ghost oldforms = forms@;
            let ghost prefix = sv.take(k as int);
            let m = forms.len();
            let mut j: usize = 0;
            while j < m
                invariant
                    j <= m,
                    (k as int) < sv.len(),
                    sv == self@,
                    sv.len() == self.form@.len(),
                    m == oldforms.len(),
                    forms@.len() == m + j,
                    forall|t: int| #![trigger forms@[t]] 0 <= t < m ==> forms@[t] == oldforms[t],
                    forall|t: int|
                        #![trigger forms@[m + t]]
                        0 <= t < j ==> seg_views(forms@[m + t]@) =~~= seg_views(
                            oldforms[t]@,
                        ).push(sv[k as int]),
                decreases m - j,
            {
                let mut t = clone_segments(&forms[j]);
                let ghost tpre = t@;
                t.push(self.form[k].clone());
                proof {
                    assert(sv[k as int] == self.form@[k as int]@);
                    assert(t@ == tpre.push(t@.last()));
                    lemma_seg_views_push(tpre, t@.last());
                    assert(t@.last()@ =~~= sv[k as int]);
                    assert(seg_views(t@) =~~= seg_views(forms@[j as int]@).push(sv[k as int]));
                }
                forms.push(t);
                j += 1;
            }
            k += 1;
            proof {
                let pnew = sv.take(k as int);
                let rest = subseqs_of(prefix);
                assert(pnew.drop_last() =~~= prefix);
                assert(pnew.last() == sv[k - 1]);
                assert(subseqs_of(pnew) == rest + rest.map(
                    |i: int, t: Seq<SegView>| t.push(pnew.last()),
                ));
                assert(forms@.len() == subseqs_of(pnew).len());
                assert forall|j2: int| 0 <= j2 < forms@.len() implies seg_views(
                    forms@[j2]@,
                ) =~~= subseqs_of(pnew)[j2] by {
                    if j2 < m {
                        assert(forms@[j2] == oldforms[j2]);
                        assert(subseqs_of(pnew)[j2] == rest[j2]);
                        assert(seg_views(oldforms[j2]@) =~~= rest[j2]);
                    } else {
                        let t2 = j2 - m;
                        assert(seg_views(forms@[m + t2]@) =~~= seg_views(
                            oldforms[t2]@,
                        ).push(sv[k - 1]));
                        assert(subseqs_of(pnew)[j2] == rest.map(
                            |i: int, t: Seq<SegView>| t.push(pnew.last()),
                        )[t2]);
                        assert(subseqs_of(pnew)[j2] == rest[t2].push(sv[k - 1]));
                        assert(seg_views(oldforms[t2]@) == rest[t2]);
                    }
                }
            }
        }
        proof {
            assert(sv.take(sv.len() as int) =~~= sv);
        }
        let mut out: Vec<SyllabifiedCandidate> = Vec::new();
        let mut q: usize = 0;
        while q < forms.len()
            invariant
                q <= forms@.len(),
                sv == self@,
                wf_segs(sv),
                forms@.len() == subseqs_of(sv).len(),
                forall|j: int|
                    #![trigger forms@[j]]
                    0 <= j < forms@.len() ==> seg_views(forms@[j]@) =~~= subseqs_of(sv)[j],
                out@.len() == q,
                forall|j: int|
                    #![trigger out@[j]]
                    0 <= j < q ==> out@[j]@ == syllabify_spec(clear_spec(subseqs_of(sv)[j]))
                        && out@[j].wf(),
            decreases forms@.len() - q,
        {
            let c = clone_segments(&forms[q]);
            let cleared = clear_form(c);
            let syl = syllabify(cleared);
            proof {
                assert(seg_views(forms@[q as int]@) == subseqs_of(sv)[q as int]);
                assert(seg_views(syl@) == syllabify_spec(clear_spec(subseqs_of(sv)[q as int])));
                lemma_subseqs_wf(sv);
                let sub = subseqs_of(sv)[q as int];
                let cl = clear_spec(sub);
                assert(wf_segs(cl)) by {
                    assert(forall|t: int| 0 <= t < cl.len() ==> cl[t].grapheme == sub[t].grapheme);
                }
                lemma_syllabify_preserves_content(cl);
                assert(wf_segs(syllabify_spec(cl)));
            }
            out.push(SyllabifiedCandidate { form: syl, rng: rng_from_seed(DEFAULT_SEED) });
            q += 1;
        }
        out
    }
}

impl Clone for SyllabifiedCandidate {
    /// Clones the segments and the generator state; the clone models
    /// identically to the original.
    fn clone(&self) -> (r: Self)
        ensures
            r@ == self@,
    {
        let r = SyllabifiedCandidate {
            form: clone_segments(&self.form),
            rng: clone_rng(&self.rng),
        };
        proof {
            assert(r@ =~~= self@);
        }
        r
    }
}

} // verus!
