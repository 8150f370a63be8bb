use vstd::prelude::*;
use vstd::string::StrSliceExecFns;
use crate::candidate::{lemma_view_is_form, serialize_spec, SyllabifiedCandidate};
use crate::model::{SegView, Segment, SyllableIndex, UnderlyingIndex};
use crate::syllable::seg_views;

verus! {

/// One grapheme-level diff operation, as the differ reports it.
#[derive(Clone, Copy, Debug, PartialEq, Eq, Structural)]
pub enum EditOp {
    Equal,
    Delete,
    Insert,
    Replace,
}

/// The edit script of a grapheme-level diff of two texts.
pub uninterp spec fn diff_ops_of(old_text: Seq<char>, new_text: Seq<char>) -> Seq<EditOp>;

/// Relies on similar::TextDiff::from_graphemes and TextDiff::ops: the edit
/// script of a grapheme-level diff, a function of the two texts alone (the
/// default deterministic algorithm). On identical texts the differ emits the
/// shared run as equal operations and nothing else.
#[verifier::external_body]
fn diff_ops(old_text: &str, new_text: &str) -> (r: Vec<EditOp>)
    ensures
        r@ == diff_ops_of(old_text@, new_text@),
        old_text@ == new_text@ ==> forall|i: int| 0 <= i < r@.len() ==> r@[i] is Equal,
{
    let diff = similar::TextDiff::from_graphemes(old_text, new_text);
    diff.ops()
        .iter()
        .map(|op| match op {
            similar::DiffOp::Equal { .. } => EditOp::Equal,
            similar::DiffOp::Delete { .. } => EditOp::Delete,
            similar::DiffOp::Insert { .. } => EditOp::Insert,
            similar::DiffOp::Replace { .. } => EditOp::Replace,
        })
        .collect()
}

/// How many operations of the script are replacements.
pub open spec fn count_replace(ops: Seq<EditOp>) -> nat
    decreases ops.len(),
{
    if ops.len() == 0 {
        0
    } else {
        count_replace(ops.drop_last()) + if ops.last() is Replace {
            1nat
        } else {
            0nat
        }
    }
}

/// How many operations of the script are insertions.
pub open spec fn count_insert(ops: Seq<EditOp>) -> nat
    decreases ops.len(),
{
    if ops.len() == 0 {
        0
    } else {
        count_insert(ops.drop_last()) + if ops.last() is Insert {
            1nat
        } else {
            0nat
        }
    }
}

/// A script of equal-runs alone holds no replacement and no insertion.
pub proof fn lemma_all_equal_zero(ops: Seq<EditOp>)
    requires
        forall|i: int| 0 <= i < ops.len() ==> ops[i] is Equal,
    ensures
        count_replace(ops) == 0,
        count_insert(ops) == 0,
    decreases ops.len(),
{
    if ops.len() > 0 {
        assert(forall|i: int| 0 <= i < ops.len() - 1 ==> ops.drop_last()[i] == ops[i]);
        lemma_all_equal_zero(ops.drop_last());
    }
}

/// How many segments carry the given syllable role.
pub open spec fn count_role(s: Seq<SegView>, role: SyllableIndex) -> nat
    decreases s.len(),
{
    if s.len() == 0 {
        0
    } else {
        count_role(s.drop_last(), role) + if s.last().syllable_index == role {
            1nat
        } else {
            0nat
        }
    }
}

/// How many segments carry the given morpheme-position tag.
pub open spec fn count_morph(s: Seq<SegView>, pos: UnderlyingIndex) -> nat
    decreases s.len(),
{
    if s.len() == 0 {
        0
    } else {
        count_morph(s.drop_last(), pos) + if s.last().morpheme_index == pos {
            1nat
        } else {
            0nat
        }
    }
}

/// A result clamped to what a machine word can hold.
pub open spec fn clamp_usize(n: nat) -> nat {
    if n > usize::MAX as nat {
        usize::MAX as nat
    } else {
        n
    }
}

fn count_role_exec(v: &Vec<Segment>, role: SyllableIndex) -> (r: usize)
    ensures
        r == count_role(seg_views(v@), role),
        r <= v@.len(),
{
    let mut cnt: usize = 0;
    let mut i: usize = 0;
    while i < v.len()
        invariant
            i <= v.len(),
            cnt <= i,
            cnt == count_role(seg_views(v@).take(i as int), role),
        decreases v.len() - i,
    {
        if v[i].syllable_index == role {
            cnt += 1;
        }
        i += 1;
        proof {
            let sv = seg_views(v@);
            assert(sv.take(i as int).drop_last() =~~= sv.take(i - 1));
            assert(sv.take(i as int).last() == sv[i - 1]);
            assert(sv[i - 1] == v@[i - 1]@);
        }
    }
    proof {
        assert(seg_views(v@).take(v@.len() as int) =~~= seg_views(v@));
    }
    cnt
}

fn count_morph_exec(v: &Vec<Segment>, pos: UnderlyingIndex) -> (r: usize)
    ensures
        r == count_morph(seg_views(v@), pos),
        r <= v@.len(),
{
    let mut cnt: usize = 0;
    let mut i: usize = 0;
    while i < v.len()
        invariant
            i <= v.len(),
            cnt <= i,
            cnt == count_morph(seg_views(v@).take(i as int), pos),
        decreases v.len() - i,
    {
        if v[i].morpheme_index == pos {
            cnt += 1;
        }
        i += 1;
        proof {
            let sv = seg_views(v@);
            assert(sv.take(i as int).drop_last() =~~= sv.take(i - 1));
            assert(sv.take(i as int).last() == sv[i - 1]);
            assert(sv[i - 1] == v@[i - 1]@);
        }
    }
    proof {
        assert(seg_views(v@).take(v@.len() as int) =~~= seg_views(v@));
    }
    cnt
}

/// The replacement count of the optimal grapheme alignment of the underlying
/// serialization against the surface serialization.
pub open spec fn ident_spec(u: Seq<SegView>, s: Seq<SegView>) -> nat {
    count_replace(diff_ops_of(serialize_spec(u), serialize_spec(s)))
}

/// The insertion count of the same alignment.
pub open spec fn dep_spec(u: Seq<SegView>, s: Seq<SegView>) -> nat {
    count_insert(diff_ops_of(serialize_spec(u), serialize_spec(s)))
}

/// Nuclei lacking an onset, clamped at zero if onsets outnumber nuclei.
pub open spec fn onset_deficit(s: Seq<SegView>) -> nat {
    if count_role(s, SyllableIndex::Nucleus) >= count_role(s, SyllableIndex::Onset) {
        (count_role(s, SyllableIndex::Nucleus) - count_role(s, SyllableIndex::Onset)) as nat
    } else {
        0
    }
}

/// The sonority score of a segment, keyed off its first character alone so
/// that combining accent marks are ignored.
pub open spec fn ssp_score(c: char) -> nat {
    if c == 'e' || c == '\u{25B}' || c == 'o' || c == '\u{254}' {
        1
    } else if c == 'u' {
        2
    } else if c == 'i' {
        3
    } else {
        0
    }
}

/// The summed sonority score of a candidate.
pub open spec fn ssp_sum(s: Seq<SegView>) -> nat
    decreases s.len(),
{
    if s.len() == 0 {
        0
    } else {
        ssp_sum(s.drop_last()) + ssp_score(s.last().grapheme[0])
    }
}

/// How many more segments the underlying form has, clamped at zero.
pub open spec fn len_deficit(u: Seq<SegView>, s: Seq<SegView>) -> nat {
    if u.len() >= s.len() {
        (u.len() - s.len()) as nat
    } else {
        0
    }
}

/// One extra violation when a non-empty surface form's first or last grapheme
/// differs from the underlying form's; an empty underlying form cannot match
/// any surface edge.
pub open spec fn edge_mismatch(u: Seq<SegView>, s: Seq<SegView>) -> nat {
    if s.len() > 0 && (u.len() == 0 || s[0].grapheme != u[0].grapheme || s.last().grapheme
        != u.last().grapheme) {
        1
    } else {
        0
    }
}

/// The Max faithfulness score: three per deleted segment, plus the edge bonus.
pub open spec fn max_spec(u: Seq<SegView>, s: Seq<SegView>) -> nat {
    3 * len_deficit(u, s) + edge_mismatch(u, s)
}

/// How many more segments of the underlying form carry the tag than of the
/// surface form, clamped at zero.
pub open spec fn morph_deficit(u: Seq<SegView>, s: Seq<SegView>, pos: UnderlyingIndex) -> nat {
    if count_morph(u, pos) >= count_morph(s, pos) {
        (count_morph(u, pos) - count_morph(s, pos)) as nat
    } else {
        0
    }
}

/// Faithfulness: penalizes graphemes of the surface form that replace
/// material of the underlying form in the optimal alignment.
pub struct Ident(pub SyllabifiedCandidate);

impl Ident {
    /// Count the replace operations of the grapheme-level alignment. Scoring
    /// a surface form with the same serialization yields zero.
    pub fn evaluate(&self, surface: SyllabifiedCandidate) -> (r: usize)
        ensures
            r == ident_spec(self.0@, surface@),
            serialize_spec(self.0@) == serialize_spec(surface@) ==> r == 0,
    {
        let u = self.0.to_text();
        let s = surface.to_text();
        let ops = diff_ops(u.as_str(), s.as_str());
        proof {
            if serialize_spec(self.0@) == serialize_spec(surface@) {
                lemma_all_equal_zero(ops@);
            }
        }
        let mut cnt: usize = 0;
        let mut i: usize = 0;
        while i < ops.len()
            invariant
                i <= ops.len(),
                cnt <= i,
                cnt == count_replace(ops@.take(i as int)),
            decreases ops.len() - i,
        {
            if matches!(ops[i], EditOp::Replace) {
                cnt += 1;
            }
            i += 1;
            proof {
                assert(ops@.take(i as int).drop_last() =~= ops@.take(i - 1));
                assert(ops@.take(i as int).last() == ops@[i - 1]);
            }
        }
        proof {
            assert(ops@.take(ops@.len() as int) =~= ops@);
        }
        cnt
    }
}

/// Faithfulness: penalizes epenthetic surface material not alignable to the
/// underlying form.
pub struct Dep(pub SyllabifiedCandidate);

impl Dep {
    /// Count the insert operations of the grapheme-level alignment. Scoring
    /// a surface form with the same serialization yields zero.
    pub fn evaluate(&self, surface: SyllabifiedCandidate) -> (r: usize)
        ensures
            r == dep_spec(self.0@, surface@),
            serialize_spec(self.0@) == serialize_spec(surface@) ==> r == 0,
    {
        let u = self.0.to_text();
        let s = surface.to_text();
        let ops = diff_ops(u.as_str(), s.as_str());
        proof {
            if serialize_spec(self.0@) == serialize_spec(surface@) {
                lemma_all_equal_zero(ops@);
            }
        }
        let mut cnt: usize = 0;
        let mut i: usize = 0;
        while i < ops.len()
            invariant
                i <= ops.len(),
                cnt <= i,
                cnt == count_insert(ops@.take(i as int)),
            decreases ops.len() - i,
        {
            if matches!(ops[i], EditOp::Insert) {
                cnt += 1;
            }
            i += 1;
            proof {
                assert(ops@.take(i as int).drop_last() =~= ops@.take(i - 1));
                assert(ops@.take(i as int).last() == ops@[i - 1]);
            }
        }
        proof {
            assert(ops@.take(ops@.len() as int) =~= ops@);
        }
        cnt
    }
}

/// Markedness: every nucleus wants an onset.
pub struct Onset;

impl Onset {
    /// One violation per nucleus beyond the onset count, clamped at zero.
    pub fn evaluate(&self, surface: SyllabifiedCandidate) -> (r: usize)
        ensures
            r == onset_deficit(surface@),
    {
        proof {
            lemma_view_is_form(&surface);
        }
        let n = count_role_exec(&surface.form, SyllableIndex::Nucleus);
        let o = count_role_exec(&surface.form, SyllableIndex::Onset);
        if n >= o {
            n - o
        } else {
            0
        }
    }
}

/// Markedness: a heuristic sonority-sequencing proxy.
pub struct SonSeqPr;

impl SonSeqPr {
    /// Sum each segment's sonority score, saturating at the machine-word
    /// maximum.
    pub fn evaluate(&self, surface: SyllabifiedCandidate) -> (r: usize)
        requires
            surface.wf(),
        ensures
            r == clamp_usize(ssp_sum(surface@)),
    {
        proof {
            lemma_view_is_form(&surface);
        }
        let mut sum: usize = 0;
        let mut i: usize = 0;
        while i < surface.form.len()
            invariant
                i <= surface.form.len(),
                surface.wf(),
                surface@ == seg_views(surface.form@),
                sum == clamp_usize(ssp_sum(surface@.take(i as int))),
            decreases surface.form.len() - i,
        {
            proof {
                assert(surface@[i as int] == surface.form@[i as int]@);
            }
            let c = surface.form[i].grapheme.as_str().get_char(0);
            let score: usize = if c == 'e' || c == '\u{25B}' || c == 'o' || c == '\u{254}' {
                1
            } else if c == 'u' {
                2
            } else if c == 'i' {
                3
            } else {
                0
            };
            sum = sum.saturating_add(score);
            i += 1;
            proof {
                let sv = surface@;
                assert(sv.take(i as int).drop_last() =~~= sv.take(i - 1));
                assert(sv.take(i as int).last() == sv[i - 1]);
            }
        }
        proof {
            assert(surface@.take(surface@.len() as int) =~~= surface@);
        }
        sum
    }
}

/// Markedness: material the syllabifier could not place.
pub struct Syllabify;

impl Syllabify {
    /// Count the segments whose syllable role is still Unassigned.
    pub fn evaluate(&self, surface: SyllabifiedCandidate) -> (r: usize)
        ensures
            r == count_role(surface@, SyllableIndex::Unassigned),
    {
        proof {
            lemma_view_is_form(&surface);
        }
        count_role_exec(&surface.form, SyllableIndex::Unassigned)
    }
}

/// Faithfulness against deletion, with an edge-preservation bonus penalty.
pub struct Max(pub SyllabifiedCandidate);

impl Max {
    /// Three violations per missing segment (clamped at zero for a longer
    /// surface form), plus one if a non-empty surface form's first or last
    /// grapheme differs from the underlying form's.
    pub fn evaluate(&self, surface: SyllabifiedCandidate) -> (r: usize)
        ensures
            r == clamp_usize(max_spec(self.0@, surface@)),
    {
        proof {
            lemma_view_is_form(&surface);
            lemma_view_is_form(&self.0);
        }
        let ul = self.0.form.len();
        let sl = surface.form.len();
        let d = if ul >= sl {
            ul - sl
        } else {
            0
        };
        let base = match d.checked_mul(3) {
            Some(x) => x,
            Option::None => usize::MAX,
        };
        let edge: usize = if sl > 0 {
            if ul == 0 {
                1
            } else {
                proof {
                    assert(surface@[0] == surface.form@[0]@);
                    assert(self.0@[0] == self.0.form@[0]@);
                    assert(surface@.last() == surface.form@[sl - 1]@);
                    assert(self.0@.last() == self.0.form@[ul - 1]@);
                }
                let first_differs = surface.form[0].grapheme != self.0.form[0].grapheme;
                let last_differs = surface.form[sl - 1].grapheme != self.0.form[ul - 1].grapheme;
                if first_differs || last_differs {
                    1
                } else {
                    0
                }
            }
        } else {
            0
        };
        base.saturating_add(edge)
    }
}

/// Positional faithfulness to morpheme-initial segments.
pub struct MaxInitialV(pub SyllabifiedCandidate);

impl MaxInitialV {
    /// How many morpheme-initial segments of the underlying form the surface
    /// form lost, clamped at zero.
    pub fn evaluate(&self, surface: SyllabifiedCandidate) -> (r: usize)
        ensures
            r == morph_deficit(self.0@, surface@, UnderlyingIndex::Initial),
    {
        proof {
            lemma_view_is_form(&surface);
            lemma_view_is_form(&self.0);
        }
        let u = count_morph_exec(&self.0.form, UnderlyingIndex::Initial);
        let s = count_morph_exec(&surface.form, UnderlyingIndex::Initial);
        if u >= s {
            u - s
        } else {
            0
        }
    }
}

/// Positional faithfulness to morpheme-final segments.
pub struct MaxFinalV(pub SyllabifiedCandidate);

impl MaxFinalV {
    /// How many morpheme-final segments of the underlying form the surface
    /// form lost, clamped at zero.
    pub fn evaluate(&self, surface: SyllabifiedCandidate) -> (r: usize)
        ensures
            r == morph_deficit(self.0@, surface@, UnderlyingIndex::Final),
    {
        proof {
            lemma_view_is_form(&surface);
            lemma_view_is_form(&self.0);
        }
        let u = count_morph_exec(&self.0.form, UnderlyingIndex::Final);
        let s = count_morph_exec(&surface.form, UnderlyingIndex::Final);
        if u >= s {
            u - s
        } else {
            0
        }
    }
}

/// A constraint instance: the closed set of faithfulness and markedness
/// constraints, dispatched by a single evaluate operation.
pub enum Constraint {
    Ident(Ident),
    Dep(Dep),
    Onset(Onset),
    SonSeqPr(SonSeqPr),
    Syllabify(Syllabify),
    Max(Max),
    MaxInitialV(MaxInitialV),
    MaxFinalV(MaxFinalV),
}

/// The violation count a constraint assigns to a surface form.
pub open spec fn eval_spec(c: Constraint, s: Seq<SegView>) -> nat {
    match c {
        Constraint::Ident(k) => ident_spec(k.0@, s),
        Constraint::Dep(k) => dep_spec(k.0@, s),
        Constraint::Onset(_) => onset_deficit(s),
        Constraint::SonSeqPr(_) => clamp_usize(ssp_sum(s)),
        Constraint::Syllabify(_) => count_role(s, SyllableIndex::Unassigned),
        Constraint::Max(k) => clamp_usize(max_spec(k.0@, s)),
        Constraint::MaxInitialV(k) => morph_deficit(k.0@, s, UnderlyingIndex::Initial),
        Constraint::MaxFinalV(k) => morph_deficit(k.0@, s, UnderlyingIndex::Final),
    }
}

impl Constraint {
    /// Score a well-formed surface form; never fails, never negative.
    pub fn evaluate(&self, surface: SyllabifiedCandidate) -> (r: usize)
        requires
            surface.wf(),
        ensures
            r == eval_spec(*self, surface@),
    {
        match self {
            Constraint::Ident(k) => k.evaluate(surface),
            Constraint::Dep(k) => k.evaluate(surface),
            Constraint::Onset(k) => k.evaluate(surface),
            Constraint::SonSeqPr(k) => k.evaluate(surface),
            Constraint::Syllabify(k) => k.evaluate(surface),
            Constraint::Max(k) => k.evaluate(surface),
            Constraint::MaxInitialV(k) => k.evaluate(surface),
            Constraint::MaxFinalV(k) => k.evaluate(surface),
        }
    }
}

/// A constraint paired with its priority rank; a lower rank means a higher
/// priority. The rank is carried for the caller's ordering and is not
/// consulted by the flat aggregation below.
pub struct RankedConstraint {
    pub rank: usize,
    pub constraint: Constraint,
}

impl RankedConstraint {
    /// Score the surface form with the carried constraint.
    pub fn evaluate(&self, surface: SyllabifiedCandidate) -> (r: usize)
        requires
            surface.wf(),
        ensures
            r == eval_spec(self.constraint, surface@),
    {
        self.constraint.evaluate(surface)
    }
}

/// The flat sum of all the constraints' violation counts.
pub open spec fn total_violations(cs: Seq<RankedConstraint>, s: Seq<SegView>) -> nat
    decreases cs.len(),
{
    if cs.len() == 0 {
        0
    } else {
        total_violations(cs.drop_last(), s) + eval_spec(cs.last().constraint, s)
    }
}

/// Aggregate a ranked-constraint set over one surface form as the flat,
/// rank-agnostic sum of all violation counts, saturating at the machine-word
/// maximum. True strict-domination comparison by rank is the caller's
/// concern.
pub fn evaluate_all(constraints: &Vec<RankedConstraint>, surface: &SyllabifiedCandidate) -> (r:
    usize)
    requires
        surface.wf(),
    ensures
        r == clamp_usize(total_violations(constraints@, surface@)),
{
    let mut sum: usize = 0;
    let mut i: usize = 0;
    while i < constraints.len()
        invariant
            i <= constraints.len(),
            surface.wf(),
            sum == clamp_usize(total_violations(constraints@.take(i as int), surface@)),
        decreases constraints.len() - i,
    {
        let v = constraints[i].evaluate(surface.clone());
        sum = sum.saturating_add(v);
        i += 1;
        proof {
            let cs = constraints@;
            assert(cs.take(i as int).drop_last() =~= cs.take(i - 1));
            assert(cs.take(i as int).last() == cs[i - 1]);
        }
    }
    proof {
        assert(constraints@.take(constraints@.len() as int) =~= constraints@);
    }
    sum
}

} // verus!
