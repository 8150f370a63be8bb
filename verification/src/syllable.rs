use vstd::prelude::*;
use crate::model::{Segment, SegView, SyllableIndex, is_vowel, is_vowel_spec, with_syll};

verus! {

/// The model of a segment vector: each segment's view, in order.
pub open spec fn seg_views(s: Seq<Segment>) -> Seq<SegView> {
    s.map(|i: int, seg: Segment| seg@)
}

/// First pass: every vowel grapheme becomes a nucleus; everything else keeps
/// the role it already carries.
pub open spec fn vowel_pass_spec(s: Seq<SegView>) -> Seq<SegView> {
    Seq::new(
        s.len(),
        |i: int|
            if is_vowel_spec(s[i].grapheme) {
                with_syll(s[i], SyllableIndex::Nucleus)
            } else {
                s[i]
            },
    )
}

/// Second pass: an unassigned segment standing immediately left of a nucleus
/// becomes that nucleus's onset. Because an assigned onset is itself no
/// nucleus, the segment further left stays unassigned: onset clusters are
/// never longer than one segment.
pub open spec fn onset_pass_spec(s: Seq<SegView>) -> Seq<SegView> {
    Seq::new(
        s.len(),
        |i: int|
            if s[i].syllable_index == SyllableIndex::Unassigned && i + 1 < s.len()
                && s[i + 1].syllable_index == SyllableIndex::Nucleus {
                with_syll(s[i], SyllableIndex::Onset)
            } else {
                s[i]
            },
    )
}

/// Third pass, the mirror image: an unassigned segment immediately right of a
/// nucleus becomes its coda; coda clusters are likewise capped at one segment.
pub open spec fn coda_pass_spec(s: Seq<SegView>) -> Seq<SegView> {
    Seq::new(
        s.len(),
        |i: int|
            if s[i].syllable_index == SyllableIndex::Unassigned && 0 < i
                && s[i - 1].syllable_index == SyllableIndex::Nucleus {
                with_syll(s[i], SyllableIndex::Coda)
            } else {
                s[i]
            },
    )
}

/// The whole syllabifier: nuclei, then onsets, then codas.
pub open spec fn syllabify_spec(s: Seq<SegView>) -> Seq<SegView> {
    coda_pass_spec(onset_pass_spec(vowel_pass_spec(s)))
}

/// Every syllable role reset to Unassigned; graphemes and the other tags kept.
pub open spec fn clear_spec(s: Seq<SegView>) -> Seq<SegView> {
    Seq::new(s.len(), |i: int| with_syll(s[i], SyllableIndex::Unassigned))
}

/// Tag every vowel grapheme as a syllable nucleus.
pub fn mark_vowels(candidate: Vec<Segment>) -> (r: Vec<Segment>)
    ensures
        seg_views(r@) == vowel_pass_spec(seg_views(candidate@)),
{
    let mut out: Vec<Segment> = Vec::new();
    let mut i: usize = 0;
    while i < candidate.len()
        invariant
            i <= candidate.len(),
            out@.len() == i,
            forall|j: int|
                #![trigger out@[j]]
                0 <= j < i ==> out@[j]@ =~~= vowel_pass_spec(seg_views(candidate@))[j],
        decreases candidate.len() - i,
    {
        let seg = &candidate[i];
        if is_vowel(seg.grapheme.as_str()) {
            out.push(seg.morph_type(SyllableIndex::Nucleus));
        } else {
            out.push(seg.clone());
        }
        i += 1;
    }
    proof {
        let vp = vowel_pass_spec(seg_views(candidate@));
        assert forall|j: int| 0 <= j < out@.len() implies seg_views(out@)[j] =~~= vp[j] by {
            assert(seg_views(out@)[j] == out@[j]@);
        }
        assert(seg_views(out@) =~~= vp);
    }
    out
}

/// Assign at most one onset to each nucleus: an unassigned segment directly
/// before a nucleus takes the onset role.
pub fn mark_onsets(candidate: Vec<Segment>) -> (r: Vec<Segment>)
    ensures
        seg_views(r@) == onset_pass_spec(seg_views(candidate@)),
{
    let mut out: Vec<Segment> = Vec::new();
    let mut i: usize = 0;
    while i < candidate.len()
        invariant
            i <= candidate.len(),
            out@.len() == i,
            forall|j: int|
                #![trigger out@[j]]
                0 <= j < i ==> out@[j]@ =~~= onset_pass_spec(seg_views(candidate@))[j],
        decreases candidate.len() - i,
    {
        let seg = &candidate[i];
        if matches!(seg.syllable_index, SyllableIndex::Unassigned) && i + 1 < candidate.len()
            && matches!(candidate[i + 1].syllable_index, SyllableIndex::Nucleus) {
            out.push(seg.morph_type(SyllableIndex::Onset));
        } else {
            out.push(seg.clone());
        }
        i += 1;
    }
    proof {
        let op = onset_pass_spec(seg_views(candidate@));
        assert forall|j: int| 0 <= j < out@.len() implies seg_views(out@)[j] =~~= op[j] by {
            assert(seg_views(out@)[j] == out@[j]@);
        }
        assert(seg_views(out@) =~~= op);
    }
    out
}

/// Assign at most one coda to each nucleus: an unassigned segment directly
/// after a nucleus takes the coda role.
pub fn mark_codas(candidate: Vec<Segment>) -> (r: Vec<Segment>)
    ensures
        seg_views(r@) == coda_pass_spec(seg_views(candidate@)),
{
    let mut out: Vec<Segment> = Vec::new();
    let mut i: usize = 0;
    while i < candidate.len()
        invariant
            i <= candidate.len(),
            out@.len() == i,
            forall|j: int|
                #![trigger out@[j]]
                0 <= j < i ==> out@[j]@ =~~= coda_pass_spec(seg_views(candidate@))[j],
        decreases candidate.len() - i,
    {
        let seg = &candidate[i];
        if matches!(seg.syllable_index, SyllableIndex::Unassigned) && i > 0
            && matches!(candidate[i - 1].syllable_index, SyllableIndex::Nucleus) {
            out.push(seg.morph_type(SyllableIndex::Coda));
        } else {
            out.push(seg.clone());
        }
        i += 1;
    }
    proof {
        let cp = coda_pass_spec(seg_views(candidate@));
        assert forall|j: int| 0 <= j < out@.len() implies seg_views(out@)[j] =~~= cp[j] by {
            assert(seg_views(out@)[j] == out@[j]@);
        }
        assert(seg_views(out@) =~~= cp);
    }
    out
}

/// Run the three passes in order over a segment vector.
pub fn syllabify(candidate: Vec<Segment>) -> (r: Vec<Segment>)
    ensures
        seg_views(r@) == syllabify_spec(seg_views(candidate@)),
{
    mark_codas(mark_onsets(mark_vowels(candidate)))
}

/// The syllabifier never touches a grapheme, a vowel/consonant classification
/// or a morpheme tag: it only rewrites syllable roles.
pub proof fn lemma_syllabify_preserves_content(s: Seq<SegView>)
    ensures
        syllabify_spec(s).len() == s.len(),
        forall|i: int|
            0 <= i < s.len() ==> syllabify_spec(s)[i].grapheme == s[i].grapheme
                && syllabify_spec(s)[i].seg_type == s[i].seg_type
                && syllabify_spec(s)[i].morpheme_index == s[i].morpheme_index,
{
}

/// Re-running the syllabifier on an already-syllabified sequence is a no-op:
/// its nuclei are exactly its vowels, and no unassigned segment is left beside
/// a nucleus, so every pass returns its input unchanged.
pub proof fn lemma_syllabify_idempotent(s: Seq<SegView>)
    ensures
        syllabify_spec(syllabify_spec(s)) == syllabify_spec(s),
{
    let a = vowel_pass_spec(s);
    let b = onset_pass_spec(a);
    let t = coda_pass_spec(b);
    assert(vowel_pass_spec(t) =~= t) by {
        assert forall|i: int| 0 <= i < t.len() implies vowel_pass_spec(t)[i] == t[i] by {
            if is_vowel_spec(t[i].grapheme) {
                assert(a[i].syllable_index == SyllableIndex::Nucleus);
                assert(b[i] == a[i]);
                assert(t[i].syllable_index == SyllableIndex::Nucleus);
                assert(vowel_pass_spec(t)[i] =~= t[i]);
            }
        }
    }
    assert(onset_pass_spec(t) =~= t) by {
        assert forall|i: int| 0 <= i < t.len() implies onset_pass_spec(t)[i] == t[i] by {
            if t[i].syllable_index == SyllableIndex::Unassigned && i + 1 < t.len()
                && t[i + 1].syllable_index == SyllableIndex::Nucleus {
                assert(b[i].syllable_index == SyllableIndex::Unassigned);
                assert(a[i].syllable_index == SyllableIndex::Unassigned);
                assert(b[i + 1].syllable_index == SyllableIndex::Nucleus);
                assert(a[i + 1].syllable_index == SyllableIndex::Nucleus);
                assert(b[i].syllable_index == SyllableIndex::Onset);
                assert(false);
            }
        }
    }
    assert(coda_pass_spec(t) =~= t) by {
        assert forall|i: int| 0 <= i < t.len() implies coda_pass_spec(t)[i] == t[i] by {
            if t[i].syllable_index == SyllableIndex::Unassigned && 0 < i
                && t[i - 1].syllable_index == SyllableIndex::Nucleus {
                assert(b[i].syllable_index == SyllableIndex::Unassigned);
                assert(b[i - 1].syllable_index == SyllableIndex::Nucleus);
                assert(t[i].syllable_index == SyllableIndex::Coda);
                assert(false);
            }
        }
    }
    assert(syllabify_spec(t) == coda_pass_spec(onset_pass_spec(vowel_pass_spec(t))));
    assert(vowel_pass_spec(t) == t);
    assert(onset_pass_spec(t) == t);
}

/// Whether every syllable role in the sequence is still Unassigned.
pub open spec fn is_cleared(s: Seq<SegView>) -> bool {
    forall|i: int| 0 <= i < s.len() ==> s[i].syllable_index == SyllableIndex::Unassigned
}

/// On a sequence whose roles start out cleared, clearing the syllabifier's
/// output and running it again reproduces the same tags: the syllabifier is a
/// pure function of the cleared content.
pub proof fn lemma_clear_resyllabify(s: Seq<SegView>)
    requires
        is_cleared(s),
    ensures
        syllabify_spec(clear_spec(syllabify_spec(s))) == syllabify_spec(s),
{
    assert(clear_spec(syllabify_spec(s)) =~= s) by {
        assert forall|i: int| 0 <= i < s.len() implies clear_spec(syllabify_spec(s))[i] == s[i] by {
            assert(clear_spec(syllabify_spec(s))[i] =~= s[i]);
        }
    }
}

} // verus!
