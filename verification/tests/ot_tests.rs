use unicode_segmentation::UnicodeSegmentation;
use yoruba_ot::{
    get_seg_type, mark_codas, mark_onsets, mark_vowels, syllabify, Constraint, Dep, Ident, Max,
    MaxFinalV, MaxInitialV, Onset, RankedConstraint, Segment, SegmentType, SonSeqPr,
    SyllabifiedCandidate, Syllabify, SyllableIndex, UnderlyingIndex,
};

fn cand(text: &str) -> SyllabifiedCandidate {
    SyllabifiedCandidate::from_text(text)
}

#[test]
fn test_delete_1() {
    let cand: SyllabifiedCandidate = cand("test");

    let cand_str: String = cand.delete().to_text();

    assert_eq!(cand_str, "tst");
}

#[test]
fn test_delete_2() {
    let cand: SyllabifiedCandidate = cand("test");

    let cand_str: String = cand.delete().delete().delete().delete().delete().to_text();

    assert_eq!(cand_str, "");
}

#[test]
fn test_delete_3() {
    let cand: SyllabifiedCandidate = cand("owo\u{301}ki\u{301}owo\u{301}");

    let cand_str: String = cand.delete().delete().delete().delete().to_text();

    assert_eq!(cand_str, "wo\u{301}wo\u{301}");
}

#[test]
fn test_delete_4() {
    let cand: SyllabifiedCandidate = cand("owo\u{301}ki\u{301}owo\u{301}");

    let cand_str: String = cand
        .delete()
        .delete()
        .delete()
        .delete()
        .delete()
        .delete()
        .delete()
        .delete()
        .to_text();

    assert_eq!(cand_str, "");
}

#[test]
fn test_ident_1() {
    let cand1: SyllabifiedCandidate = cand("owo\u{301}ki\u{301}owo\u{301}");
    let cand2: SyllabifiedCandidate = cand("o\u{301}waki\u{301}o\u{301}wo\u{301}");

    let ident = Ident(cand1);

    assert_eq!(ident.evaluate(cand2), 3);
}

#[test]
fn test_dep_1() {
    let syllabified_candidate: SyllabifiedCandidate = cand("owoktwiowo");
    assert_eq!(
        Dep(syllabified_candidate.clone())
            .evaluate(syllabified_candidate.delete().delete().delete().delete()),
        0
    )
}

#[test]
fn test_ssp_1() {
    let syllabified_candidate: SyllabifiedCandidate = cand("owo\u{301}ki\u{301}owo\u{301}");
    assert_eq!(SonSeqPr.evaluate(syllabified_candidate), 7);
}

#[test]
fn test_ssp_2() {
    let syllabified_candidate: SyllabifiedCandidate = cand("");
    assert_eq!(SonSeqPr.evaluate(syllabified_candidate), 0);
}

#[test]
fn test_onset_1() {
    let syllabified_candidate: SyllabifiedCandidate = cand("owoktwiowo");
    assert_eq!(Onset.evaluate(syllabified_candidate), 2);
}

#[test]
fn test_syllabify_constraint() {
    let syllabified_candidate: SyllabifiedCandidate = cand("owoktwiowo");
    assert_eq!(Syllabify.evaluate(syllabified_candidate), 1);
}

fn seg(text: &str) -> Segment {
    Segment {
        grapheme: String::from(text),
        syllable_index: SyllableIndex::Unassigned,
        seg_type: get_seg_type(text),
        morpheme_index: UnderlyingIndex::Interior,
    }
}

fn segs(texts: &[&str]) -> Vec<Segment> {
    texts.iter().map(|t| seg(t)).collect()
}

#[test]
fn syllabifier_is_idempotent() {
    let first = syllabify(segs(&["o", "w", "o", "k", "t", "w", "i", "o", "w", "o"]));
    let second = syllabify(first.clone());
    assert_eq!(second, first);
}

#[test]
fn clear_then_resyllabify_reproduces_tags() {
    let first = syllabify(segs(&["o", "w", "o", "k", "t", "w", "i", "o", "w", "o"]));
    let cleared: Vec<Segment> = first
        .iter()
        .map(|s| s.morph_type(SyllableIndex::Unassigned))
        .collect();
    let second = syllabify(cleared);
    assert_eq!(second, first);
    // clearing a candidate resets the roles without touching content
    let c = cand("owo\u{301}ki\u{301}owo\u{301}").clear_indices();
    assert_eq!(c.to_text(), "owo\u{301}ki\u{301}owo\u{301}");
    assert_eq!(Syllabify.evaluate(c), 8);
}

#[test]
fn three_pass_roles() {
    let v = mark_vowels(segs(&["t", "a", "t", "t"]));
    assert_eq!(v[1].syllable_index, SyllableIndex::Nucleus);
    assert_eq!(v[0].syllable_index, SyllableIndex::Unassigned);
    let o = mark_onsets(v);
    assert_eq!(o[0].syllable_index, SyllableIndex::Onset);
    let c = mark_codas(o);
    assert_eq!(c[2].syllable_index, SyllableIndex::Coda);
    assert_eq!(c[3].syllable_index, SyllableIndex::Unassigned);
}

#[test]
fn onset_clusters_are_capped_at_one() {
    // two consonants before one vowel: only the nearer one becomes the onset
    let out = syllabify(segs(&["t", "w", "a"]));
    assert_eq!(out[0].syllable_index, SyllableIndex::Unassigned);
    assert_eq!(out[1].syllable_index, SyllableIndex::Onset);
    assert_eq!(out[2].syllable_index, SyllableIndex::Nucleus);
}

#[test]
fn ident_and_dep_are_zero_on_self() {
    for text in ["", "test", "owo\u{301}ki\u{301}owo\u{301}", "d\u{361}\u{292}a"] {
        let x = cand(text);
        assert_eq!(Ident(x.clone()).evaluate(x.clone()), 0);
        assert_eq!(Dep(x.clone()).evaluate(x), 0);
    }
}

#[test]
fn delete_on_empty_is_a_no_op() {
    let empty = cand("");
    let deleted = empty.delete();
    assert_eq!(deleted.to_text(), "");
    // and deleting again still never faults
    assert_eq!(deleted.delete().to_text(), "");
}

#[test]
fn deletion_exhausts_after_exactly_n_calls() {
    let text = "owo\u{301}ki\u{301}owo\u{301}";
    let n = text.graphemes(true).count();
    let mut c = cand(text);
    for k in 0..n {
        assert!(c.to_text().graphemes(true).count() == n - k);
        assert!(!c.to_text().is_empty());
        c = c.delete();
    }
    assert_eq!(c.to_text(), "");
    // the call after exhaustion is a no-op, not an error
    assert_eq!(c.delete().to_text(), "");
}

#[test]
fn vowel_classification() {
    for v in ["o", "ɛ", "ɔ", "i", "u", "a", "e"] {
        assert_eq!(get_seg_type(v), SegmentType::Vowel);
    }
    for c in ["t", "w", "o\u{301}", "i\u{301}", "d\u{361}\u{292}"] {
        assert_eq!(get_seg_type(c), SegmentType::Consonant);
    }
}

#[test]
fn affricate_pair_coalesces_into_one_segment() {
    let c = cand("d\u{361}\u{292}a");
    // two segments: the merged affricate and the vowel; serialization is
    // unchanged by the merge
    assert_eq!(c.to_text(), "d\u{361}\u{292}a");
    assert_eq!(c.to_text().graphemes(true).count(), 3);
    let after = c.delete().delete();
    assert_eq!(after.to_text(), "");
}

#[test]
fn permute_enumerates_every_deletion_subset() {
    let c = cand("ta");
    let texts: Vec<String> = c.permute().iter().map(|p| p.to_text()).collect();
    assert_eq!(texts, vec!["", "t", "a", "ta"]);
    assert_eq!(cand("").permute().len(), 1);
    assert_eq!(cand("owo\u{301}").permute().len(), 8);
}

#[test]
fn max_counts_deletions_and_edges() {
    let u = cand("owo\u{301}");
    assert_eq!(Max(u.clone()).evaluate(cand("owo\u{301}")), 0);
    // one deletion, surviving edges intact
    assert_eq!(Max(u.clone()).evaluate(cand("oo\u{301}")), 3);
    // one deletion, last grapheme changed
    assert_eq!(Max(u.clone()).evaluate(cand("ow")), 4);
    assert_eq!(Max(u).evaluate(cand("")), 9);
}

#[test]
fn difference_constraints_clamp_instead_of_underflowing() {
    // a surface form longer than the underlying form would underflow a naive
    // unsigned subtraction
    let short = cand("ab");
    assert_eq!(Max(short.clone()).evaluate(cand("abcdef")), 1);
    assert_eq!(Max(cand("")).evaluate(cand("xy")), 1);
    assert_eq!(MaxInitialV(cand("")).evaluate(cand("abc")), 0);
    assert_eq!(MaxFinalV(cand("")).evaluate(cand("abc")), 0);
}

#[test]
fn morpheme_edge_faithfulness() {
    let u = cand("owo\u{301}");
    assert_eq!(MaxInitialV(u.clone()).evaluate(u.clone()), 0);
    assert_eq!(MaxFinalV(u.clone()).evaluate(u.clone()), 0);
    // an empty surface form lost both tagged edges
    assert_eq!(MaxInitialV(u.clone()).evaluate(cand("")), 1);
    assert_eq!(MaxFinalV(u).evaluate(cand("")), 1);
}

#[test]
fn ranked_set_aggregates_as_flat_sum() {
    let surface = cand("owoktwiowo");
    let ranked = vec![
        RankedConstraint { rank: 1, constraint: Constraint::SonSeqPr(SonSeqPr) },
        RankedConstraint { rank: 2, constraint: Constraint::Syllabify(Syllabify) },
        RankedConstraint { rank: 3, constraint: Constraint::Onset(Onset) },
    ];
    assert_eq!(ranked[0].evaluate(surface.clone()), 7);
    assert_eq!(ranked[1].evaluate(surface.clone()), 1);
    assert_eq!(ranked[2].evaluate(surface.clone()), 2);
    // the sum ignores the ranks entirely
    assert_eq!(yoruba_ot::evaluate_all(&ranked, &surface), 10);
}

#[test]
fn morph_type_replaces_only_the_syllable_role() {
    let s = seg("t");
    let m = s.morph_type(SyllableIndex::Coda);
    assert_eq!(m.syllable_index, SyllableIndex::Coda);
    assert_eq!(m.grapheme, "t");
    assert_eq!(m.seg_type, SegmentType::Consonant);
    assert_eq!(m.morpheme_index, UnderlyingIndex::Interior);
}

#[test]
fn serialization_round_trips_content() {
    for text in ["", "test", "owo\u{301}ki\u{301}owo\u{301}", "owoktwiowo", "d\u{361}\u{292}a"] {
        assert_eq!(cand(text).to_text(), text);
    }
}
