use vstd::prelude::*;
use vstd::string::StrSliceExecFns;

verus! {

/// Syllable role carried by a segment; `Unassigned` is both the initial state
/// and the terminal state of material the syllabifier could not place.
#[derive(Clone, Copy, Debug, PartialEq, Eq, Structural)]
pub enum SyllableIndex {
    Onset,
    Nucleus,
    Coda,
    Unassigned,
}

/// Whether a grapheme belongs to the seven-symbol oral-vowel set.
#[derive(Clone, Copy, Debug, PartialEq, Eq, Structural)]
pub enum SegmentType {
    Vowel,
    Consonant,
}

/// Position of a segment relative to the underlying form it was parsed from;
/// read only by the edge-faithfulness constraints.
#[derive(Clone, Copy, Debug, PartialEq, Eq, Structural)]
pub enum UnderlyingIndex {
    Initial,
    Final,
    Interior,
}

/// One extended grapheme cluster of the input together with its tags.
#[derive(Debug, PartialEq, Eq)]
pub struct Segment {
    pub grapheme: String,
    pub syllable_index: SyllableIndex,
    pub seg_type: SegmentType,
    pub morpheme_index: UnderlyingIndex,
}

/// Mathematical model of a segment: the grapheme as a character sequence plus
/// the same three tags.
#[verifier::ext_equal]
pub struct SegView {
    pub grapheme: Seq<char>,
    pub syllable_index: SyllableIndex,
    pub seg_type: SegmentType,
    pub morpheme_index: UnderlyingIndex,
}

impl View for Segment {
    type V = SegView;

    open spec fn view(&self) -> SegView {
        SegView {
            grapheme: self.grapheme@,
            syllable_index: self.syllable_index,
            seg_type: self.seg_type,
            morpheme_index: self.morpheme_index,
        }
    }
}

/// The seven oral vowels of the orthography. An accented vowel is a larger
/// grapheme cluster and therefore not in this set.
pub open spec fn is_vowel_char(c: char) -> bool {
    c == 'o' || c == '\u{25B}' || c == '\u{254}' || c == 'i' || c == 'u' || c == 'a' || c == 'e'
}

/// A grapheme counts as a vowel exactly when it is a single character from the
/// oral-vowel set.
pub open spec fn is_vowel_spec(g: Seq<char>) -> bool {
    g.len() == 1 && is_vowel_char(g[0])
}

/// Classification of a grapheme: vowel if in the oral-vowel set, else consonant.
pub open spec fn seg_type_spec(g: Seq<char>) -> SegmentType {
    if is_vowel_spec(g) {
        SegmentType::Vowel
    } else {
        SegmentType::Consonant
    }
}

/// The same segment with a different syllable role.
pub open spec fn with_syll(s: SegView, role: SyllableIndex) -> SegView {
    SegView {
        grapheme: s.grapheme,
        syllable_index: role,
        seg_type: s.seg_type,
        morpheme_index: s.morpheme_index,
    }
}

/// The same segment with a different morpheme-position tag.
pub open spec fn with_morph(s: SegView, pos: UnderlyingIndex) -> SegView {
    SegView {
        grapheme: s.grapheme,
        syllable_index: s.syllable_index,
        seg_type: s.seg_type,
        morpheme_index: pos,
    }
}

/// Decide whether a grapheme is one of the seven oral vowels.
pub fn is_vowel(g: &str) -> (r: bool)
    ensures
        r == is_vowel_spec(g@),
{
    if g.unicode_len() == 1 {
        let c = g.get_char(0);
        c == 'o' || c == '\u{25B}' || c == '\u{254}' || c == 'i' || c == 'u' || c == 'a' || c == 'e'
    } else {
        false
    }
}

/// Classify a grapheme as vowel or consonant.
pub fn get_seg_type(grapheme: &str) -> (r: SegmentType)
    ensures
        r == seg_type_spec(grapheme@),
{
    if is_vowel(grapheme) {
        SegmentType::Vowel
    } else {
        SegmentType::Consonant
    }
}

impl Segment {
    /// A copy of this segment carrying the given syllable role.
    pub fn morph_type(&self, seg_type: SyllableIndex) -> (r: Segment)
        ensures
            r@ == with_syll(self@, seg_type),
    {
        let r = Segment {
            grapheme: self.grapheme.clone(),
            syllable_index: seg_type,
            seg_type: self.seg_type,
            morpheme_index: self.morpheme_index,
        };
        proof {
            assert(r@ =~= with_syll(self@, seg_type));
        }
        r
    }
}

impl Clone for Segment {
    /// Clones every field; the clone models identically to the original.
    fn clone(&self) -> (r: Self)
        ensures
            r@ == self@,
    {
        let r = Segment {
            grapheme: self.grapheme.clone(),
            syllable_index: self.syllable_index,
            seg_type: self.seg_type,
            morpheme_index: self.morpheme_index,
        };
        proof {
            assert(r@ =~= self@);
        }
        r
    }
}

} // verus!
