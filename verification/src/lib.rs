//! An Optimality-Theory evaluator for the syllabification of a tone-language
//! orthography: a segment model parsed from raw text, a three-pass
//! syllabifier, deletion-based candidate generation, and a library of
//! violation-counting constraints.

pub mod candidate;
pub mod constraint;
pub mod model;
pub mod syllable;

pub use candidate::SyllabifiedCandidate;
pub use constraint::{
    Constraint, Dep, Ident, Max, MaxFinalV, MaxInitialV, Onset, RankedConstraint, SonSeqPr,
    Syllabify, evaluate_all,
};
pub use model::{Segment, SegmentType, SyllableIndex, UnderlyingIndex, get_seg_type};
pub use syllable::{mark_codas, mark_onsets, mark_vowels, syllabify};
