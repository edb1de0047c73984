//! The frequency score: a weighted sum over a priority record.

use vstd::prelude::*;
use crate::dictionary::{Priority, PriorityInCorpus};

verus! {

/// What one corpus adds to the score: `primary` where the word is listed as
/// primary, `secondary` where it is listed as secondary, nothing otherwise.
pub open spec fn corpus_weight(presence: PriorityInCorpus, primary: nat, secondary: nat) -> nat {
    match presence {
        PriorityInCorpus::Primary => primary,
        PriorityInCorpus::Secondary => secondary,
        PriorityInCorpus::Absent => 0,
    }
}

/// What the frequency bucket adds: a thousand for each step below fifty,
/// nothing for an unranked word.
pub open spec fn bucket_weight(bucket: u16) -> nat {
    if 0 < bucket <= 50 {
        ((50 - bucket) * 1000) as nat
    } else {
        0
    }
}

/// The frequency score of a priority record.
pub open spec fn frequency_score(p: Priority) -> nat {
    bucket_weight(p.frequency_bucket) + corpus_weight(p.news, 500, 200) + corpus_weight(
        p.ichimango,
        500,
        200,
    ) + corpus_weight(p.loanwords, 300, 100) + corpus_weight(p.additional, 400, 150)
}

/// The highest score that a well-formed record can reach.
pub const MAX_FREQUENCY_SCORE: u32 = 50700;

/// What one corpus adds to the score.
pub fn corpus_points(presence: PriorityInCorpus, primary: u32, secondary: u32) -> (points: u32)
    ensures
        points == corpus_weight(presence, primary as nat, secondary as nat),
{
    match presence {
        PriorityInCorpus::Primary => primary,
        PriorityInCorpus::Secondary => secondary,
        PriorityInCorpus::Absent => 0,
    }
}

/// Computes the frequency score of a priority record.
pub fn calculate_frequency_score(priority: &Priority) -> (score: u32)
    requires
        priority.well_formed(),
    ensures
        score == frequency_score(*priority),
        score <= MAX_FREQUENCY_SCORE,
{
    let mut score: u32 = 0;
    if priority.frequency_bucket > 0 {
        let bucket: u32 = priority.frequency_bucket as u32;
        score = (50 - bucket) * 1000;
    }
    score = score + corpus_points(priority.news, 500, 200);
    score = score + corpus_points(priority.ichimango, 500, 200);
    score = score + corpus_points(priority.loanwords, 300, 100);
    score = score + corpus_points(priority.additional, 400, 150);
    score
}

} // verus!
