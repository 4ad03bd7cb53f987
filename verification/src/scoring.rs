//! Scoring of an open-market insider filing.
use vstd::prelude::*;

use crate::types::SignalStrength;

verus! {

/// Where a filing's notional value (shares times price) falls with respect to
/// the engine's two thresholds. Computed by the caller from the filing's
/// amounts: `Unpriced` when the filing carries no price, `BelowMinimum` when
/// the notional is below the minimum, `Large` when it reaches the strong
/// threshold, and `Standard` otherwise.
#[derive(Debug, Clone, Copy, PartialEq, Eq, Structural)]
pub enum NotionalTier {
    Unpriced,
    BelowMinimum,
    Standard,
    Large,
}

/// Points for the insider's role: officers 2, directors 1, 10%-owners 1
/// (these are presumed to have the most information content).
pub open spec fn role_points(is_officer: bool, is_director: bool, is_ten_pct_owner: bool) -> int {
    (if is_officer { 2int } else { 0int }) + (if is_director { 1int } else { 0int }) + (if is_ten_pct_owner {
        1int
    } else {
        0int
    })
}

/// Points for the size of the trade: 6 at or above the strong threshold
/// (enough on its own for a strong signal), 1 otherwise.
pub open spec fn size_points(large: bool) -> int {
    if large {
        6
    } else {
        1
    }
}

/// Points for cluster buying/selling: 4 for three or more distinct insiders in
/// the window, 2 for two, none for a lone insider.
pub open spec fn cluster_points(cluster: int) -> int {
    if cluster >= 3 {
        4
    } else if cluster == 2 {
        2
    } else {
        0
    }
}

/// The total score of a filing.
pub open spec fn filing_score(
    is_officer: bool,
    is_director: bool,
    is_ten_pct_owner: bool,
    large: bool,
    cluster: int,
) -> int {
    role_points(is_officer, is_director, is_ten_pct_owner) + size_points(large) + cluster_points(cluster)
}

/// The strength bucket of a score: 0..=2 weak, 3..=5 moderate, above strong.
pub open spec fn strength_for(score: int) -> SignalStrength {
    if score <= 2 {
        SignalStrength::Weak
    } else if score <= 5 {
        SignalStrength::Moderate
    } else {
        SignalStrength::Strong
    }
}

/// The order of the strength buckets.
pub open spec fn strength_rank(s: SignalStrength) -> int {
    match s {
        SignalStrength::Weak => 0,
        SignalStrength::Moderate => 1,
        SignalStrength::Strong => 2,
    }
}

/// Scores a filing from its insider's roles, its size and the number of
/// distinct insiders trading the same way in the current window.
pub fn score_points(
    is_officer: bool,
    is_director: bool,
    is_ten_pct_owner: bool,
    large: bool,
    cluster: usize,
) -> (score: u32)
    ensures
        score == filing_score(is_officer, is_director, is_ten_pct_owner, large, cluster as int),
{
    let mut score: u32 = 0;
    if is_officer {
        score += 2;
    }
    if is_director {
        score += 1;
    }
    if is_ten_pct_owner {
        score += 1;
    }
    if large {
        score += 6;
    } else {
        score += 1;
    }
    if cluster >= 3 {
        score += 4;
    } else if cluster == 2 {
        score += 2;
    }
    score
}

/// Maps a score to its strength bucket.
pub fn strength_of_score(score: u32) -> (s: SignalStrength)
    ensures
        s == strength_for(score as int),
{
    if score <= 2 {
        SignalStrength::Weak
    } else if score <= 5 {
        SignalStrength::Moderate
    } else {
        SignalStrength::Strong
    }
}

/// A score never decreases when the insider holds more roles, the trade is
/// larger, or more distinct insiders trade the same way; and a higher score
/// never maps to a weaker bucket.
pub proof fn lemma_score_monotone(
    o1: bool, d1: bool, t1: bool, l1: bool, c1: int,
    o2: bool, d2: bool, t2: bool, l2: bool, c2: int,
)
    requires
        o1 ==> o2,
        d1 ==> d2,
        t1 ==> t2,
        l1 ==> l2,
        c1 <= c2,
    ensures
        filing_score(o1, d1, t1, l1, c1) <= filing_score(o2, d2, t2, l2, c2),
        strength_rank(strength_for(filing_score(o1, d1, t1, l1, c1))) <= strength_rank(
            strength_for(filing_score(o2, d2, t2, l2, c2)),
        ),
{
}

/// A score's bucket is monotone in the score.
pub proof fn lemma_strength_monotone(a: int, b: int)
    requires
        a <= b,
    ensures
        strength_rank(strength_for(a)) <= strength_rank(strength_for(b)),
{
}

/// A notional at or above the strong threshold is enough on its own for a
/// strong signal; and cluster buying/selling is weighted heavily: three or
/// more distinct insiders make any filing at least moderate.
pub proof fn lemma_cluster_and_size_weight(o: bool, d: bool, t: bool, large: bool, cluster: int)
    ensures
        cluster >= 3 ==> strength_rank(strength_for(filing_score(o, d, t, large, cluster))) >= 1,
        large ==> strength_for(filing_score(o, d, t, large, cluster)) == SignalStrength::Strong,
        filing_score(o, d, t, large, cluster) >= 1,
{
}

/// Each part of the score is a fixed weight, independent of the others: an
/// officer adds exactly 2 points, a director exactly 1, a 10%-owner exactly
/// 1; a notional at or above the strong threshold adds exactly 5 more than
/// one below it; two distinct insiders add exactly 2 and three or more
/// exactly 4 over a lone insider; and a lone insider with no role and a
/// standard notional scores exactly 1.
pub proof fn lemma_score_weights(o: bool, d: bool, t: bool, large: bool, cluster: int)
    ensures
        filing_score(o, d, t, large, cluster) - filing_score(false, d, t, large, cluster) == (if o { 2int } else { 0int }),
        filing_score(o, d, t, large, cluster) - filing_score(o, false, t, large, cluster) == (if d { 1int } else { 0int }),
        filing_score(o, d, t, large, cluster) - filing_score(o, d, false, large, cluster) == (if t { 1int } else { 0int }),
        filing_score(o, d, t, true, cluster) - filing_score(o, d, t, false, cluster) == 5,
        filing_score(o, d, t, large, cluster) - filing_score(o, d, t, large, 1) == (if cluster >= 3 {
            4int
        } else if cluster == 2 {
            2int
        } else {
            0int
        }),
        filing_score(false, false, false, false, 1) == 1,
{
}

/// The buckets split the scores at 2 and 5: at most 2 is weak, 3 to 5 is
/// moderate, 6 or more is strong.
pub proof fn lemma_strength_thresholds(score: int)
    ensures
        strength_for(score) == SignalStrength::Weak <==> score <= 2,
        strength_for(score) == SignalStrength::Moderate <==> 3 <= score <= 5,
        strength_for(score) == SignalStrength::Strong <==> score >= 6,
{
}

} // verus!
