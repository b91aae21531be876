//! Types for candidates' priority.

use vstd::prelude::*;

verus! {

/// A score of a candidate's potential.
///
/// A score worth trying is an exact fraction, `numerator / denominator`.
#[derive(Clone, Copy, Debug, PartialEq, Eq)]
pub enum Score {
    /// We should try testing this candidate. Higher is better: more likely to
    /// be judged interesting and a bigger candidate.
    TryIt { numerator: u64, denominator: u64 },
    /// This candidate isn't even worth testing.
    SkipIt,
}

/// A score is well formed when its denominator is not zero.
pub open spec fn well_formed(s: Score) -> bool {
    match s {
        Score::TryIt { numerator, denominator } => denominator > 0,
        Score::SkipIt => true,
    }
}

/// Whether score `a` ranks strictly below score `b`: skipping ranks below
/// everything worth trying, and scores worth trying rank by their value.
pub open spec fn ranks_below(a: Score, b: Score) -> bool {
    match (a, b) {
        (Score::SkipIt, Score::SkipIt) => false,
        (Score::SkipIt, Score::TryIt { .. }) => true,
        (Score::TryIt { .. }, Score::SkipIt) => false,
        (Score::TryIt { numerator: n1, denominator: d1 }, Score::TryIt { numerator: n2, denominator: d2 }) => n1 * d2 < n2 * d1,
    }
}

/// The product of two 64-bit numbers fits in 128 bits.
proof fn lemma_product_fits(a: u64, b: u64)
    ensures
        0 <= a * b <= u128::MAX,
{
    assert(0 <= a * b <= 0xffff_ffff_ffff_ffffu128 * 0xffff_ffff_ffff_ffffu128) by (nonlinear_arith)
        requires
            a <= 0xffff_ffff_ffff_ffffu64,
            b <= 0xffff_ffff_ffff_ffffu64,
    ;
}

impl Score {
    /// Construct a score worth trying: `numerator / denominator`.
    pub fn ratio(numerator: u64, denominator: u64) -> (s: Score)
        requires
            denominator > 0,
        ensures
            s == (Score::TryIt { numerator, denominator }),
            well_formed(s),
    {
        Score::TryIt { numerator, denominator }
    }

    /// Construct a new `Score` that will result in the candidate being
    /// ignored.
    pub fn skip() -> (s: Score)
        ensures
            s == Score::SkipIt,
    {
        Score::SkipIt
    }

    /// Whether this score ranks strictly below `other`.
    pub fn is_below(&self, other: &Score) -> (b: bool)
        ensures
            b == ranks_below(*self, *other),
    {
        match (self, other) {
            (Score::SkipIt, Score::SkipIt) => false,
            (Score::SkipIt, Score::TryIt { .. }) => true,
            (Score::TryIt { .. }, Score::SkipIt) => false,
            (
                Score::TryIt { numerator: n1, denominator: d1 },
                Score::TryIt { numerator: n2, denominator: d2 },
            ) => {
                proof {
                    lemma_product_fits(*n1, *d2);
                    lemma_product_fits(*n2, *d1);
                }
                let a: u128 = (*n1 as u128) * (*d2 as u128);
                let b: u128 = (*n2 as u128) * (*d1 as u128);
                a < b
            },
        }
    }
}

/// Ranking below is transitive.
pub proof fn lemma_ranks_below_transitive(a: Score, b: Score, c: Score)
    requires
        ranks_below(a, b),
        ranks_below(b, c),
    ensures
        ranks_below(a, c),
{
    match (a, b, c) {
        (
            Score::TryIt { numerator: n1, denominator: d1 },
            Score::TryIt { numerator: n2, denominator: d2 },
            Score::TryIt { numerator: n3, denominator: d3 },
        ) => {
            lemma_cross_transitive(n1 as int, d1 as int, n2 as int, d2 as int, n3 as int, d3 as int);
        },
        _ => {},
    }
}

proof fn lemma_cross_transitive(n1: int, d1: int, n2: int, d2: int, n3: int, d3: int)
    requires
        n1 * d2 < n2 * d1,
        n2 * d3 < n3 * d2,
        n1 >= 0,
        n2 >= 0,
        n3 >= 0,
        d1 >= 0,
        d2 >= 0,
        d3 >= 0,
    ensures
        n1 * d3 < n3 * d1,
{
    assert(d1 > 0) by (nonlinear_arith)
        requires
            n1 * d2 < n2 * d1,
            n1 >= 0,
            d2 >= 0,
            d1 >= 0,
    ;
    assert(d2 > 0) by (nonlinear_arith)
        requires
            n2 * d3 < n3 * d2,
            n2 >= 0,
            d3 >= 0,
            d2 >= 0,
    ;
    assert(n1 * d2 * d3 <= n2 * d1 * d3) by (nonlinear_arith)
        requires
            n1 * d2 < n2 * d1,
            d3 >= 0,
    ;
    assert(n2 * d3 * d1 < n3 * d2 * d1) by (nonlinear_arith)
        requires
            n2 * d3 < n3 * d2,
            d1 > 0,
    ;
    assert(n1 * d3 < n3 * d1) by (nonlinear_arith)
        requires
            n1 * d2 * d3 <= n2 * d1 * d3,
            n2 * d3 * d1 < n3 * d2 * d1,
            d2 > 0,
    ;
}

/// Ranking below is asymmetric: of two scores, at most one ranks below the
/// other.
pub proof fn lemma_ranks_below_asymmetric(a: Score, b: Score)
    ensures
        !ranks_below(a, b) || !ranks_below(b, a),
{
}

/// Scores worth trying rank by the value of their fraction, whatever the
/// denominators: two fractions with the same denominator rank by their
/// numerators, and multiplying the numerator and denominator of either score
/// by the same positive number (the same value, written another way) does
/// not change how it ranks against the other.
pub proof fn lemma_ranks_by_value(n1: u64, d1: u64, n2: u64, d2: u64, k: u64)
    requires
        k > 0,
        k * n1 <= u64::MAX,
        k * d1 <= u64::MAX,
        k * n2 <= u64::MAX,
        k * d2 <= u64::MAX,
    ensures
        d1 > 0 ==> (ranks_below(
            Score::TryIt { numerator: n1, denominator: d1 },
            Score::TryIt { numerator: n2, denominator: d1 },
        ) <==> n1 < n2),
        ranks_below(
            Score::TryIt { numerator: (k * n1) as u64, denominator: (k * d1) as u64 },
            Score::TryIt { numerator: n2, denominator: d2 },
        ) == ranks_below(
            Score::TryIt { numerator: n1, denominator: d1 },
            Score::TryIt { numerator: n2, denominator: d2 },
        ),
        ranks_below(
            Score::TryIt { numerator: n1, denominator: d1 },
            Score::TryIt { numerator: (k * n2) as u64, denominator: (k * d2) as u64 },
        ) == ranks_below(
            Score::TryIt { numerator: n1, denominator: d1 },
            Score::TryIt { numerator: n2, denominator: d2 },
        ),
{
    if d1 > 0 {
        assert(n1 * d1 < n2 * d1 <==> n1 < n2) by (nonlinear_arith)
            requires
                d1 > 0,
        ;
    }
    assert((k * n1) * d2 < n2 * (k * d1) <==> n1 * d2 < n2 * d1) by (nonlinear_arith)
        requires
            k > 0,
    ;
    assert(n1 * (k * d2) < (k * n2) * d1 <==> n1 * d2 < n2 * d1) by (nonlinear_arith)
        requires
            k > 0,
    ;
}

/// A candidate not worth testing ranks below every candidate worth trying,
/// and nothing ranks below it: such candidates leave the queue last.
pub proof fn lemma_skip_ranks_last(s: Score)
    ensures
        s is TryIt ==> ranks_below(Score::SkipIt, s),
        !ranks_below(s, Score::SkipIt),
{
}

} // verus!
