//! Frecency: a score that grows with the number of visits and decays with
//! the time since the last one.
//!
//! The score of a record visited `n` times, last `t` seconds ago, is
//! `10000 * n * (15/4) / (t/10000 + 5/4)`. Cleared of its inner fractions
//! this is the exact fraction `375000000 * n / (t + 12500)`, and that is the
//! form kept here: two scores are compared by cross-multiplication, with no
//! rounding.

use vstd::prelude::*;

verus! {

/// What one visit adds to the numerator of a score.
pub const VISIT_WEIGHT: i128 = 375_000_000;

/// What the denominator of a score holds besides the elapsed seconds.
pub const DECAY_OFFSET: u128 = 12_500;

/// A score as an exact fraction. The denominator of every score is positive.
pub struct Frecency {
    pub numerator: int,
    pub denominator: int,
}

impl Frecency {
    /// `self` is the strictly greater fraction.
    pub open spec fn exceeds(self, other: Frecency) -> bool {
        self.numerator * other.denominator > other.numerator * self.denominator
    }

    /// The two fractions are equal.
    pub open spec fn ties(self, other: Frecency) -> bool {
        self.numerator * other.denominator == other.numerator * self.denominator
    }
}

/// Seconds from `last_access` to `now`, and zero where `last_access` lies in
/// the future.
pub open spec fn elapsed_seconds(last_access: int, now: int) -> int {
    if now > last_access {
        now - last_access
    } else {
        0
    }
}

/// The score at `now` of a record visited `access_count` times, last at
/// `last_access`.
pub open spec fn frecency(access_count: int, last_access: int, now: int) -> Frecency {
    Frecency {
        numerator: 375_000_000 * access_count,
        denominator: elapsed_seconds(last_access, now) + 12_500,
    }
}

/// A score in executable form: the visit count and the clamped age that
/// determine it.
#[derive(Clone, Copy, Debug)]
pub struct Score {
    pub access_count: i64,
    pub elapsed: u64,
}

impl View for Score {
    type V = Frecency;

    open spec fn view(&self) -> Frecency {
        Frecency {
            numerator: 375_000_000 * (self.access_count as int),
            denominator: self.elapsed as int + 12_500,
        }
    }
}

impl Score {
    /// The numerator of the score's exact fraction.
    pub fn numerator(&self) -> (n: i128)
        ensures
            n as int == self@.numerator,
    {
        VISIT_WEIGHT * (self.access_count as i128)
    }

    /// The denominator of the score's exact fraction.
    pub fn denominator(&self) -> (d: u128)
        ensures
            d as int == self@.denominator,
            d > 0,
    {
        self.elapsed as u128 + DECAY_OFFSET
    }

    /// Whether this score is strictly greater than `other`.
    pub fn is_above(&self, other: &Score) -> (above: bool)
        ensures
            above == self@.exceeds(other@),
    {
        let own: u128 = self.elapsed as u128 + DECAY_OFFSET;
        let theirs: u128 = other.elapsed as u128 + DECAY_OFFSET;
        proof {
            lemma_scaled_order(
                self.access_count as int,
                theirs as int,
                other.access_count as int,
                own as int,
            );
        }
        if self.access_count >= 0 && other.access_count >= 0 {
            let a: u128 = self.access_count as u128;
            let b: u128 = other.access_count as u128;
            assert(a * theirs <= 0x7fff_ffff_ffff_ffff * 0x1_0000_0000_0000_30d3) by (nonlinear_arith)
                requires
                    a <= 0x7fff_ffff_ffff_ffff,
                    theirs <= 0x1_0000_0000_0000_30d3,
            ;
            assert(b * own <= 0x7fff_ffff_ffff_ffff * 0x1_0000_0000_0000_30d3) by (nonlinear_arith)
                requires
                    b <= 0x7fff_ffff_ffff_ffff,
                    own <= 0x1_0000_0000_0000_30d3,
            ;
            a * theirs > b * own
        } else if self.access_count >= 0 {
            assert(self.access_count * theirs >= 0 > other.access_count * own) by (nonlinear_arith)
                requires
                    self.access_count >= 0,
                    theirs > 0,
                    other.access_count < 0,
                    own > 0,
            ;
            true
        } else if other.access_count >= 0 {
            assert(self.access_count * theirs < 0 <= other.access_count * own) by (nonlinear_arith)
                requires
                    self.access_count < 0,
                    theirs > 0,
                    other.access_count >= 0,
                    own > 0,
            ;
            false
        } else {
            let a: u128 = (-(self.access_count as i128)) as u128;
            let b: u128 = (-(other.access_count as i128)) as u128;
            assert(a * theirs <= 0x8000_0000_0000_0000 * 0x1_0000_0000_0000_30d3) by (nonlinear_arith)
                requires
                    a <= 0x8000_0000_0000_0000,
                    theirs <= 0x1_0000_0000_0000_30d3,
            ;
            assert(b * own <= 0x8000_0000_0000_0000 * 0x1_0000_0000_0000_30d3) by (nonlinear_arith)
                requires
                    b <= 0x8000_0000_0000_0000,
                    own <= 0x1_0000_0000_0000_30d3,
            ;
            assert(self.access_count * theirs == -(a * theirs)) by (nonlinear_arith)
                requires
                    a == -self.access_count,
            ;
            assert(other.access_count * own == -(b * own)) by (nonlinear_arith)
                requires
                    b == -other.access_count,
            ;
            a * theirs < b * own
        }
    }
}

/// The score at `now` of a record visited `access_count` times, last at
/// `last_access`. A `last_access` in the future counts as `now`.
pub fn score(access_count: i64, last_access: i64, now: i64) -> (s: Score)
    ensures
        s@ == frecency(access_count as int, last_access as int, now as int),
        s.access_count == access_count,
        s.elapsed as int == elapsed_seconds(last_access as int, now as int),
{
    let elapsed: u64 = if now > last_access {
        (now as i128 - last_access as i128) as u64
    } else {
        0
    };
    Score { access_count, elapsed }
}

/// Scaling both sides of a comparison by the visit weight keeps its outcome.
proof fn lemma_scaled_order(a: int, x: int, b: int, y: int)
    ensures
        ((375_000_000 * a) * x > (375_000_000 * b) * y) == (a * x > b * y),
{
    assert((375_000_000 * a) * x == 375_000_000 * (a * x)) by (nonlinear_arith);
    assert((375_000_000 * b) * y == 375_000_000 * (b * y)) by (nonlinear_arith);
}

/// Of two scores exactly one exceeds the other, or they tie.
pub proof fn lemma_exceeds_total(a: Frecency, b: Frecency)
    ensures
        a.exceeds(b) || b.exceeds(a) || a.ties(b),
        !(a.exceeds(b) && b.exceeds(a)),
        a.ties(b) == b.ties(a),
        a.ties(b) ==> !a.exceeds(b) && !b.exceeds(a),
{
}

/// Among scores with positive denominators: where `b` does not exceed `a` and
/// `c` does not exceed `b`, `c` does not exceed `a`.
pub proof fn lemma_not_below_transitive(a: Frecency, b: Frecency, c: Frecency)
    requires
        a.denominator > 0,
        b.denominator > 0,
        c.denominator > 0,
        !b.exceeds(a),
        !c.exceeds(b),
    ensures
        !c.exceeds(a),
        (a.exceeds(b) || b.exceeds(c)) ==> a.exceeds(c),
{
    let (an, ad) = (a.numerator, a.denominator);
    let (bn, bd) = (b.numerator, b.denominator);
    let (cn, cd) = (c.numerator, c.denominator);
    // bn * ad <= an * bd and cn * bd <= bn * cd
    assert((bn * ad) * cd <= (an * bd) * cd) by (nonlinear_arith)
        requires
            bn * ad <= an * bd,
            cd > 0,
    ;
    assert((cn * bd) * ad <= (bn * cd) * ad) by (nonlinear_arith)
        requires
            cn * bd <= bn * cd,
            ad > 0,
    ;
    assert((bn * ad) * cd == (bn * cd) * ad) by (nonlinear_arith);
    assert((cn * bd) * ad == (cn * ad) * bd) by (nonlinear_arith);
    assert((an * bd) * cd == (an * cd) * bd) by (nonlinear_arith);
    assert(cn * ad <= an * cd) by (nonlinear_arith)
        requires
            (cn * ad) * bd <= (an * cd) * bd,
            bd > 0,
    ;
    if a.exceeds(b) {
        assert((bn * ad) * cd < (an * bd) * cd) by (nonlinear_arith)
            requires
                bn * ad < an * bd,
                cd > 0,
        ;
        assert(cn * ad < an * cd) by (nonlinear_arith)
            requires
                (cn * ad) * bd < (an * cd) * bd,
                bd > 0,
        ;
    }
    if b.exceeds(c) {
        assert((cn * bd) * ad < (bn * cd) * ad) by (nonlinear_arith)
            requires
                cn * bd < bn * cd,
                ad > 0,
        ;
        assert(cn * ad < an * cd) by (nonlinear_arith)
            requires
                (cn * ad) * bd < (an * cd) * bd,
                bd > 0,
        ;
    }
}

/// For a record that was visited at least once, the score strictly falls as
/// the time since its last visit grows.
pub proof fn lemma_score_falls_with_age(access_count: int, last_access: int, sooner: int, later: int)
    requires
        access_count >= 1,
        elapsed_seconds(last_access, sooner) < elapsed_seconds(last_access, later),
    ensures
        frecency(access_count, last_access, sooner).exceeds(
            frecency(access_count, last_access, later),
        ),
{
    let n = 375_000_000 * access_count;
    let near = elapsed_seconds(last_access, sooner) + 12_500;
    let far = elapsed_seconds(last_access, later) + 12_500;
    assert(n * far > n * near) by (nonlinear_arith)
        requires
            n > 0,
            far > near,
    ;
}

/// At a fixed time since the last visit, the score strictly rises with the
/// number of visits.
pub proof fn lemma_score_rises_with_count(fewer: int, more: int, last_access: int, now: int)
    requires
        fewer < more,
    ensures
        frecency(more, last_access, now).exceeds(frecency(fewer, last_access, now)),
{
    let d = elapsed_seconds(last_access, now) + 12_500;
    assert((375_000_000 * more) * d > (375_000_000 * fewer) * d) by (nonlinear_arith)
        requires
            fewer < more,
            d > 0,
    ;
}

} // verus!
