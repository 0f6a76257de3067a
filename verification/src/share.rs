//! Shares of a whole, kept exactly.
use vstd::prelude::*;

verus! {

/// A part of a whole. Of nothing at all there is no part.
#[derive(Clone, Copy, Debug, PartialEq, Eq, Structural)]
pub struct Share {
    pub part: u64,
    pub whole: u64,
}

impl Share {
    /// What is counted of the whole.
    pub open spec fn top(&self) -> int {
        if self.whole == 0 {
            0
        } else {
            self.part as int
        }
    }

    /// What it is counted against.
    pub open spec fn bottom(&self) -> int {
        if self.whole == 0 {
            1
        } else {
            self.whole as int
        }
    }

    /// Whether one share is no larger than another.
    pub open spec fn at_most(&self, other: &Share) -> bool {
        self.top() * other.bottom() <= other.top() * self.bottom()
    }

    /// Nothing.
    pub open spec fn nothing() -> Share {
        Share { part: 0, whole: 1 }
    }

    /// All of it.
    pub open spec fn everything() -> Share {
        Share { part: 1, whole: 1 }
    }

    /// The larger of two shares.
    pub open spec fn larger(self, other: Share) -> Share {
        if other.at_most(&self) {
            self
        } else {
            other
        }
    }

    /// A share between nothing and all of it.
    pub open spec fn clamped(self) -> Share {
        if Self::everything().at_most(&self) {
            Self::everything()
        } else {
            self
        }
    }

    /// A part of a whole.
    pub fn new(part: u64, whole: u64) -> (r: Self)
        ensures
            r == (Share { part, whole }),
    {
        Share { part, whole }
    }

    /// Whether one share is no larger than another.
    pub fn is_at_most(&self, other: &Share) -> (r: bool)
        ensures
            r == self.at_most(other),
    {
        let top: u128 = if self.whole == 0 { 0 } else { self.part as u128 };
        let bottom: u128 = if self.whole == 0 { 1 } else { self.whole as u128 };
        let other_top: u128 = if other.whole == 0 { 0 } else { other.part as u128 };
        let other_bottom: u128 = if other.whole == 0 { 1 } else { other.whole as u128 };
        proof {
            lemma_product_fits(top as int, other_bottom as int);
            lemma_product_fits(other_top as int, bottom as int);
        }
        top * other_bottom <= other_top * bottom
    }

    /// The larger of two shares.
    pub fn max(self, other: Share) -> (r: Share)
        ensures
            r == self.larger(other),
    {
        if other.is_at_most(&self) {
            self
        } else {
            other
        }
    }

    /// A share between nothing and all of it.
    pub fn clamp(self) -> (r: Share)
        ensures
            r == self.clamped(),
    {
        let all = Share { part: 1, whole: 1 };
        if all.is_at_most(&self) {
            all
        } else {
            self
        }
    }
}

proof fn lemma_product_fits(a: int, b: int)
    requires
        0 <= a <= u64::MAX,
        0 <= b <= u64::MAX,
    ensures
        0 <= a * b <= u128::MAX,
{
    assert(0 <= a * b <= u64::MAX * u64::MAX) by (nonlinear_arith)
        requires
            0 <= a <= u64::MAX,
            0 <= b <= u64::MAX,
    ;
}

/// Sizes of shares can be put in a row: what is no larger than a second, which
/// is no larger than a third, is no larger than the third.
pub proof fn law_shares_are_ordered(a: Share, b: Share, c: Share)
    ensures
        a.at_most(&a),
        a.at_most(&b) || b.at_most(&a),
        a.at_most(&b) && b.at_most(&c) ==> a.at_most(&c),
{
    let (at, ab) = (a.top(), a.bottom());
    let (bt, bb) = (b.top(), b.bottom());
    let (ct, cb) = (c.top(), c.bottom());
    if a.at_most(&b) && b.at_most(&c) {
        assert(at * cb <= ct * ab) by (nonlinear_arith)
            requires
                at * bb <= bt * ab,
                bt * cb <= ct * bb,
                ab > 0,
                bb > 0,
                cb > 0,
                at >= 0,
                bt >= 0,
                ct >= 0,
        {
            assert((at * bb) * cb <= (bt * ab) * cb);
            assert((bt * cb) * ab <= (ct * bb) * ab);
            assert((at * cb) * bb <= (ct * ab) * bb);
        }
    }
}

/// The larger of two shares is at least each of them.
pub proof fn law_the_larger_is_at_least_both(a: Share, b: Share)
    ensures
        a.at_most(&a.larger(b)),
        b.at_most(&a.larger(b)),
        a.larger(b) == a || a.larger(b) == b,
{
}

/// One share is at most another where its part, counted in the other's whole,
/// is; a share of nothing at all is no more than any.
pub proof fn law_shares_are_compared_by_their_parts(a: Share, b: Share)
    ensures
        a.whole > 0 && b.whole > 0 ==> (a.at_most(&b) <==> a.part * b.whole <= b.part * a.whole),
        a.whole == 0 ==> a.at_most(&b),
        b.whole == 0 && a.whole > 0 ==> (a.at_most(&b) <==> a.part == 0),
        a.at_most(&b) && !b.at_most(&a) ==> a.larger(b) == b && b.larger(a) == b,
        a.at_most(&b) && b.at_most(&a) ==> a.larger(b) == a,
{
    if a.whole == 0 {
        assert(0 * b.bottom() <= b.top() * 1);
    }
}

/// A share is clamped to the whole: more than all of it is all of it, and less
/// is kept.
pub proof fn law_no_share_is_more_than_everything(a: Share)
    ensures
        a.whole > 0 && a.part < a.whole ==> a.clamped() == a,
        a.whole > 0 && a.part >= a.whole ==> a.clamped().part == 1 && a.clamped().whole == 1,
        a.whole == 0 ==> a.clamped() == a,
        Share::nothing().part == 0 && Share::nothing().whole == 1,
        Share::everything().part == 1 && Share::everything().whole == 1,
{
}

} // verus!
