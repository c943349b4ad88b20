//! A measured overlap between 0 and 1, held as an exact ratio of two counts.
use vstd::prelude::*;

use crate::text::{padded_decimal, push_padded_decimal, push_str, string_of};
use crate::threshold::{pow10, Threshold};

verus! {

/// How much two things overlap: `shared / total`, between 0.00 and 1.00.
///
/// Held as the two counts it was measured from, so that comparing it with a threshold
/// is exact arithmetic rather than a rounded decimal.
#[derive(Debug, Clone, Copy, PartialEq, Eq)]
pub struct Similarity {
    shared: u128,
    total: u128,
}

/// The largest denominator a similarity carries: twice any collection length.
pub const MAX_TOTAL: u128 = 0x4_0000_0000_0000_0000;

impl Similarity {
    /// The ratio is well formed: a positive denominator no smaller than the numerator.
    #[verifier::type_invariant]
    closed spec fn wf(self) -> bool {
        0 < self.total && self.shared <= self.total && self.total <= MAX_TOTAL
    }

    /// Every value of this type is well formed.
    pub fn check_wf(&self)
        ensures
            0 < self.spec_total(),
            self.spec_shared() <= self.spec_total(),
            self.spec_total() <= MAX_TOTAL,
    {
        proof {
            use_type_invariant(self);
        }
    }

    pub closed spec fn spec_shared(self) -> nat {
        self.shared as nat
    }

    pub closed spec fn spec_total(self) -> nat {
        self.total as nat
    }

    /// `shared` out of `total`. `None` when `total` is zero, smaller than `shared`, or above
    /// [`MAX_TOTAL`].
    pub fn new(shared: u128, total: u128) -> (similarity: Option<Similarity>)
        ensures
            similarity is Some <==> (0 < total && shared <= total && total <= MAX_TOTAL),
            similarity matches Some(s) ==> s.spec_shared() == shared && s.spec_total() == total,
    {
        if total == 0 || shared > total || total > MAX_TOTAL {
            return None;
        }
        Some(Similarity { shared, total })
    }

    /// The numerator.
    pub fn shared(&self) -> (n: u128)
        ensures
            n == self.spec_shared(),
    {
        self.shared
    }

    /// The denominator.
    pub fn total(&self) -> (n: u128)
        ensures
            n == self.spec_total(),
    {
        self.total
    }

    /// Whether the overlap reaches the threshold (`shared / total >= threshold`).
    pub fn is_at_least(&self, threshold: Threshold) -> (reached: bool)
        ensures
            reached == reaches(*self, threshold),
    {
        threshold.check_wf();
        self.check_wf();
        proof {
            threshold.lemma_bounds();
        }
        let p = pow10(threshold.scale()) as u128;
        let shared = self.shared;
        let total = self.total;
        let numerator = threshold.numerator() as u128;
        proof {
            assert(shared * p <= MAX_TOTAL * 1_000_000_000_000_000_000u128) by (nonlinear_arith)
                requires
                    shared <= MAX_TOTAL,
                    p <= 1_000_000_000_000_000_000u128,
            ;
            assert(numerator * total <= 1_000_000_000_000_000_000u128 * MAX_TOTAL)
                by (nonlinear_arith)
                requires
                    numerator <= 1_000_000_000_000_000_000u128,
                    total <= MAX_TOTAL,
            ;
        }
        let scaled = shared * p;
        let needed = numerator * total;
        scaled >= needed
    }

    /// The overlap in hundredths, rounded half up.
    pub fn hundredths(&self) -> (h: u64)
        ensures
            h == spec_hundredths(*self),
            h <= 100,
    {
        self.check_wf();
        let numerator = 200 * self.shared + self.total;
        let denominator = 2 * self.total;
        proof {
            assert(numerator <= 201 * self.total) by (nonlinear_arith)
                requires
                    self.shared <= self.total,
                    numerator == 200 * self.shared + self.total,
            ;
            assert(numerator / denominator <= 100) by (nonlinear_arith)
                requires
                    numerator <= 201 * (self.total as int),
                    denominator == 2 * (self.total as int),
                    self.total > 0,
            ;
        }
        (numerator / denominator) as u64
    }

    /// Two decimals, as the reports print it (`0.94`, `1.00`).
    pub fn text(&self) -> (t: String)
        ensures
            t@ == similarity_text(*self),
    {
        let h = self.hundredths();
        let mut out: Vec<char> = Vec::new();
        if h >= 100 {
            push_str(&mut out, "1.00");
            proof {
                reveal_strlit("1.00");
            }
        } else {
            push_str(&mut out, "0.");
            proof {
                reveal_strlit("0.");
            }
            push_padded_decimal(&mut out, h, 2);
        }
        string_of(&out)
    }
}

pub open spec fn pow10_spec(n: nat) -> nat
    decreases n,
{
    if n == 0 {
        1
    } else {
        10 * pow10_spec((n - 1) as nat)
    }
}

/// `shared / total >= numerator / 10^scale`, cross-multiplied.
pub open spec fn reaches(s: Similarity, t: Threshold) -> bool {
    s.spec_shared() * pow10_spec(t.spec_scale()) >= t.spec_numerator() * s.spec_total()
}

/// `shared / total` in hundredths, rounded half up.
pub open spec fn ratio_hundredths(shared: nat, total: nat) -> nat {
    ((200 * shared + total) / (2 * total)) as nat
}

/// The two-decimal spelling of `shared / total`.
pub open spec fn ratio_text(shared: nat, total: nat) -> Seq<char> {
    if ratio_hundredths(shared, total) >= 100 {
        seq!['1', '.', '0', '0']
    } else {
        seq!['0', '.'] + padded_decimal(ratio_hundredths(shared, total), 2)
    }
}

/// An overlap in hundredths, rounded half up.
pub open spec fn spec_hundredths(s: Similarity) -> nat {
    ratio_hundredths(s.spec_shared(), s.spec_total())
}

/// The two-decimal spelling of an overlap.
pub open spec fn similarity_text(s: Similarity) -> Seq<char> {
    ratio_text(s.spec_shared(), s.spec_total())
}

} // verus!
