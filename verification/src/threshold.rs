//! A threshold between 0 and 1, held as an exact decimal fraction.
use vstd::prelude::*;

use crate::similarity::pow10_spec;
use crate::text::{
    all_digits, decimal, digits_value, is_digit, padded_decimal, push_decimal, push_padded_decimal,
    push_str, string_of,
};

verus! {

/// The most fraction digits a threshold may carry.
pub const MAX_SCALE: u32 = 18;

/// A threshold `numerator / 10^scale` between 0 and 1, in lowest decimal terms.
///
/// Lowest terms (no trailing zero in the fraction) make two thresholds of the same
/// value equal as values of this type.
#[derive(Debug, Clone, Copy, PartialEq, Eq)]
pub struct Threshold {
    numerator: u64,
    scale: u32,
}

/// Why a text could not be read as a threshold.
#[derive(Debug, Clone, PartialEq, Eq)]
pub enum ThresholdParseError {
    /// Not a decimal number. Holds the text.
    NotANumber(String),
    /// A number outside 0.0-1.0. Holds the text.
    OutOfRange(String),
    /// In range, but with more significant fraction digits than a threshold carries. Holds the text.
    TooPrecise(String),
}

impl Threshold {
    pub closed spec fn spec_numerator(self) -> nat {
        self.numerator as nat
    }

    pub closed spec fn spec_scale(self) -> nat {
        self.scale as nat
    }

    /// The representation invariant: within 0..=1, at most `MAX_SCALE` digits, lowest terms.
    pub closed spec fn wf(self) -> bool {
        &&& self.scale <= MAX_SCALE
        &&& self.numerator <= pow10_spec(self.scale as nat)
        &&& (self.scale == 0 || self.numerator % 10 != 0)
    }

    pub proof fn lemma_bounds(self)
        requires
            self.wf(),
        ensures
            self.spec_scale() <= 18,
            pow10_spec(self.spec_scale()) <= 1_000_000_000_000_000_000,
            self.spec_numerator() <= pow10_spec(self.spec_scale()),
    {
        lemma_pow10_monotone(self.scale as nat, 18);
        lemma_pow10_18();
    }

    /// Every value of this type satisfies the invariant.
    pub fn check_wf(&self)
        ensures
            self.wf(),
    {
        proof {
            use_type_invariant(self);
        }
    }

    /// `numerator / 10^scale`, brought to lowest terms.
    ///
    /// `None` when the value is above 1 or `scale` exceeds [`MAX_SCALE`].
    pub fn new(numerator: u64, scale: u32) -> (threshold: Option<Threshold>)
        ensures
            threshold is Some <==> (scale <= MAX_SCALE && numerator <= pow10_spec(scale as nat)),
            threshold matches Some(t) ==> t.wf() && same_value(
                t.spec_numerator(),
                t.spec_scale(),
                numerator as nat,
                scale as nat,
            ),
    {
        if scale > MAX_SCALE {
            return None;
        }
        proof {
            lemma_pow10_monotone(scale as nat, 18);
            lemma_pow10_18();
        }
        if numerator > pow10(scale) {
            return None;
        }
        let mut n = numerator;
        let mut k = scale;
        while k > 0 && n % 10 == 0
            invariant
                k <= scale <= MAX_SCALE,
                n <= pow10_spec(k as nat),
                same_value(n as nat, k as nat, numerator as nat, scale as nat),
            decreases k,
        {
            proof {
                lemma_drop_zero(n as nat, k as nat);
                lemma_same_value_trans(
                    (n / 10) as nat,
                    (k - 1) as nat,
                    n as nat,
                    k as nat,
                    numerator as nat,
                    scale as nat,
                );
            }
            n = n / 10;
            k = k - 1;
        }
        Some(Threshold { numerator: n, scale: k })
    }

    /// One half, `0.5`.
    pub closed spec fn spec_half() -> Threshold {
        Threshold { numerator: 5, scale: 1 }
    }

    /// One half, `0.5`: the default of every overlap threshold.
    pub fn half() -> (threshold: Threshold)
        ensures
            threshold == Threshold::spec_half(),
            threshold.spec_numerator() == 5,
            threshold.spec_scale() == 1,
    {
        proof {
            reveal_with_fuel(pow10_spec, 2);
        }
        Threshold { numerator: 5, scale: 1 }
    }

    /// The numerator of `numerator / 10^scale`.
    pub fn numerator(&self) -> (n: u64)
        ensures
            n == self.spec_numerator(),
    {
        self.numerator
    }

    /// The number of decimal fraction digits.
    pub fn scale(&self) -> (k: u32)
        ensures
            k == self.spec_scale(),
    {
        self.scale
    }

    /// The shortest decimal spelling (`0.5`, `0.8`, `1`, `0`).
    pub fn text(&self) -> (t: String)
        ensures
            t@ == threshold_text(*self),
    {
        let mut out: Vec<char> = Vec::new();
        if self.scale == 0 {
            push_decimal(&mut out, self.numerator);
        } else {
            push_str(&mut out, "0.");
            proof {
                reveal_strlit("0.");
            }
            push_padded_decimal(&mut out, self.numerator, self.scale);
        }
        string_of(&out)
    }

    /// Reads a decimal literal such as `0.7` or `1`.
    ///
    /// # Errors
    ///
    /// Not a decimal literal; a value outside 0.0-1.0; more than [`MAX_SCALE`] significant
    /// fraction digits.
    pub fn parse(text: &str) -> (result: Result<Threshold, ThresholdParseError>)
        ensures
            result matches Ok(t) ==> parsed_threshold(text@) == (ThresholdReading::Value {
                numerator: t.spec_numerator() as u64,
                scale: t.spec_scale() as u32,
            }),
            result matches Err(ThresholdParseError::NotANumber(s)) ==> s@ == text@
                && parsed_threshold(text@) == ThresholdReading::NotANumber,
            result matches Err(ThresholdParseError::OutOfRange(s)) ==> s@ == text@
                && parsed_threshold(text@) == ThresholdReading::OutOfRange,
            result matches Err(ThresholdParseError::TooPrecise(s)) ==> s@ == text@
                && parsed_threshold(text@) == ThresholdReading::TooPrecise,
    {
        let chars = crate::text::chars_of(text);
        let reading = read_threshold(&chars);
        match reading {
            ThresholdReading::Value { numerator: n, scale: k } => Ok(Threshold { numerator: n, scale: k }),
            ThresholdReading::NotANumber => Err(ThresholdParseError::NotANumber(text.to_owned())),
            ThresholdReading::OutOfRange => Err(ThresholdParseError::OutOfRange(text.to_owned())),
            ThresholdReading::TooPrecise => Err(ThresholdParseError::TooPrecise(text.to_owned())),
        }
    }
}

impl Threshold {
    #[verifier::type_invariant]
    closed spec fn type_inv(self) -> bool {
        self.wf()
    }
}

/// Two decimal fractions denote the same value.
pub open spec fn same_value(n1: nat, k1: nat, n2: nat, k2: nat) -> bool {
    n1 * pow10_spec(k2) == n2 * pow10_spec(k1)
}

/// The shortest decimal spelling of a threshold.
pub open spec fn threshold_text(t: Threshold) -> Seq<char> {
    if t.spec_scale() == 0 {
        decimal(t.spec_numerator())
    } else {
        seq!['0', '.'] + padded_decimal(t.spec_numerator(), t.spec_scale())
    }
}

/// What a text reads as, as a threshold.
#[derive(Debug, Clone, Copy, PartialEq, Eq)]
pub enum ThresholdReading {
    Value { numerator: u64, scale: u32 },
    NotANumber,
    OutOfRange,
    TooPrecise,
}

/// The index of the first `.` in `s`, or `s.len()`.
pub open spec fn dot_index(s: Seq<char>) -> nat
    decreases s.len(),
{
    if s.len() == 0 {
        0
    } else if s[0] == '.' {
        0
    } else {
        1 + dot_index(s.drop_first())
    }
}

/// The number of digits left after dropping trailing zeros.
pub open spec fn significant_len(s: Seq<char>) -> nat
    decreases s.len(),
{
    if s.len() > 0 && s.last() == '0' {
        significant_len(s.drop_last())
    } else {
        s.len()
    }
}

/// The text with a leading sign removed.
pub open spec fn unsigned_body(s: Seq<char>) -> Seq<char> {
    if s.len() > 0 && (s[0] == '+' || s[0] == '-') {
        s.drop_first()
    } else {
        s
    }
}

pub open spec fn is_negative(s: Seq<char>) -> bool {
    s.len() > 0 && s[0] == '-'
}

/// Digits before the `.`.
pub open spec fn integer_part(s: Seq<char>) -> Seq<char> {
    unsigned_body(s).take(dot_index(unsigned_body(s)) as int)
}

/// Digits after the `.` (empty when there is none).
pub open spec fn fraction_part(s: Seq<char>) -> Seq<char> {
    let b = unsigned_body(s);
    if dot_index(b) < b.len() {
        b.skip(dot_index(b) + 1int)
    } else {
        Seq::empty()
    }
}

/// A decimal literal: optional sign, digits, optional `.` and digits, at least one digit.
pub open spec fn is_decimal_literal(s: Seq<char>) -> bool {
    &&& all_digits(integer_part(s))
    &&& all_digits(fraction_part(s))
    &&& integer_part(s).len() + fraction_part(s).len() > 0
}

/// The reading of a threshold text: a decimal literal whose value lies in 0..=1,
/// in lowest terms, with at most [`MAX_SCALE`] fraction digits.
pub open spec fn parsed_threshold(s: Seq<char>) -> ThresholdReading {
    if !is_decimal_literal(s) {
        ThresholdReading::NotANumber
    } else {
        let whole = digits_value(integer_part(s));
        let k = significant_len(fraction_part(s));
        let fraction = digits_value(fraction_part(s).take(k as int));
        if (is_negative(s) && (whole > 0 || k > 0)) || whole > 1 || (whole == 1 && k > 0) {
            ThresholdReading::OutOfRange
        } else if k > MAX_SCALE {
            ThresholdReading::TooPrecise
        } else if whole == 1 {
            ThresholdReading::Value { numerator: 1, scale: 0 }
        } else {
            ThresholdReading::Value { numerator: fraction as u64, scale: k as u32 }
        }
    }
}

pub fn pow10(k: u32) -> (p: u64)
    requires
        k <= 18,
    ensures
        p == pow10_spec(k as nat),
{
    let mut p: u64 = 1;
    let mut i: u32 = 0;
    proof {
        lemma_pow10_monotone(k as nat, 18);
        lemma_pow10_18();
    }
    while i < k
        invariant
            i <= k <= 18,
            p == pow10_spec(i as nat),
            pow10_spec(k as nat) <= 1_000_000_000_000_000_000,
        decreases k - i,
    {
        proof {
            lemma_pow10_monotone((i + 1) as nat, k as nat);
        }
        p = p * 10;
        i = i + 1;
    }
    p
}

pub proof fn lemma_pow10_18()
    ensures
        pow10_spec(18) == 1_000_000_000_000_000_000,
{
    reveal_with_fuel(pow10_spec, 19);
}

pub proof fn lemma_pow10_monotone(a: nat, b: nat)
    requires
        a <= b,
    ensures
        pow10_spec(a) <= pow10_spec(b),
        pow10_spec(a) >= 1,
    decreases b,
{
    if a < b {
        lemma_pow10_monotone(a, (b - 1) as nat);
    } else if a > 0 {
        lemma_pow10_monotone((a - 1) as nat, (a - 1) as nat);
    }
}

proof fn lemma_same_value_trans(a: nat, ka: nat, b: nat, kb: nat, c: nat, kc: nat)
    requires
        same_value(a, ka, b, kb),
        same_value(b, kb, c, kc),
    ensures
        same_value(a, ka, c, kc),
{
    let pa = pow10_spec(ka);
    let pb = pow10_spec(kb);
    let pc = pow10_spec(kc);
    lemma_pow10_monotone(kb, kb);
    assert(a * pc == c * pa) by (nonlinear_arith)
        requires
            a * pb == b * pa,
            b * pc == c * pb,
            pb >= 1,
    ;
}

proof fn lemma_drop_zero(n: nat, k: nat)
    requires
        k > 0,
        n % 10 == 0,
        n <= pow10_spec(k),
    ensures
        n / 10 <= pow10_spec((k - 1) as nat),
        same_value(n / 10, (k - 1) as nat, n, k),
{
    let p = pow10_spec((k - 1) as nat);
    assert(pow10_spec(k) == 10 * p);
    assert(n == 10 * (n / 10));
    assert((n / 10) * (10 * p) == n * p) by (nonlinear_arith)
        requires
            n == 10 * (n / 10),
    ;
    assert(n / 10 <= p) by (nonlinear_arith)
        requires
            n <= 10 * p,
            n == 10 * (n / 10),
    ;
}

/// The index of the first `.` in `s`, or its length.
fn find_dot(s: &[char], from: usize) -> (i: usize)
    requires
        from <= s@.len(),
    ensures
        from + dot_index(s@.skip(from as int)) == i,
        i <= s@.len(),
{
    let mut i = from;
    proof {
        lemma_dot_index(s@.skip(from as int));
    }
    while i < s.len() && s[i] != '.'
        invariant
            from <= i <= s@.len(),
            forall|j: int| from <= j < i ==> s@[j] != '.',
        decreases s@.len() - i,
    {
        i = i + 1;
    }
    proof {
        let t = s@.skip(from as int);
        lemma_dot_index(t);
        assert forall|j: int| 0 <= j < i - from implies t[j] != '.' by {
            assert(t[j] == s@[from + j]);
        }
        if i < s@.len() {
            assert(t[i - from] == '.');
        }
    }
    i
}

proof fn lemma_dot_index(s: Seq<char>)
    ensures
        dot_index(s) <= s.len(),
        forall|j: int| 0 <= j < dot_index(s) ==> s[j] != '.',
        dot_index(s) < s.len() ==> s[dot_index(s) as int] == '.',
        forall|i: nat|
            i <= s.len() && (forall|j: int| 0 <= j < i ==> s[j] != '.') && (i < s.len() ==> s[i
                as int] == '.') ==> i == dot_index(s),
    decreases s.len(),
{
    if s.len() > 0 && s[0] != '.' {
        lemma_dot_index(s.drop_first());
        assert forall|j: int| 0 <= j < dot_index(s) implies s[j] != '.' by {
            if j > 0 {
                assert(s[j] == s.drop_first()[j - 1]);
            }
        }
        assert forall|i: nat|
            i <= s.len() && (forall|j: int| 0 <= j < i ==> s[j] != '.') && (i < s.len() ==> s[i
                as int] == '.') implies i == dot_index(s) by {
            if i == 0 {
                if s.len() > 0 {
                    assert(s[0] == '.');
                }
            } else {
                let d = s.drop_first();
                assert forall|j: int| 0 <= j < i - 1 implies d[j] != '.' by {
                    assert(d[j] == s[j + 1]);
                }
                if i - 1 < d.len() {
                    assert(d[i - 1] == s[i as int]);
                }
            }
        }
    }
}

/// Whether `s[from..to]` is all digits.
fn all_digits_in(s: &[char], from: usize, to: usize) -> (b: bool)
    requires
        from <= to <= s@.len(),
    ensures
        b == all_digits(s@.subrange(from as int, to as int)),
{
    let mut i = from;
    while i < to
        invariant
            from <= i <= to <= s@.len(),
            forall|j: int| from <= j < i ==> is_digit(s@[j]),
        decreases to - i,
    {
        if !('0' <= s[i] && s[i] <= '9') {
            proof {
                let t = s@.subrange(from as int, to as int);
                assert(t[i - from] == s@[i as int]);
            }
            return false;
        }
        i = i + 1;
    }
    proof {
        let ghost t = s@.subrange(from as int, to as int);
        assert forall|j: int| 0 <= j < t.len() implies is_digit(#[trigger] t[j]) by {
            assert(t[j] == s@[from + j]);
        }
    }
    true
}

proof fn lemma_significant_len(s: Seq<char>)
    ensures
        significant_len(s) <= s.len(),
        significant_len(s) > 0 ==> s[significant_len(s) - 1] != '0',
        forall|j: int| significant_len(s) <= j < s.len() ==> s[j] == '0',
    decreases s.len(),
{
    if s.len() > 0 && s.last() == '0' {
        lemma_significant_len(s.drop_last());
        assert forall|j: int| significant_len(s) <= j < s.len() implies s[j] == '0' by {
            if j < s.len() - 1 {
                assert(s[j] == s.drop_last()[j]);
            }
        }
    }
}

/// The value of the digits `s[from..to]`, when below `10^18`.
fn digits_value_of(s: &[char], from: usize, to: usize) -> (v: u64)
    requires
        from <= to <= s@.len(),
        to - from <= 18,
        all_digits(s@.subrange(from as int, to as int)),
    ensures
        v == digits_value(s@.subrange(from as int, to as int)),
{
    let mut v: u64 = 0;
    let mut i = from;
    while i < to
        invariant
            from <= i <= to <= s@.len(),
            to - from <= 18,
            all_digits(s@.subrange(from as int, to as int)),
            v == digits_value(s@.subrange(from as int, i as int)),
            v < pow10_spec((i - from) as nat),
        decreases to - i,
    {
        let ghost t = s@.subrange(from as int, to as int);
        assert(t[i - from] == s@[i as int]);
        assert(is_digit(t[i - from]));
        let d = (s[i] as u32 - '0' as u32) as u64;
        proof {
            let u = s@.subrange(from as int, i + 1);
            assert(u.drop_last() =~= s@.subrange(from as int, i as int));
            assert(u.last() == s@[i as int]);
            lemma_pow10_monotone((i + 1 - from) as nat, 18);
            lemma_pow10_18();
            assert(pow10_spec((i + 1 - from) as nat) == 10 * pow10_spec((i - from) as nat));
            assert(v * 10 + d < pow10_spec((i + 1 - from) as nat)) by (nonlinear_arith)
                requires
                    v < pow10_spec((i - from) as nat),
                    d < 10,
                    pow10_spec((i + 1 - from) as nat) == 10 * pow10_spec((i - from) as nat),
            ;
        }
        v = v * 10 + d;
        i = i + 1;
    }
    v
}

/// `min(value, 2)` of the digits `s[from..to]`: enough to tell 0, 1 and above 1 apart.
fn capped_digits_value(s: &[char], from: usize, to: usize) -> (v: u64)
    requires
        from <= to <= s@.len(),
        all_digits(s@.subrange(from as int, to as int)),
    ensures
        v == if digits_value(s@.subrange(from as int, to as int)) >= 2 {
            2
        } else {
            digits_value(s@.subrange(from as int, to as int))
        },
{
    let mut v: u64 = 0;
    let mut i = from;
    while i < to
        invariant
            from <= i <= to <= s@.len(),
            all_digits(s@.subrange(from as int, to as int)),
            v == if digits_value(s@.subrange(from as int, i as int)) >= 2 {
                2
            } else {
                digits_value(s@.subrange(from as int, i as int))
            },
        decreases to - i,
    {
        let ghost t = s@.subrange(from as int, to as int);
        assert(t[i - from] == s@[i as int]);
        assert(is_digit(t[i - from]));
        let d = (s[i] as u32 - '0' as u32) as u64;
        proof {
            let u = s@.subrange(from as int, i + 1);
            assert(u.drop_last() =~= s@.subrange(from as int, i as int));
            assert(u.last() == s@[i as int]);
        }
        let next = v * 10 + d;
        v = if next >= 2 { 2 } else { next };
        i = i + 1;
    }
    v
}

proof fn lemma_digits_value_zero(s: Seq<char>)
    requires
        forall|j: int| 0 <= j < s.len() ==> s[j] == '0',
    ensures
        digits_value(s) == 0,
    decreases s.len(),
{
    if s.len() > 0 {
        lemma_digits_value_zero(s.drop_last());
    }
}

proof fn lemma_digits_value_bound(s: Seq<char>)
    requires
        all_digits(s),
    ensures
        digits_value(s) < pow10_spec(s.len()),
    decreases s.len(),
{
    if s.len() > 0 {
        lemma_digits_value_bound(s.drop_last());
        let a = digits_value(s.drop_last());
        let d = (s.last() as nat - '0' as nat) as nat;
        assert(is_digit(s[s.len() - 1]));
        assert(a * 10 + d < pow10_spec(s.len())) by (nonlinear_arith)
            requires
                a < pow10_spec((s.len() - 1) as nat),
                d < 10,
                pow10_spec(s.len()) == 10 * pow10_spec((s.len() - 1) as nat),
        ;
    }
}

/// The end of `s[from..]` once trailing zeros are dropped.
fn significant_end(s: &Vec<char>, from: usize) -> (k_end: usize)
    requires
        from <= s@.len(),
    ensures
        from <= k_end <= s@.len(),
        k_end - from == significant_len(s@.subrange(from as int, s@.len() as int)),
        k_end > from ==> s@[k_end - 1] != '0',
{
    let ghost frac = s@.subrange(from as int, s@.len() as int);
    let mut k_end = s.len();
    proof {
        lemma_significant_len(frac);
    }
    while k_end > from && s[k_end - 1] == '0'
        invariant
            from <= k_end <= s@.len(),
            frac == s@.subrange(from as int, s@.len() as int),
            forall|j: int| k_end <= j < s@.len() ==> s@[j] == '0',
            significant_len(frac) <= frac.len(),
            significant_len(frac) > 0 ==> frac[significant_len(frac) - 1] != '0',
            forall|j: int| significant_len(frac) <= j < frac.len() ==> frac[j] == '0',
        decreases k_end,
    {
        k_end = k_end - 1;
    }
    proof {
        let sl = significant_len(frac);
        let kk = k_end - from;
        if kk > sl {
            assert(frac[kk - 1] == s@[k_end - 1]);
        }
        if kk < sl {
            assert(frac[sl - 1] == s@[from + sl - 1]);
        }
        if kk > 0 {
            assert(frac[kk - 1] == s@[k_end - 1]);
        }
    }
    k_end
}

proof fn lemma_last_digit(a: nat, d: nat)
    requires
        d < 10,
    ensures
        (a * 10 + d) % 10 == d,
{
    assert((a * 10 + d) % 10 == d) by (nonlinear_arith)
        requires
            d < 10,
    ;
}

#[verifier::rlimit(100)]
#[verifier::spinoff_prover]
fn read_threshold(s: &Vec<char>) -> (r: ThresholdReading)
    ensures
        r == parsed_threshold(s@),
        r matches ThresholdReading::Value { numerator: n, scale: k } ==> (Threshold {
            numerator: n,
            scale: k,
        }).wf(),
{
    let signed = s.len() > 0 && (s[0] == '+' || s[0] == '-');
    let negative = s.len() > 0 && s[0] == '-';
    let start: usize = if signed { 1 } else { 0 };
    let ghost body = unsigned_body(s@);
    assert(body =~= s@.skip(start as int));
    let dot = find_dot(s, start);
    let int_end = dot;
    let frac_start: usize = if dot < s.len() { dot + 1 } else { s.len() };
    proof {
        lemma_dot_index(body);
        assert(integer_part(s@) =~= s@.subrange(start as int, int_end as int));
        assert(fraction_part(s@) =~= s@.subrange(frac_start as int, s@.len() as int));
    }
    if !all_digits_in(s, start, int_end) || !all_digits_in(s, frac_start, s.len()) || (int_end
        - start) + (s.len() - frac_start) == 0 {
        return ThresholdReading::NotANumber;
    }
    let ghost frac = fraction_part(s@);
    let k_end = significant_end(s, frac_start);
    proof {
        assert(frac.take(significant_len(frac) as int) =~= s@.subrange(
            frac_start as int,
            k_end as int,
        ));
    }
    let whole = capped_digits_value(s, start, int_end);
    let k = k_end - frac_start;
    if (negative && (whole > 0 || k > 0)) || whole > 1 || (whole == 1 && k > 0) {
        return ThresholdReading::OutOfRange;
    }
    if k > 18 {
        return ThresholdReading::TooPrecise;
    }
    if whole == 1 {
        proof {
            assert(pow10_spec(0) == 1);
        }
        return ThresholdReading::Value { numerator: 1, scale: 0 };
    }
    proof {
        assert(all_digits(s@.subrange(frac_start as int, k_end as int))) by {
            let t = s@.subrange(frac_start as int, k_end as int);
            assert forall|j: int| 0 <= j < t.len() implies is_digit(#[trigger] t[j]) by {
                assert(t[j] == frac[j]);
            }
        }
    }
    let n = digits_value_of(s, frac_start, k_end);
    proof {
        let t = s@.subrange(frac_start as int, k_end as int);
        lemma_digits_value_bound(t);
        if k > 0 {
            assert(t.drop_last() =~= s@.subrange(frac_start as int, k_end - 1));
            assert(t.last() == s@[k_end - 1]);
            assert(t.last() != '0');
            assert(is_digit(t.last())) by {
                assert(t[t.len() - 1] == frac[t.len() - 1]);
            }
            lemma_last_digit(digits_value(t.drop_last()), (t.last() as nat - '0' as nat) as nat);
        } else {
            assert(n == 0);
        }
        assert(k as u32 <= MAX_SCALE);
    }
    ThresholdReading::Value { numerator: n, scale: k as u32 }
}

/// A zero-padded spelling is `width` digits that read back as the number modulo `10^width`.
pub proof fn lemma_padded_reads_back(n: nat, width: nat)
    ensures
        padded_decimal(n, width).len() == width,
        all_digits(padded_decimal(n, width)),
        digits_value(padded_decimal(n, width)) == n % pow10_spec(width),
        width > 0 ==> padded_decimal(n, width).last() == crate::text::digit_char(n % 10),
    decreases width,
{
    if width > 0 {
        lemma_padded_reads_back(n / 10, (width - 1) as nat);
        crate::text::lemma_digit_char(n % 10);
        let p = padded_decimal(n, width);
        assert(p.drop_last() =~= padded_decimal(n / 10, (width - 1) as nat));
        assert forall|i: int| 0 <= i < p.len() implies is_digit(#[trigger] p[i]) by {
            if i < p.len() - 1 {
                assert(p[i] == padded_decimal(n / 10, (width - 1) as nat)[i]);
            }
        }
        let q = pow10_spec((width - 1) as nat);
        lemma_pow10_monotone(0, (width - 1) as nat);
        assert(digits_value(p) == digits_value(p.drop_last()) * 10 + (p.last() as nat - '0' as nat));
        assert(((n / 10) % q) * 10 + n % 10 == n % (10 * q)) by (nonlinear_arith)
            requires
                q >= 1,
        {
            assert(n == (n / 10) * 10 + n % 10);
            assert((n / 10) == ((n / 10) / q) * q + (n / 10) % q);
            assert(n == ((n / 10) / q) * (10 * q) + (((n / 10) % q) * 10 + n % 10));
            assert(0 <= ((n / 10) % q) * 10 + n % 10 < 10 * q);
        }
    } else {
        assert(n % 1 == 0) by (nonlinear_arith);
    }
}

/// A threshold's text reads back as the same threshold.
pub proof fn lemma_text_reads_back(t: Threshold)
    requires
        t.wf(),
    ensures
        parsed_threshold(threshold_text(t)) == (ThresholdReading::Value {
            numerator: t.spec_numerator() as u64,
            scale: t.spec_scale() as u32,
        }),
{
    t.lemma_bounds();
    let n = t.spec_numerator();
    let k = t.spec_scale();
    let s = threshold_text(t);
    if k == 0 {
        reveal_with_fuel(pow10_spec, 1);
        crate::text::lemma_decimal_reads_back(n);
        assert(n <= 1);
        if n == 0 {
            assert(s =~= seq!['0']);
        } else {
            assert(s =~= seq!['1']);
        }
        assert(unsigned_body(s) == s);
        assert(dot_index(s.drop_first()) == 0);
        assert(dot_index(s) == 1);
        assert(integer_part(s) =~= s);
        assert(fraction_part(s) =~= Seq::<char>::empty());
        assert(significant_len(Seq::<char>::empty()) == 0);
        assert(Seq::<char>::empty().take(0) =~= Seq::<char>::empty());
        assert(digits_value(s) == digits_value(s.drop_last()) * 10 + (s.last() as nat - '0' as nat));
        assert(s.drop_last() =~= Seq::<char>::empty());
    } else {
        lemma_padded_reads_back(n, k);
        assert(n < pow10_spec(k)) by {
            if n == pow10_spec(k) {
                assert(pow10_spec(k) == 10 * pow10_spec((k - 1) as nat));
                assert(n % 10 == 0) by (nonlinear_arith)
                    requires
                        n == 10 * pow10_spec((k - 1) as nat),
                ;
            }
        }
        assert(n % pow10_spec(k) == n) by (nonlinear_arith)
            requires
                n < pow10_spec(k),
        ;
        let f = padded_decimal(n, k);
        assert(s =~= seq!['0', '.'] + f);
        assert(unsigned_body(s) == s);
        assert(s.drop_first()[0] == '.');
        assert(dot_index(s.drop_first()) == 0);
        assert(dot_index(s) == 1);
        assert(integer_part(s) =~= seq!['0']);
        assert(fraction_part(s) =~= f);
        assert(f.last() != '0') by {
            crate::text::lemma_digit_char(n % 10);
            if n % 10 != 0 {
                assert(crate::text::digit_char(n % 10) != '0');
            }
        }
        assert(significant_len(f) == f.len());
        assert(f.take(k as int) =~= f);
        assert(digits_value(seq!['0']) == 0) by {
            let z = seq!['0'];
            assert(z.drop_last() =~= Seq::<char>::empty());
            assert(digits_value(z) == digits_value(z.drop_last()) * 10 + (z.last() as nat - '0' as nat));
        }
        assert(all_digits(seq!['0']));
    }
}

} // verus!
