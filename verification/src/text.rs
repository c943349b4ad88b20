//! Conversions between Rust strings and the character sequences the logic works on,
//! and the decimal spelling of numbers.
use vstd::prelude::*;

verus! {

/// The characters of a string slice, in order.
pub fn chars_of(s: &str) -> (chars: Vec<char>)
    ensures
        chars@ == s@,
{
    let mut chars: Vec<char> = Vec::new();
    for c in it: s.chars()
        invariant
            chars@ == it.seq().take(it.index() as int),
            it.seq() == s@,
    {
        chars.push(c);
    }
    chars
}

/// A string holding exactly the given characters.
///
/// Trusted: `Iterator::collect` into a `String` pushes each character in order.
#[verifier::external_body]
pub(crate) fn string_of(chars: &[char]) -> (s: String)
    ensures
        s@ == chars@,
{
    chars.iter().collect()
}

/// Appends every character of `tail` to `out`.
pub fn push_all(out: &mut Vec<char>, tail: &[char])
    ensures
        final(out)@ == old(out)@ + tail@,
{
    let mut i: usize = 0;
    while i < tail.len()
        invariant
            0 <= i <= tail@.len(),
            out@ == old(out)@ + tail@.subrange(0, i as int),
        decreases tail@.len() - i,
    {
        assert(tail@.subrange(0, i as int).push(tail@[i as int]) =~= tail@.subrange(0, i + 1));
        out.push(tail[i]);
        i = i + 1;
    }
    assert(tail@.subrange(0, tail@.len() as int) =~= tail@);
}

/// Appends every character of `tail` to `out`.
pub fn push_str(out: &mut Vec<char>, tail: &str)
    ensures
        final(out)@ == old(out)@ + tail@,
{
    let chars = chars_of(tail);
    push_all(out, &chars);
}

/// The decimal digit for a value below ten.
pub open spec fn digit_char(d: nat) -> char {
    if d == 0 { '0' }
    else if d == 1 { '1' }
    else if d == 2 { '2' }
    else if d == 3 { '3' }
    else if d == 4 { '4' }
    else if d == 5 { '5' }
    else if d == 6 { '6' }
    else if d == 7 { '7' }
    else if d == 8 { '8' }
    else { '9' }
}

/// Whether the character is an ASCII decimal digit.
pub open spec fn is_digit(c: char) -> bool {
    '0' <= c && c <= '9'
}

/// The shortest decimal spelling of a natural number (no leading zeros; `0` for zero).
pub open spec fn decimal(n: nat) -> Seq<char>
    decreases n,
{
    if n < 10 {
        seq![digit_char(n)]
    } else {
        decimal(n / 10).push(digit_char(n % 10))
    }
}

/// The value that a run of decimal digits spells.
pub open spec fn digits_value(s: Seq<char>) -> nat
    decreases s.len(),
{
    if s.len() == 0 {
        0
    } else {
        digits_value(s.drop_last()) * 10 + (s.last() as nat - '0' as nat) as nat
    }
}

/// Whether every character is an ASCII decimal digit.
pub open spec fn all_digits(s: Seq<char>) -> bool {
    forall|i: int| 0 <= i < s.len() ==> is_digit(#[trigger] s[i])
}

/// `n` spelled in exactly `width` decimal digits, padded with leading zeros.
pub open spec fn padded_decimal(n: nat, width: nat) -> Seq<char>
    decreases width,
{
    if width == 0 {
        Seq::empty()
    } else {
        padded_decimal(n / 10, (width - 1) as nat).push(digit_char(n % 10))
    }
}

pub fn digit_char_of(d: u64) -> (c: char)
    requires
        d < 10,
    ensures
        c == digit_char(d as nat),
{
    if d == 0 { '0' }
    else if d == 1 { '1' }
    else if d == 2 { '2' }
    else if d == 3 { '3' }
    else if d == 4 { '4' }
    else if d == 5 { '5' }
    else if d == 6 { '6' }
    else if d == 7 { '7' }
    else if d == 8 { '8' }
    else { '9' }
}

/// Appends the shortest decimal spelling of `n`.
pub fn push_decimal(out: &mut Vec<char>, n: u64)
    ensures
        final(out)@ == old(out)@ + decimal(n as nat),
    decreases n,
{
    if n < 10 {
        out.push(digit_char_of(n));
        assert(decimal(n as nat) =~= seq![digit_char(n as nat)]);
    } else {
        push_decimal(out, n / 10);
        out.push(digit_char_of(n % 10));
        assert(old(out)@ + decimal(n as nat) =~= old(out)@ + decimal((n / 10) as nat) + seq![
            digit_char((n % 10) as nat),
        ]);
    }
}

/// Appends `n` in exactly `width` decimal digits, padded with leading zeros.
pub fn push_padded_decimal(out: &mut Vec<char>, n: u64, width: u32)
    ensures
        final(out)@ == old(out)@ + padded_decimal(n as nat, width as nat),
    decreases width,
{
    if width > 0 {
        push_padded_decimal(out, n / 10, width - 1);
        out.push(digit_char_of(n % 10));
        assert(old(out)@ + padded_decimal(n as nat, width as nat) =~= old(out)@ + padded_decimal(
            (n / 10) as nat,
            (width - 1) as nat,
        ) + seq![digit_char((n % 10) as nat)]);
    }
}

/// The shortest decimal spelling of a number.
pub fn decimal_text(n: u64) -> (text: String)
    ensures
        text@ == decimal(n as nat),
{
    let mut out: Vec<char> = Vec::new();
    push_decimal(&mut out, n);
    string_of(&out)
}

/// Whether a character is whitespace in the sense of `char::is_whitespace`.
pub open spec fn is_space(c: char) -> bool {
    c == ' ' || c == '\t' || c == '\n' || c == '\r' || c == '\u{0B}' || c == '\u{0C}'
        || c == '\u{85}' || c == '\u{A0}' || c == '\u{1680}' || ('\u{2000}' <= c && c
        <= '\u{200A}') || c == '\u{2028}' || c == '\u{2029}' || c == '\u{202F}' || c
        == '\u{205F}' || c == '\u{3000}'
}

pub fn is_space_char(c: char) -> (b: bool)
    ensures
        b == is_space(c),
{
    c == ' ' || c == '\t' || c == '\n' || c == '\r' || c == '\u{0B}' || c == '\u{0C}' || c
        == '\u{85}' || c == '\u{A0}' || c == '\u{1680}' || ('\u{2000}' <= c && c <= '\u{200A}')
        || c == '\u{2028}' || c == '\u{2029}' || c == '\u{202F}' || c == '\u{205F}' || c
        == '\u{3000}'
}

/// Number of leading whitespace characters.
pub open spec fn leading_space_count(s: Seq<char>) -> nat
    decreases s.len(),
{
    if s.len() > 0 && is_space(s[0]) {
        1 + leading_space_count(s.drop_first())
    } else {
        0
    }
}

/// Number of trailing whitespace characters.
pub open spec fn trailing_space_count(s: Seq<char>) -> nat
    decreases s.len(),
{
    if s.len() > 0 && is_space(s.last()) {
        1 + trailing_space_count(s.drop_last())
    } else {
        0
    }
}

/// The text without leading whitespace (`str::trim_start`).
pub open spec fn trim_start(s: Seq<char>) -> Seq<char> {
    s.skip(leading_space_count(s) as int)
}

/// The text without trailing whitespace (`str::trim_end`).
pub open spec fn trim_end(s: Seq<char>) -> Seq<char> {
    s.take(s.len() - trailing_space_count(s))
}

/// The text without leading and trailing whitespace (`str::trim`).
pub open spec fn trim(s: Seq<char>) -> Seq<char> {
    trim_end(trim_start(s))
}

pub proof fn lemma_leading_space_count(s: Seq<char>)
    ensures
        leading_space_count(s) <= s.len(),
        forall|i: int| 0 <= i < leading_space_count(s) ==> is_space(#[trigger] s[i]),
        leading_space_count(s) < s.len() ==> !is_space(s[leading_space_count(s) as int]),
    decreases s.len(),
{
    if s.len() > 0 && is_space(s[0]) {
        lemma_leading_space_count(s.drop_first());
        assert forall|i: int| 0 <= i < leading_space_count(s) implies is_space(#[trigger] s[i]) by {
            if i > 0 {
                assert(s[i] == s.drop_first()[i - 1]);
            }
        }
    }
}

pub proof fn lemma_trailing_space_count(s: Seq<char>)
    ensures
        trailing_space_count(s) <= s.len(),
        forall|i: int|
            s.len() - trailing_space_count(s) <= i < s.len() ==> is_space(#[trigger] s[i]),
        trailing_space_count(s) < s.len() ==> !is_space(
            s[s.len() - trailing_space_count(s) - 1],
        ),
    decreases s.len(),
{
    if s.len() > 0 && is_space(s.last()) {
        lemma_trailing_space_count(s.drop_last());
        assert forall|i: int|
            s.len() - trailing_space_count(s) <= i < s.len() implies is_space(#[trigger] s[i]) by {
            if i < s.len() - 1 {
                assert(s[i] == s.drop_last()[i]);
            }
        }
    }
}

/// Index of the first non-whitespace character in `s[from..]`, or `s.len()`.
fn skip_spaces(s: &[char]) -> (k: usize)
    ensures
        k == leading_space_count(s@),
{
    proof {
        lemma_leading_space_count(s@);
    }
    let mut k: usize = 0;
    while k < s.len() && is_space_char(s[k])
        invariant
            0 <= k <= s@.len(),
            forall|i: int| 0 <= i < k ==> is_space(#[trigger] s@[i]),
            leading_space_count(s@) <= s@.len(),
            forall|i: int| 0 <= i < leading_space_count(s@) ==> is_space(#[trigger] s@[i]),
            leading_space_count(s@) < s@.len() ==> !is_space(s@[leading_space_count(s@) as int]),
        decreases s@.len() - k,
    {
        k = k + 1;
    }
    proof {
        if k < leading_space_count(s@) {
            assert(is_space(s@[k as int]));
        }
        if k > leading_space_count(s@) {
            assert(is_space(s@[leading_space_count(s@) as int]));
        }
    }
    k
}

/// The subrange `s[from..to]` as a new vector.
pub fn slice_of(s: &[char], from: usize, to: usize) -> (r: Vec<char>)
    requires
        from <= to <= s@.len(),
    ensures
        r@ == s@.subrange(from as int, to as int),
{
    let mut r: Vec<char> = Vec::new();
    let mut i = from;
    while i < to
        invariant
            from <= i <= to <= s@.len(),
            r@ == s@.subrange(from as int, i as int),
        decreases to - i,
    {
        r.push(s[i]);
        i = i + 1;
        assert(r@ =~= s@.subrange(from as int, i as int));
    }
    r
}

/// The characters without leading and trailing whitespace.
pub fn trimmed(s: &[char]) -> (r: Vec<char>)
    ensures
        r@ == trim(s@),
{
    proof {
        lemma_leading_space_count(s@);
    }
    let start = skip_spaces(s);
    let rest = slice_of(s, start, s.len());
    assert(rest@ == trim_start(s@));
    proof {
        lemma_trailing_space_count(rest@);
    }
    let mut end = rest.len();
    while end > 0 && is_space_char(rest[end - 1])
        invariant
            0 <= end <= rest@.len(),
            forall|i: int| end <= i < rest@.len() ==> is_space(#[trigger] rest@[i]),
            trailing_space_count(rest@) <= rest@.len(),
            forall|i: int|
                rest@.len() - trailing_space_count(rest@) <= i < rest@.len() ==> is_space(
                    #[trigger] rest@[i],
                ),
            trailing_space_count(rest@) < rest@.len() ==> !is_space(
                rest@[rest@.len() - trailing_space_count(rest@) - 1],
            ),
        decreases end,
    {
        end = end - 1;
    }
    proof {
        let t = rest@.len() - trailing_space_count(rest@);
        if end > t {
            assert(is_space(rest@[t - 1]));
        }
        if end < t {
            assert(is_space(rest@[end as int]));
        }
    }
    slice_of(&rest, 0, end)
}

} // verus!

verus! {

/// The digits of an unsigned integer literal as `str::parse::<usize>` reads them:
/// an optional `+`, then one or more ASCII digits.
pub open spec fn unsigned_digits(s: Seq<char>) -> Seq<char> {
    if s.len() > 0 && s[0] == '+' {
        s.drop_first()
    } else {
        s
    }
}

/// The value `str::parse::<usize>` reads from a text, ignoring overflow.
pub open spec fn unsigned_value(s: Seq<char>) -> Option<nat> {
    let d = unsigned_digits(s);
    if d.len() > 0 && all_digits(d) {
        Some(digits_value(d))
    } else {
        None
    }
}

/// `str::parse::<usize>`: the value, or `None` when the text is not an unsigned literal
/// or the value does not fit.
pub fn parse_usize(s: &[char]) -> (v: Option<usize>)
    ensures
        v matches Some(n) ==> unsigned_value(s@) == Some(n as nat),
        v is None ==> match unsigned_value(s@) {
            Some(n) => n > usize::MAX,
            None => true,
        },
{
    let start: usize = if s.len() > 0 && s[0] == '+' { 1 } else { 0 };
    let ghost d = unsigned_digits(s@);
    assert(d =~= s@.subrange(start as int, s@.len() as int));
    if start >= s.len() {
        return None;
    }
    let mut value: usize = 0;
    let mut i = start;
    let mut overflowed = false;
    while i < s.len()
        invariant
            start <= i <= s@.len(),
            d == unsigned_digits(s@),
            d =~= s@.subrange(start as int, s@.len() as int),
            forall|j: int| start <= j < i ==> is_digit(s@[j]),
            !overflowed ==> value == digits_value(s@.subrange(start as int, i as int)),
            overflowed ==> digits_value(s@.subrange(start as int, i as int)) > usize::MAX,
        decreases s@.len() - i,
    {
        let c = s[i];
        if !('0' <= c && c <= '9') {
            proof {
                assert(d[i - start] == c);
                assert(!is_digit(d[i - start]));
                assert(!all_digits(d));
            }
            return None;
        }
        let digit = (c as u32 - '0' as u32) as usize;
        proof {
            let u = s@.subrange(start as int, i + 1);
            assert(u.drop_last() =~= s@.subrange(start as int, i as int));
            assert(u.last() == c);
        }
        if !overflowed {
            if value > (usize::MAX - digit) / 10 {
                overflowed = true;
                proof {
                    assert(value * 10 + digit > usize::MAX) by (nonlinear_arith)
                        requires
                            value > (usize::MAX - digit) / 10,
                            digit < 10,
                    ;
                }
            } else {
                proof {
                    assert(value * 10 + digit <= usize::MAX) by (nonlinear_arith)
                        requires
                            value <= (usize::MAX - digit) / 10,
                            digit < 10,
                    ;
                }
                value = value * 10 + digit;
            }
        } else {
            proof {
                let a = digits_value(s@.subrange(start as int, i as int));
                assert(a * 10 + digit > usize::MAX) by (nonlinear_arith)
                    requires
                        a > usize::MAX,
                ;
            }
        }
        i = i + 1;
    }
    proof {
        assert(s@.subrange(start as int, s@.len() as int) =~= d);
        assert(all_digits(d)) by {
            assert forall|j: int| 0 <= j < d.len() implies is_digit(#[trigger] d[j]) by {
                assert(d[j] == s@[start + j]);
            }
        }
    }
    if overflowed {
        None
    } else {
        Some(value)
    }
}

} // verus!

verus! {

/// A vector of characters, viewed deeply, is its plain view.
pub broadcast proof fn lemma_chars_deep_view(v: Vec<char>)
    ensures
        #[trigger] v.deep_view() == v@,
{
    assert(v.deep_view() =~= v@);
}

} // verus!

verus! {

/// The pieces one after another, with `sep` between each two.
pub open spec fn joined_with(pieces: Seq<Seq<char>>, sep: Seq<char>) -> Seq<char>
    decreases pieces.len(),
{
    if pieces.len() == 0 {
        seq![]
    } else if pieces.len() == 1 {
        pieces[0]
    } else {
        joined_with(pieces.drop_last(), sep) + sep + pieces.last()
    }
}

/// The pieces one after another, with `sep` between each two.
pub fn join_with(pieces: &Vec<Vec<char>>, sep: &str) -> (joined: Vec<char>)
    ensures
        joined@ == joined_with(pieces.deep_view(), sep@),
{
    broadcast use lemma_chars_deep_view;

    let mut out: Vec<char> = Vec::new();
    let mut i: usize = 0;
    while i < pieces.len()
        invariant
            0 <= i <= pieces@.len(),
            out@ == joined_with(pieces.deep_view().take(i as int), sep@),
        decreases pieces@.len() - i,
    {
        proof {
            assert(pieces.deep_view().take(i + 1).drop_last() =~= pieces.deep_view().take(i as int));
            assert(pieces.deep_view()[i as int] == pieces@[i as int]@);
        }
        if i > 0 {
            push_str(&mut out, sep);
        }
        push_all(&mut out, pieces[i].as_slice());
        i = i + 1;
        proof {
            if i == 1 {
                assert(out@ =~= pieces.deep_view().take(1)[0]);
            }
        }
    }
    assert(pieces.deep_view().take(i as int) =~= pieces.deep_view());
    out
}

} // verus!

verus! {

/// The characters without leading whitespace.
pub fn trimmed_start(s: &[char]) -> (r: Vec<char>)
    ensures
        r@ == trim_start(s@),
{
    proof {
        lemma_leading_space_count(s@);
    }
    let start = skip_spaces(s);
    slice_of(s, start, s.len())
}

/// The index of the first occurrence of `c` in `s`, if any.
pub open spec fn first_index(s: Seq<char>, c: char) -> Option<nat>
    decreases s.len(),
{
    if s.len() == 0 {
        None
    } else if s[0] == c {
        Some(0)
    } else {
        match first_index(s.drop_first(), c) {
            Some(i) => Some(i + 1),
            None => None,
        }
    }
}

pub proof fn lemma_first_index(s: Seq<char>, c: char)
    ensures
        match first_index(s, c) {
            Some(i) => i < s.len() && s[i as int] == c && forall|j: int| 0 <= j < i ==> s[j] != c,
            None => forall|j: int| 0 <= j < s.len() ==> s[j] != c,
        },
    decreases s.len(),
{
    if s.len() > 0 {
        lemma_first_index(s.drop_first(), c);
        if s[0] != c {
            assert forall|j: int| 0 < j < s.len() implies s[j] == s.drop_first()[j - 1] by {}
        }
    }
}

/// The index of the first occurrence of `c` in `s`, if any.
pub fn first_index_of(s: &[char], c: char) -> (i: Option<usize>)
    ensures
        match i {
            Some(k) => first_index(s@, c) == Some(k as nat),
            None => first_index(s@, c) is None,
        },
{
    proof {
        lemma_first_index(s@, c);
    }
    let mut k: usize = 0;
    while k < s.len()
        invariant
            0 <= k <= s@.len(),
            forall|j: int| 0 <= j < k ==> s@[j] != c,
        decreases s@.len() - k,
    {
        if s[k] == c {
            proof {
                lemma_first_index(s@, c);
                match first_index(s@, c) {
                    Some(f) => {
                        if f < k {
                            assert(s@[f as int] == c);
                        }
                        if f > k {
                            assert(s@[k as int] != c);
                        }
                    },
                    None => {
                        assert(s@[k as int] != c);
                    },
                }
            }
            return Some(k);
        }
        k = k + 1;
    }
    proof {
        if let Some(f) = first_index(s@, c) {
            assert(s@[f as int] == c);
        }
    }
    None
}

/// Whether the characters spell exactly `t`.
pub fn spells(s: &[char], t: &str) -> (same: bool)
    ensures
        same == (s@ == t@),
{
    let chars = chars_of(t);
    if s.len() != chars.len() {
        return false;
    }
    let mut i: usize = 0;
    while i < s.len()
        invariant
            0 <= i <= s@.len(),
            s@.len() == chars@.len(),
            chars@ == t@,
            forall|j: int| 0 <= j < i ==> s@[j] == chars@[j],
        decreases s@.len() - i,
    {
        if s[i] != chars[i] {
            return false;
        }
        i = i + 1;
    }
    assert(s@ =~= chars@);
    true
}

} // verus!

verus! {

/// A line without a trailing carriage return.
pub open spec fn without_cr(line: Seq<char>) -> Seq<char> {
    if line.len() > 0 && line.last() == '\r' {
        line.drop_last()
    } else {
        line
    }
}

/// The lines of a text as `str::lines` yields them: split at `\n`, a `\r` before the `\n`
/// dropped, and no empty line after a final line ending.
pub open spec fn text_lines(text: Seq<char>) -> Seq<Seq<char>> {
    let pieces = crate::path::split_on(text, '\n');
    let complete = if text.len() == 0 {
        Seq::empty()
    } else if text.last() == '\n' {
        pieces.drop_last()
    } else {
        pieces
    };
    Seq::new(
        complete.len(),
        |i: int|
            if i < pieces.len() - 1 {
                without_cr(complete[i])
            } else {
                complete[i]
            },
    )
}

/// The lines of a text as `str::lines` yields them.
pub fn lines_of(text: &Vec<char>) -> (lines: Vec<Vec<char>>)
    ensures
        lines.deep_view() == text_lines(text@),
{
    let pieces = crate::path::split_chars(text, '\n');
    proof {
        crate::path::lemma_split_on_len(text@, '\n');
    }
    let count = if text.len() == 0 {
        0
    } else if text[text.len() - 1] == '\n' {
        pieces.len() - 1
    } else {
        pieces.len()
    };
    let mut lines: Vec<Vec<char>> = Vec::new();
    let mut i: usize = 0;
    while i < count
        invariant
            0 <= i <= count <= pieces@.len(),
            pieces.deep_view() == crate::path::split_on(text@, '\n'),
            count == text_lines(text@).len(),
            lines.deep_view() == text_lines(text@).take(i as int),
        decreases count - i,
    {
        proof {
            lemma_chars_deep_view(pieces@[i as int]);
        }
        assert(pieces.deep_view()[i as int] == pieces@[i as int]@);
        let piece = &pieces[i];
        let line = if i + 1 < pieces.len() && piece.len() > 0 && piece[piece.len() - 1] == '\r' {
            slice_of(piece, 0, piece.len() - 1)
        } else {
            crate::path::clone_chars(piece)
        };
        proof {
            assert(piece@.subrange(0, piece@.len() - 1) =~= piece@.drop_last());
        }
        proof {
            lemma_chars_deep_view(line);
        }
        let ghost prior = lines.deep_view();
        lines.push(line);
        i = i + 1;
        assert(lines.deep_view() =~= text_lines(text@).take(i as int)) by {
            assert(lines.deep_view() =~= prior.push(line@));
        }
    }
    assert(text_lines(text@).take(i as int) =~= text_lines(text@));
    lines
}

} // verus!

verus! {

/// A decimal digit reads back as its value.
pub proof fn lemma_digit_char(d: nat)
    requires
        d < 10,
    ensures
        is_digit(digit_char(d)),
        digit_char(d) as nat - '0' as nat == d,
{
}

/// The decimal spelling of a number is all digits and reads back as the number.
pub proof fn lemma_decimal_reads_back(n: nat)
    ensures
        decimal(n).len() > 0,
        all_digits(decimal(n)),
        digits_value(decimal(n)) == n,
        unsigned_value(decimal(n)) == Some(n),
    decreases n,
{
    if n < 10 {
        lemma_digit_char(n);
        assert(decimal(n).drop_last() =~= Seq::<char>::empty());
        assert(digits_value(decimal(n)) == digits_value(decimal(n).drop_last()) * 10 + (
        decimal(n).last() as nat - '0' as nat));
    } else {
        lemma_decimal_reads_back(n / 10);
        lemma_digit_char(n % 10);
        assert(decimal(n).drop_last() =~= decimal(n / 10));
        assert(decimal(n).last() == digit_char(n % 10));
        assert(n == (n / 10) * 10 + n % 10) by (nonlinear_arith);
        assert(digits_value(decimal(n)) == digits_value(decimal(n).drop_last()) * 10 + (
        decimal(n).last() as nat - '0' as nat));
        assert forall|i: int| 0 <= i < decimal(n).len() implies is_digit(#[trigger] decimal(n)[i]) by {
            if i < decimal(n).len() - 1 {
                assert(decimal(n)[i] == decimal(n / 10)[i]);
            }
        }
    }
    assert(unsigned_digits(decimal(n)) == decimal(n)) by {
        assert(is_digit(decimal(n)[0]));
    }
}

} // verus!
