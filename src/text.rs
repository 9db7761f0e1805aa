//! Line handling: whitespace trimming and decimal integer parsing.
use vstd::prelude::*;

verus! {

/// Characters with the Unicode `White_Space` property.
pub open spec fn is_white_space(c: char) -> bool {
    let u = c as u32;
    (0x09 <= u && u <= 0x0d) || u == 0x20 || u == 0x85 || u == 0xa0 || u == 0x1680
        || (0x2000 <= u && u <= 0x200a) || u == 0x2028 || u == 0x2029 || u == 0x202f
        || u == 0x205f || u == 0x3000
}

/// `s` without its leading white space.
pub open spec fn trim_start(s: Seq<char>) -> Seq<char>
    decreases s.len(),
{
    if s.len() > 0 && is_white_space(s[0]) {
        trim_start(s.drop_first())
    } else {
        s
    }
}

/// `s` without its trailing white space.
pub open spec fn trim_end(s: Seq<char>) -> Seq<char>
    decreases s.len(),
{
    if s.len() > 0 && is_white_space(s.last()) {
        trim_end(s.drop_last())
    } else {
        s
    }
}

/// `s` without leading and trailing white space.
pub open spec fn trimmed(s: Seq<char>) -> Seq<char> {
    trim_end(trim_start(s))
}

/// Whether `c` is white space in the Unicode sense.
pub fn is_white_space_char(c: char) -> (r: bool)
    ensures
        r == is_white_space(c),
{
    let u = c as u32;
    (0x09 <= u && u <= 0x0d) || u == 0x20 || u == 0x85 || u == 0xa0 || u == 0x1680
        || (0x2000 <= u && u <= 0x200a) || u == 0x2028 || u == 0x2029 || u == 0x202f
        || u == 0x205f || u == 0x3000
}

/// Returns `s` with leading and trailing white space removed.
pub fn trim(s: &str) -> (r: &str)
    ensures
        r@ == trimmed(s@),
{
    let n = s.unicode_len();
    let mut i: usize = 0;
    assert(s@.subrange(0, n as int) =~= s@);
    while i < n && is_white_space_char(s.get_char(i))
        invariant
            n == s@.len(),
            i <= n,
            trim_start(s@) == trim_start(s@.subrange(i as int, n as int)),
        decreases n - i,
    {
        assert(s@.subrange(i as int, n as int).drop_first() =~= s@.subrange(i + 1, n as int));
        i = i + 1;
    }
    assert(trim_start(s@) == s@.subrange(i as int, n as int));
    let mut j: usize = n;
    while j > i && is_white_space_char(s.get_char(j - 1))
        invariant
            n == s@.len(),
            i <= j <= n,
            trimmed(s@) == trim_end(s@.subrange(i as int, j as int)),
        decreases j,
    {
        assert(s@.subrange(i as int, j as int).drop_last() =~= s@.subrange(i as int, j - 1));
        j = j - 1;
    }
    s.substring_char(i, j)
}


pub open spec fn is_digit(c: char) -> bool {
    '0' as u32 <= c as u32 && c as u32 <= '9' as u32
}

pub open spec fn digit_value(c: char) -> int {
    c as u32 - '0' as u32
}

pub open spec fn all_digits(s: Seq<char>) -> bool {
    forall|i: int| 0 <= i < s.len() ==> is_digit(#[trigger] s[i])
}

/// The number that the decimal digits `s` spell, most significant first.
pub open spec fn digits_value(s: Seq<char>) -> int
    decreases s.len(),
{
    if s.len() == 0 {
        0
    } else {
        10 * digits_value(s.drop_last()) + digit_value(s.last())
    }
}

/// The integer that `s` spells: an optional `+` or `-` followed by one or
/// more ASCII digits, and nothing else.
pub open spec fn integer_value(s: Seq<char>) -> Option<int> {
    if s.len() >= 2 && s[0] == '-' && all_digits(s.drop_first()) {
        Some(-digits_value(s.drop_first()))
    } else if s.len() >= 2 && s[0] == '+' && all_digits(s.drop_first()) {
        Some(digits_value(s.drop_first()))
    } else if s.len() >= 1 && all_digits(s) {
        Some(digits_value(s))
    } else {
        None
    }
}

/// The integer that `s` spells, where it fits in an `i64`.
pub open spec fn i64_value(s: Seq<char>) -> Option<int> {
    match integer_value(s) {
        Some(v) => if i64::MIN <= v <= i64::MAX {
            Some(v)
        } else {
            None
        },
        None => None,
    }
}

proof fn lemma_digits_value_nonneg(s: Seq<char>)
    requires
        all_digits(s),
    ensures
        digits_value(s) >= 0,
    decreases s.len(),
{
    if s.len() > 0 {
        lemma_digits_value_nonneg(s.drop_last());
    }
}

/// A prefix of a digit string spells no more than the whole string.
proof fn lemma_prefix_value_le(s: Seq<char>, m: int)
    requires
        all_digits(s),
        0 <= m <= s.len(),
    ensures
        digits_value(s.subrange(0, m)) <= digits_value(s),
    decreases s.len(),
{
    if m < s.len() {
        let t = s.drop_last();
        lemma_prefix_value_le(t, m);
        assert(t.subrange(0, m) =~= s.subrange(0, m));
        lemma_digits_value_nonneg(t);
    } else {
        assert(s.subrange(0, m) =~= s);
    }
}

/// Parses `s` as a decimal `i64`, as `str::parse::<i64>` does: an optional
/// sign, then at least one ASCII digit, with nothing around them.
pub fn parse_i64(s: &str) -> (r: Option<i64>)
    ensures
        match r {
            Some(x) => i64_value(s@) == Some(x as int),
            None => i64_value(s@) is None,
        },
{
    let n = s.unicode_len();
    if n == 0 {
        return None;
    }
    let first = s.get_char(0);
    let negative = first == '-';
    let start: usize = if first == '-' || first == '+' { 1 } else { 0 };
    if start == n {
        return None;
    }
    let limit: u64 = if negative { 0x8000_0000_0000_0000 } else { 0x7fff_ffff_ffff_ffff };
    let ghost digits = s@.subrange(start as int, n as int);
    assert(start == 1 ==> digits =~= s@.drop_first());
    assert(start == 0 ==> digits =~= s@);
    let mut acc: u64 = 0;
    let mut i: usize = start;
    while i < n
        invariant
            n == s@.len(),
            start <= i <= n,
            digits == s@.subrange(start as int, n as int),
            first == s@[0],
            negative == (first == '-'),
            start == (if first == '-' || first == '+' { 1usize } else { 0usize }),
            start == 1 ==> digits == s@.drop_first(),
            start == 0 ==> digits == s@,
            acc <= limit,
            limit == (if negative { 0x8000_0000_0000_0000u64 } else { 0x7fff_ffff_ffff_ffffu64 }),
            all_digits(s@.subrange(start as int, i as int)),
            acc as int == digits_value(s@.subrange(start as int, i as int)),
        decreases n - i,
    {
        let c = s.get_char(i);
        let ghost prefix = s@.subrange(start as int, i + 1);
        assert(prefix.drop_last() =~= s@.subrange(start as int, i as int));
        if !((c as u32) >= ('0' as u32) && (c as u32) <= ('9' as u32)) {
            assert(!all_digits(digits)) by {
                assert(digits[i - start] == c);
            }
            return None;
        }
        let d = (c as u32 - '0' as u32) as u64;
        if acc > (limit - d) / 10 {
            assert(all_digits(prefix));
            assert(digits_value(prefix) > limit) by (nonlinear_arith)
                requires
                    digits_value(prefix) == 10 * acc + d,
                    acc > (limit - d) / 10,
                    d <= 9,
                    d <= limit,
            ;
            proof {
                if all_digits(digits) {
                    lemma_prefix_value_le(digits, i + 1 - start);
                    assert(digits.subrange(0, i + 1 - start) =~= prefix);
                }
            }
            return None;
        }
        acc = acc * 10 + d;
        i = i + 1;
    }
    assert(s@.subrange(start as int, n as int) == digits);
    if negative {
        if acc == 0x8000_0000_0000_0000 {
            Some(i64::MIN)
        } else {
            Some(-(acc as i64))
        }
    } else {
        Some(acc as i64)
    }
}


/// The decimal digit that stands for `d`, for `d` below ten.
pub open spec fn digit_char(d: nat) -> char {
    if d == 0 { '0' }
    else if d == 1 { '1' }
    else if d == 2 { '2' }
    else if d == 3 { '3' }
    else if d == 4 { '4' }
    else if d == 5 { '5' }
    else if d == 6 { '6' }
    else if d == 7 { '7' }
    else if d == 8 { '8' }
    else { '9' }
}

/// `n` written in decimal, without sign or leading zeros.
pub open spec fn decimal_text(n: nat) -> Seq<char>
    decreases n,
{
    if n < 10 {
        seq![digit_char(n)]
    } else {
        decimal_text(n / 10).push(digit_char(n % 10))
    }
}

proof fn lemma_decimal_text_digits(n: nat)
    ensures
        decimal_text(n).len() >= 1,
        all_digits(decimal_text(n)),
        digits_value(decimal_text(n)) == n,
    decreases n,
{
    let c = digit_char(n % 10);
    assert(is_digit(c) && digit_value(c) == n % 10);
    if n < 10 {
        assert(decimal_text(n).drop_last() =~= Seq::<char>::empty());
    } else {
        lemma_decimal_text_digits(n / 10);
        assert(decimal_text(n).drop_last() =~= decimal_text(n / 10));
    }
    assert(decimal_text(n).last() == c);
    assert(digits_value(decimal_text(n)) == 10 * digits_value(decimal_text(n).drop_last())
        + digit_value(c));
    assert(n == 10 * (n / 10) + n % 10);
}

/// A number written in decimal reads back, with nothing to trim, as that
/// number, wherever it fits in an `i64`.
pub proof fn law_decimal_text_parses(n: nat)
    requires
        n <= i64::MAX,
    ensures
        trimmed(decimal_text(n)) == decimal_text(n),
        i64_value(trimmed(decimal_text(n))) == Some(n as int),
{
    let s = decimal_text(n);
    lemma_decimal_text_digits(n);
    assert(is_digit(s[0]));
    assert(is_digit(s.last()));
    assert(!is_white_space(s[0]));
    assert(!is_white_space(s.last()));
    assert(trim_start(s) == s);
    assert(trim_end(s) == s);
}

} // verus!
