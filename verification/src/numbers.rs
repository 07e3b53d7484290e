//! Parsing of integer and decimal-number text, with exact grammars: an
//! optional sign followed by one or more digits of the base, consuming the
//! whole string, rejected on overflow.

use vstd::prelude::*;

verus! {

/// The value of one digit character in the given base (10 or 16), if it is
/// one.  Hexadecimal accepts both letter cases.
pub open spec fn digit_value(c: char, base: int) -> Option<int> {
    let v = c as u32;
    if 48 <= v <= 57 {
        Some(v - 48)
    } else if base == 16 && 97 <= v <= 102 {
        Some(v - 87)
    } else if base == 16 && 65 <= v <= 70 {
        Some(v - 55)
    } else {
        None
    }
}

/// Whether `s` is one or more digits of the base, and nothing else.
pub open spec fn digits_ok(s: Seq<char>, base: int) -> bool {
    s.len() >= 1 && forall|i: int| 0 <= i < s.len() ==> digit_value(#[trigger] s[i], base) is Some
}

/// The number spelled by a digit string, most significant digit first.
pub open spec fn digits_num(s: Seq<char>, base: int) -> int
    decreases s.len(),
{
    if s.len() == 0 {
        0
    } else {
        digits_num(s.drop_last(), base) * base + (match digit_value(s.last(), base) {
            Some(d) => d,
            None => 0,
        })
    }
}

/// The integer spelled by `s` in the given base: an optional `+` or `-`
/// sign, then one or more digits, consuming the whole string; `None`
/// otherwise.
pub open spec fn signed_text_value(s: Seq<char>, base: int) -> Option<int> {
    if s.len() > 0 && (s[0] == '+' || s[0] == '-') {
        if digits_ok(s.drop_first(), base) {
            if s[0] == '-' {
                Some(-digits_num(s.drop_first(), base))
            } else {
                Some(digits_num(s.drop_first(), base))
            }
        } else {
            None
        }
    } else if digits_ok(s, base) {
        Some(digits_num(s, base))
    } else {
        None
    }
}

/// The integer spelled by `s` in the given base with at most a leading
/// `+` sign allowed, as unsigned parsing accepts it.
pub open spec fn unsigned_text_value(s: Seq<char>, base: int) -> Option<int> {
    if s.len() > 0 && s[0] == '+' {
        if digits_ok(s.drop_first(), base) {
            Some(digits_num(s.drop_first(), base))
        } else {
            None
        }
    } else if digits_ok(s, base) {
        Some(digits_num(s, base))
    } else {
        None
    }
}

proof fn lemma_digits_num_nonneg(s: Seq<char>, base: int)
    requires
        base == 10 || base == 16,
    ensures
        digits_num(s, base) >= 0,
    decreases s.len(),
{
    if s.len() > 0 {
        lemma_digits_num_nonneg(s.drop_last(), base);
        let p = digits_num(s.drop_last(), base);
        if base == 10 {
            assert(p * 10 >= 0);
        } else {
            assert(p * 16 >= 0);
        }
    }
}

fn digit_of_char(c: char, hex: bool) -> (r: Option<u32>)
    ensures
        match r {
            Some(d) => digit_value(c, if hex { 16int } else { 10int }) == Some(d as int),
            None => digit_value(c, if hex { 16int } else { 10int }) is None,
        },
{
    let v = c as u32;
    if 48 <= v && v <= 57 {
        Some(v - 48)
    } else if hex && 97 <= v && v <= 102 {
        Some(v - 87)
    } else if hex && 65 <= v && v <= 70 {
        Some(v - 55)
    } else {
        None
    }
}

/// Parse a string as a signed machine-word integer in base 10 or 16:
/// an optional sign, then one or more digits, the whole string; rejected
/// when the value does not fit.
pub fn parse_isize_text(s: &str, hex: bool) -> (r: Option<isize>)
    ensures
        ({
            let base = if hex {
                16int
            } else {
                10int
            };
            match r {
                Some(v) => signed_text_value(s@, base) == Some(v as int),
                None => !(signed_text_value(s@, base) matches Some(v) && isize::MIN <= v
                    <= isize::MAX),
            }
        }),
{
    let ghost base: int = if hex { 16int } else { 10int };
    let n = s.unicode_len();
    let mut start: usize = 0;
    let mut neg = false;
    if n > 0 {
        let c0 = s.get_char(0);
        if c0 == '+' {
            start = 1;
        } else if c0 == '-' {
            neg = true;
            start = 1;
        }
    }
    if start == n {
        // no digits at all
        return None;
    }
    let ghost ds = s@.subrange(start as int, n as int);
    let mut acc: isize = 0;
    let mut over = false;
    let mut j: usize = start;
    while j < n
        invariant
            base == if hex {
                16int
            } else {
                10int
            },
            n == s@.len(),
            start <= j <= n,
            start == 0 || start == 1,
            start == 1 <==> n > 0 && (s@[0] == '+' || s@[0] == '-'),
            neg <==> start == 1 && s@[0] == '-',
            !over ==> acc as int == -digits_num(s@.subrange(start as int, j as int), base) && acc
                <= 0,
            over ==> digits_num(s@.subrange(start as int, j as int), base) > -(isize::MIN as int),
            forall|j2: int| start <= j2 < j ==> digit_value(#[trigger] s@[j2], base) is Some,
        decreases n - j,
    {
        let c = s.get_char(j);
        let dv = digit_of_char(c, hex);
        match dv {
            None => {
                proof {
                    if start == 1 {
                        assert(s@.drop_first()[j as int - 1] == s@[j as int]);
                        assert(!digits_ok(s@.drop_first(), base));
                    } else {
                        assert(!digits_ok(s@, base));
                    }
                }
                return None;
            },
            Some(d) => {
                proof {
                    let pre = s@.subrange(start as int, j as int);
                    let pre1 = s@.subrange(start as int, j as int + 1);
                    assert(pre1.drop_last() =~= pre);
                    assert(pre1.last() == s@[j as int]);
                    assert(digits_num(pre1, base) == digits_num(pre, base) * base + d);
                    lemma_digits_num_nonneg(pre, base);
                }
                if over {
                    proof {
                        let pre = s@.subrange(start as int, j as int);
                        let p = digits_num(pre, base);
                        if hex {
                            assert(p * 16 >= p) by {
                                assert(p * 16 - p == p * 15);
                                assert(p * 15 >= 0);
                            }
                        } else {
                            assert(p * 10 >= p) by {
                                assert(p * 10 - p == p * 9);
                                assert(p * 9 >= 0);
                            }
                        }
                    }
                } else {
                    let t: i128 = if hex {
                        acc as i128 * 16 - d as i128
                    } else {
                        acc as i128 * 10 - d as i128
                    };
                    if t < isize::MIN as i128 {
                        over = true;
                    } else {
                        proof {
                            if hex {
                                assert(acc as i128 * 16 <= 0);
                            } else {
                                assert(acc as i128 * 10 <= 0);
                            }
                        }
                        acc = t as isize;
                    }
                }
            },
        }
        j = j + 1;
    }
    proof {
        assert(ds =~= s@.subrange(start as int, n as int));
        assert(digits_ok(ds, base)) by {
            assert forall|i: int| 0 <= i < ds.len() implies digit_value(
                #[trigger] ds[i],
                base,
            ) is Some by {
                assert(ds[i] == s@[start + i]);
            }
        }
        if start == 1 {
            assert(s@.drop_first() =~= ds);
        } else {
            assert(s@ =~= ds);
        }
        lemma_digits_num_nonneg(ds, base);
    }
    if over {
        proof {
            assert(-(isize::MIN as int) == isize::MAX as int + 1);
        }
        return None;
    }
    if neg {
        Some(acc)
    } else {
        if acc == isize::MIN {
            None
        } else {
            Some(-acc)
        }
    }
}

/// Parse a string as a 16-bit unsigned decimal integer: an optional `+`,
/// then one or more digits, the whole string; rejected when the value does
/// not fit.
pub fn parse_u16_text(s: &str) -> (r: Option<u16>)
    ensures
        match r {
            Some(v) => unsigned_text_value(s@, 10) == Some(v as int),
            None => !(unsigned_text_value(s@, 10) matches Some(v) && 0 <= v <= u16::MAX),
        },
{
    let n = s.unicode_len();
    let mut start: usize = 0;
    if n > 0 && s.get_char(0) == '+' {
        start = 1;
    }
    if start == n {
        return None;
    }
    let ghost ds = s@.subrange(start as int, n as int);
    let mut acc: u32 = 0;
    let mut over = false;
    let mut j: usize = start;
    while j < n
        invariant
            n == s@.len(),
            start <= j <= n,
            start == 0 || start == 1,
            start == 1 <==> n > 0 && s@[0] == '+',
            !over ==> acc as int == digits_num(s@.subrange(start as int, j as int), 10) && acc
                <= 0xffff,
            over ==> digits_num(s@.subrange(start as int, j as int), 10) > 0xffff,
            forall|j2: int| start <= j2 < j ==> digit_value(#[trigger] s@[j2], 10) is Some,
        decreases n - j,
    {
        let c = s.get_char(j);
        let dv = digit_of_char(c, false);
        match dv {
            None => {
                proof {
                    if start == 1 {
                        assert(s@.drop_first()[j as int - 1] == s@[j as int]);
                        assert(!digits_ok(s@.drop_first(), 10));
                    } else {
                        assert(!digits_ok(s@, 10));
                    }
                }
                return None;
            },
            Some(d) => {
                proof {
                    let pre = s@.subrange(start as int, j as int);
                    let pre1 = s@.subrange(start as int, j as int + 1);
                    assert(pre1.drop_last() =~= pre);
                    assert(pre1.last() == s@[j as int]);
                    assert(digits_num(pre1, 10) == digits_num(pre, 10) * 10 + d);
                    lemma_digits_num_nonneg(pre, 10);
                }
                if over {
                    proof {
                        let p = digits_num(s@.subrange(start as int, j as int), 10);
                        assert(p * 10 >= p) by {
                            assert(p * 10 - p == p * 9);
                            assert(p * 9 >= 0);
                        }
                    }
                } else {
                    let t: u32 = acc * 10 + d;
                    if t > 0xffff {
                        over = true;
                    } else {
                        acc = t;
                    }
                }
            },
        }
        j = j + 1;
    }
    proof {
        assert(ds =~= s@.subrange(start as int, n as int));
        assert(digits_ok(ds, 10)) by {
            assert forall|i: int| 0 <= i < ds.len() implies digit_value(
                #[trigger] ds[i],
                10,
            ) is Some by {
                assert(ds[i] == s@[start + i]);
            }
        }
        if start == 1 {
            assert(s@.drop_first() =~= ds);
        } else {
            assert(s@ =~= ds);
        }
        lemma_digits_num_nonneg(ds, 10);
    }
    if over {
        return None;
    }
    Some(acc as u16)
}

// ---------------------------------------------------------------------------
// Decimal-number (floating-point) text.
// ---------------------------------------------------------------------------
/// Length of the run of base-10 digits starting at position `i`.
pub open spec fn digit_run(s: Seq<char>, i: int) -> int
    decreases s.len() - i,
{
    if 0 <= i < s.len() && digit_value(s[i], 10) is Some {
        1 + digit_run(s, i + 1)
    } else {
        0
    }
}

/// Whether the tail of `s` from position `i` is empty or a well-formed
/// exponent: `e` or `E`, an optional sign, one or more digits, and nothing
/// after.
pub open spec fn exp_ok(s: Seq<char>, i: int) -> bool {
    if i == s.len() {
        true
    } else if 0 <= i < s.len() && (s[i] == 'e' || s[i] == 'E') {
        let j = if i + 1 < s.len() && (s[i + 1] == '+' || s[i + 1] == '-') {
            i + 2
        } else {
            i + 1
        };
        digit_run(s, j) >= 1 && j + digit_run(s, j) == s.len()
    } else {
        false
    }
}

/// Whether `s` (with any sign already removed) is a well-formed decimal
/// number: digits, an optional point with more digits, or a point with
/// digits, each with an optional exponent.
pub open spec fn number_text(s: Seq<char>) -> bool {
    if s.len() == 0 {
        false
    } else if digit_value(s[0], 10) is Some {
        let d1 = digit_run(s, 0);
        let i = if d1 < s.len() && s[d1] == '.' {
            d1 + 1 + digit_run(s, d1 + 1)
        } else {
            d1
        };
        exp_ok(s, i)
    } else if s[0] == '.' {
        let d = digit_run(s, 1);
        d >= 1 && exp_ok(s, 1 + d)
    } else {
        false
    }
}

/// Whether `s` is a well-formed signed decimal number.
pub open spec fn is_float_text(s: Seq<char>) -> bool {
    if s.len() > 0 && (s[0] == '+' || s[0] == '-') {
        number_text(s.drop_first())
    } else {
        number_text(s)
    }
}

proof fn lemma_digit_run_bounds(s: Seq<char>, i: int)
    requires
        0 <= i <= s.len(),
    ensures
        0 <= digit_run(s, i) <= s.len() - i,
    decreases s.len() - i,
{
    if i < s.len() && digit_value(s[i], 10) is Some {
        lemma_digit_run_bounds(s, i + 1);
    }
}

proof fn lemma_digit_run_char(s: Seq<char>, i: int, r: int)
    requires
        0 <= i <= i + r <= s.len(),
        forall|j: int| i <= j < i + r ==> digit_value(#[trigger] s[j], 10) is Some,
        i + r < s.len() ==> digit_value(s[i + r], 10) is None,
    ensures
        digit_run(s, i) == r,
    decreases r,
{
    if r == 0 {
    } else {
        lemma_digit_run_char(s, i + 1, r - 1);
    }
}

/// Count the run of decimal digits starting at position `i`.
fn scan_digits(s: &str, i: usize) -> (r: usize)
    requires
        i <= s@.len(),
    ensures
        r == digit_run(s@, i as int),
        i + r <= s@.len(),
{
    let n = s.unicode_len();
    let mut j: usize = i;
    while j < n && matches!(digit_of_char(s.get_char(j), false), Some(_))
        invariant
            n == s@.len(),
            i <= j <= n,
            forall|j2: int| i <= j2 < j ==> digit_value(#[trigger] s@[j2], 10) is Some,
        decreases n - j,
    {
        j = j + 1;
    }
    proof {
        lemma_digit_run_char(s@, i as int, j as int - i as int);
    }
    j - i
}

/// Whether the tail of `s` from position `i` is empty or a well-formed
/// exponent.
fn scan_exp(s: &str, i: usize) -> (r: bool)
    requires
        i <= s@.len(),
    ensures
        r == exp_ok(s@, i as int),
{
    let n = s.unicode_len();
    if i == n {
        return true;
    }
    let c = s.get_char(i);
    if c != 'e' && c != 'E' {
        return false;
    }
    let j = if i + 1 < n {
        let c1 = s.get_char(i + 1);
        if c1 == '+' || c1 == '-' {
            i + 2
        } else {
            i + 1
        }
    } else {
        i + 1
    };
    let d = scan_digits(s, j);
    d >= 1 && j + d == n
}

/// Decide whether `s` is a well-formed signed decimal number, the form
/// that floating-point parsing accepts for texts with a decimal point.
pub fn check_float_text(s: &str) -> (r: bool)
    ensures
        r == is_float_text(s@),
{
    let n = s.unicode_len();
    let mut start: usize = 0;
    if n > 0 {
        let c0 = s.get_char(0);
        if c0 == '+' || c0 == '-' {
            start = 1;
        }
    }
    let body = s.substring_char(start, n);
    proof {
        if start == 1 {
            assert(body@ =~= s@.drop_first());
        } else {
            assert(body@ =~= s@);
        }
    }
    check_number_text(body)
}

fn check_number_text(s: &str) -> (r: bool)
    ensures
        r == number_text(s@),
{
    let n = s.unicode_len();
    if n == 0 {
        return false;
    }
    let c0 = s.get_char(0);
    if matches!(digit_of_char(c0, false), Some(_)) {
        let d1 = scan_digits(s, 0);
        let i = if d1 < n && s.get_char(d1) == '.' {
            let d2 = scan_digits(s, d1 + 1);
            d1 + 1 + d2
        } else {
            d1
        };
        scan_exp(s, i)
    } else if c0 == '.' {
        let d = scan_digits(s, 1);
        if d < 1 {
            return false;
        }
        scan_exp(s, 1 + d)
    } else {
        false
    }
}

} // verus!
