//! Character classes, decimal and hexadecimal number parsing and UTF-8
//! lengths, as the standard library defines them for `char` and `str`.

use vstd::prelude::*;

verus! {

/// `char::is_ascii_digit`.
pub open spec fn spec_is_ascii_digit(c: char) -> bool {
    '0' <= c && c <= '9'
}

/// `char::is_ascii_punctuation`: the ASCII graphic characters that are not
/// letters or digits.
pub open spec fn spec_is_ascii_punctuation(c: char) -> bool {
    ('!' <= c && c <= '/') || (':' <= c && c <= '@') || ('[' <= c && c <= '`') || ('{' <= c
        && c <= '~')
}

/// `char::is_ascii_whitespace`: space, tab, line feed, form feed, carriage return.
pub open spec fn spec_is_ascii_whitespace(c: char) -> bool {
    c == ' ' || c == '\t' || c == '\n' || c == '\x0C' || c == '\r'
}

pub fn is_ascii_digit(c: char) -> (b: bool)
    ensures
        b == spec_is_ascii_digit(c),
{
    '0' <= c && c <= '9'
}

pub fn is_ascii_punctuation(c: char) -> (b: bool)
    ensures
        b == spec_is_ascii_punctuation(c),
{
    ('!' <= c && c <= '/') || (':' <= c && c <= '@') || ('[' <= c && c <= '`') || ('{' <= c
        && c <= '~')
}

pub fn is_ascii_whitespace(c: char) -> (b: bool)
    ensures
        b == spec_is_ascii_whitespace(c),
{
    c == ' ' || c == '\t' || c == '\n' || c == '\x0C' || c == '\r'
}

/// Number of bytes of a character in UTF-8 (`char::len_utf8`).
pub open spec fn spec_utf8_len(c: char) -> nat {
    if (c as u32) < 0x80 {
        1
    } else if (c as u32) < 0x800 {
        2
    } else if (c as u32) < 0x10000 {
        3
    } else {
        4
    }
}

/// Number of bytes of a string in UTF-8 (`str::len`).
pub open spec fn spec_utf8_len_seq(s: Seq<char>) -> nat
    decreases s.len(),
{
    if s.len() == 0 {
        0
    } else {
        spec_utf8_len_seq(s.drop_last()) + spec_utf8_len(s.last())
    }
}

pub proof fn lemma_utf8_len_seq_bounds(s: Seq<char>)
    ensures
        s.len() <= spec_utf8_len_seq(s) <= 4 * s.len(),
    decreases s.len(),
{
    if s.len() > 0 {
        lemma_utf8_len_seq_bounds(s.drop_last());
    }
}

pub fn utf8_len(c: char) -> (n: usize)
    ensures
        n == spec_utf8_len(c),
{
    let v = c as u32;
    if v < 0x80 {
        1
    } else if v < 0x800 {
        2
    } else if v < 0x10000 {
        3
    } else {
        4
    }
}

/// The UTF-8 byte length of a character sequence.
pub fn utf8_len_chars(s: &Vec<char>) -> (n: usize)
    requires
        s@.len() <= usize::MAX / 4,
    ensures
        n == spec_utf8_len_seq(s@),
{
    let mut n: usize = 0;
    let mut i: usize = 0;
    while i < s.len()
        invariant
            i <= s@.len(),
            s@.len() <= usize::MAX / 4,
            n == spec_utf8_len_seq(s@.take(i as int)),
        decreases s@.len() - i,
    {
        proof {
            assert(s@.take(i as int + 1).drop_last() =~= s@.take(i as int));
            lemma_utf8_len_seq_bounds(s@.take(i as int));
        }
        n = n + utf8_len(s[i]);
        i += 1;
    }
    proof {
        assert(s@.take(s@.len() as int) =~= s@);
    }
    n
}

/// Value of a decimal digit character.
pub open spec fn digit_value(c: char) -> int {
    (c as u32) - ('0' as u32)
}

pub open spec fn all_decimal_digits(s: Seq<char>) -> bool {
    forall|i: int| 0 <= i < s.len() ==> spec_is_ascii_digit(#[trigger] s[i])
}

/// The number a sequence of decimal digits denotes.
pub open spec fn decimal_value(s: Seq<char>) -> int
    decreases s.len(),
{
    if s.len() == 0 {
        0
    } else {
        decimal_value(s.drop_last()) * 10 + digit_value(s.last())
    }
}

/// What `i32::from_str` returns: an optional sign, at least one digit, and
/// only digits after it, with the value in range; `None` for every error.
pub open spec fn spec_parse_i32(s: Seq<char>) -> Option<i32> {
    let negative = s.len() > 0 && s[0] == '-';
    let digits = if s.len() > 0 && (s[0] == '+' || s[0] == '-') {
        s.drop_first()
    } else {
        s
    };
    if digits.len() == 0 || !all_decimal_digits(digits) {
        None
    } else {
        let v = if negative {
            -decimal_value(digits)
        } else {
            decimal_value(digits)
        };
        if i32::MIN <= v <= i32::MAX {
            Some(v as i32)
        } else {
            None
        }
    }
}

/// What `u32::from_str` returns: an optional `+`, at least one digit, and only
/// digits after it, with the value in range; `None` for every error.
pub open spec fn spec_parse_u32(s: Seq<char>) -> Option<u32> {
    let digits = if s.len() > 0 && s[0] == '+' {
        s.drop_first()
    } else {
        s
    };
    if digits.len() == 0 || !all_decimal_digits(digits) {
        None
    } else if decimal_value(digits) <= u32::MAX {
        Some(decimal_value(digits) as u32)
    } else {
        None
    }
}

pub proof fn lemma_decimal_value_nonneg(s: Seq<char>)
    requires
        all_decimal_digits(s),
    ensures
        decimal_value(s) >= 0,
    decreases s.len(),
{
    if s.len() > 0 {
        assert(all_decimal_digits(s.drop_last())) by {
            assert forall|i: int| 0 <= i < s.drop_last().len() implies spec_is_ascii_digit(
                #[trigger] s.drop_last()[i],
            ) by {
                assert(s.drop_last()[i] == s[i]);
            }
        }
        lemma_decimal_value_nonneg(s.drop_last());
        assert(spec_is_ascii_digit(s[s.len() - 1]));
    }
}

/// A bound above every magnitude that an `i32` or `u32` can hold.
pub open spec fn magnitude_cap() -> int {
    0x1_0000_0000
}

/// Scans the digits of `s` from `start`; `None` if a non-digit occurs or if
/// there are none, else the value capped at `magnitude_cap()`.
fn scan_decimal(s: &Vec<char>, start: usize) -> (r: Option<u64>)
    requires
        start <= s@.len(),
    ensures
        match r {
            None => s@.skip(start as int).len() == 0 || !all_decimal_digits(s@.skip(start as int)),
            Some(v) => {
                &&& s@.skip(start as int).len() > 0
                &&& all_decimal_digits(s@.skip(start as int))
                &&& v as int == if decimal_value(s@.skip(start as int)) < magnitude_cap() {
                    decimal_value(s@.skip(start as int))
                } else {
                    magnitude_cap()
                }
            },
        },
{
    if start >= s.len() {
        return None;
    }
    let ghost d = s@.skip(start as int);
    let mut v: u64 = 0;
    let mut i: usize = start;
    while i < s.len()
        invariant
            start <= i <= s@.len(),
            d == s@.skip(start as int),
            all_decimal_digits(d.take(i - start)),
            v as int == if decimal_value(d.take(i - start)) < magnitude_cap() {
                decimal_value(d.take(i - start))
            } else {
                magnitude_cap()
            },
        decreases s@.len() - i,
    {
        let c = s[i];
        if !is_ascii_digit(c) {
            proof {
                assert(d[i - start] == c);
            }
            return None;
        }
        proof {
            let p = d.take(i - start);
            let q = d.take(i - start + 1);
            assert(q.drop_last() =~= p);
            assert(q.last() == c);
            assert(all_decimal_digits(q)) by {
                assert forall|k: int| 0 <= k < q.len() implies spec_is_ascii_digit(#[trigger] q[k]) by {
                    if k < p.len() {
                        assert(q[k] == p[k]);
                    }
                }
            }
            lemma_decimal_value_nonneg(p);
        }
        let digit = ((c as u32) - ('0' as u32)) as u64;
        if v >= 0x1_0000_0000 {
            v = 0x1_0000_0000;
        } else {
            let nv = v * 10 + digit;
            v = if nv >= 0x1_0000_0000 {
                0x1_0000_0000
            } else {
                nv
            };
        }
        i += 1;
    }
    proof {
        assert(d.take(i - start) =~= d);
    }
    Some(v)
}

/// Parse a string of characters as `i32::from_str` does.
pub fn parse_i32(s: &Vec<char>) -> (r: Option<i32>)
    ensures
        r == spec_parse_i32(s@),
{
    let has_sign = s.len() > 0 && (s[0] == '+' || s[0] == '-');
    let negative = s.len() > 0 && s[0] == '-';
    let start: usize = if has_sign {
        1
    } else {
        0
    };
    proof {
        if has_sign {
            assert(s@.skip(1) =~= s@.drop_first());
        } else {
            assert(s@.skip(0) =~= s@);
        }
    }
    match scan_decimal(s, start) {
        None => None,
        Some(v) => {
            proof {
                lemma_decimal_value_nonneg(s@.skip(start as int));
            }
            if negative {
                if v <= 0x8000_0000 {
                    let r: i64 = -(v as i64);
                    Some(r as i32)
                } else {
                    None
                }
            } else {
                if v <= 0x7fff_ffff {
                    Some(v as i32)
                } else {
                    None
                }
            }
        },
    }
}

/// Parse a string of characters as `u32::from_str` does.
pub fn parse_u32(s: &Vec<char>) -> (r: Option<u32>)
    ensures
        r == spec_parse_u32(s@),
{
    let has_sign = s.len() > 0 && s[0] == '+';
    let start: usize = if has_sign {
        1
    } else {
        0
    };
    proof {
        if has_sign {
            assert(s@.skip(1) =~= s@.drop_first());
        } else {
            assert(s@.skip(0) =~= s@);
        }
    }
    match scan_decimal(s, start) {
        None => None,
        Some(v) => {
            proof {
                lemma_decimal_value_nonneg(s@.skip(start as int));
            }
            if v <= 0xffff_ffff {
                Some(v as u32)
            } else {
                None
            }
        },
    }
}

} // verus!
