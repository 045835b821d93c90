//! Decimal numerals: parsing a 32-bit identifier and printing one.

use vstd::prelude::*;
use crate::text::push_char;

verus! {

/// An ASCII decimal digit.
pub open spec fn is_digit(c: char) -> bool {
    '0' <= c && c <= '9'
}

/// The numeric value of a digit character.
pub open spec fn digit_val(c: char) -> int {
    c as int - '0' as int
}

/// Every character of `s` is a decimal digit.
pub open spec fn all_digits(s: Seq<char>) -> bool {
    forall|i: int| 0 <= i < s.len() ==> is_digit(s[i])
}

/// The value of a digit string read in base ten.
pub open spec fn digits_val(s: Seq<char>) -> int
    decreases s.len(),
{
    if s.len() == 0 {
        0
    } else {
        digits_val(s.drop_last()) * 10 + digit_val(s.last())
    }
}

/// What `str::parse::<i32>` accepts and returns: an optional sign followed
/// by one or more digits, whose value fits in 32 bits.
pub open spec fn spec_parse_i32(s: Seq<char>) -> Option<i32> {
    let neg = s.len() > 0 && s[0] == '-';
    let ds = if s.len() > 0 && (s[0] == '-' || s[0] == '+') {
        s.subrange(1, s.len() as int)
    } else {
        s
    };
    if ds.len() == 0 || !all_digits(ds) {
        None
    } else {
        let v = if neg {
            -digits_val(ds)
        } else {
            digits_val(ds)
        };
        if i32::MIN <= v <= i32::MAX {
            Some(v as i32)
        } else {
            None
        }
    }
}

/// A digit string has a non-negative value.
pub proof fn lemma_digits_val_nonneg(s: Seq<char>)
    requires
        all_digits(s),
    ensures
        digits_val(s) >= 0,
    decreases s.len(),
{
    if s.len() > 0 {
        assert(all_digits(s.drop_last()));
        lemma_digits_val_nonneg(s.drop_last());
    }
}

/// Extending a digit string never lowers its value.
pub proof fn lemma_digits_val_prefix(s: Seq<char>, k: int)
    requires
        all_digits(s),
        0 <= k <= s.len(),
    ensures
        digits_val(s) >= digits_val(s.subrange(0, k)),
    decreases s.len() - k,
{
    if k < s.len() {
        let t = s.drop_last();
        assert(all_digits(t));
        assert(t.subrange(0, k) =~= s.subrange(0, k));
        lemma_digits_val_prefix(t, k);
        lemma_digits_val_nonneg(t);
    } else {
        assert(s.subrange(0, k) =~= s);
    }
}

/// Parses `s` as a 32-bit signed decimal numeral, exactly as
/// `str::parse::<i32>` would.
pub fn parse_i32(s: &str) -> (r: Option<i32>)
    ensures
        r == spec_parse_i32(s@),
{
    let n = s.unicode_len();
    let ghost sv = s@;
    let mut i: usize = 0;
    let mut neg = false;
    if n > 0 {
        let c0 = s.get_char(0);
        if c0 == '-' || c0 == '+' {
            neg = c0 == '-';
            i = 1;
        }
    }
    let ghost ds = if sv.len() > 0 && (sv[0] == '-' || sv[0] == '+') {
        sv.subrange(1, sv.len() as int)
    } else {
        sv
    };
    assert(ds =~= sv.subrange(i as int, sv.len() as int));
    if i == n {
        return None;
    }
    let mut acc: u64 = 0;
    let mut j: usize = i;
    while j < n
        invariant
            i <= j <= n,
            n == sv.len(),
            sv == s@,
            ds == sv.subrange(i as int, sv.len() as int),
            ds == (if sv.len() > 0 && (sv[0] == '-' || sv[0] == '+') {
                sv.subrange(1, sv.len() as int)
            } else {
                sv
            }),
            ds.len() > 0,
            acc <= 0x8000_0000,
            all_digits(ds.subrange(0, (j - i) as int)),
            acc == digits_val(ds.subrange(0, (j - i) as int)),
        decreases n - j,
    {
        let c = s.get_char(j);
        if !(c >= '0' && c <= '9') {
            assert(ds[(j - i) as int] == sv[j as int]);
            assert(!all_digits(ds));
            return None;
        }
        let d: u32 = c as u32 - 0x30;
        proof {
            let pre = ds.subrange(0, (j - i) as int);
            let cur = ds.subrange(0, (j - i) as int + 1);
            assert(cur.drop_last() =~= pre);
            assert(cur.last() == sv[j as int]);
        }
        acc = acc * 10 + d as u64;
        j += 1;
        if acc > 0x8000_0000 {
            proof {
                if all_digits(ds) {
                    lemma_digits_val_prefix(ds, (j - i) as int);
                }
            }
            return None;
        }
    }
    proof {
        assert(ds.subrange(0, (j - i) as int) =~= ds);
    }
    if neg {
        if acc == 0x8000_0000 {
            Some(i32::MIN)
        } else {
            Some(-(acc as i32))
        }
    } else {
        if acc == 0x8000_0000 {
            None
        } else {
            Some(acc as i32)
        }
    }
}

/// The character for the digit `d`.
pub open spec fn digit_char(d: int) -> char {
    ((d + 0x30) as u8) as char
}

/// The decimal digits of the non-negative number `n`, most significant
/// first, with no sign and no leading zero (a single `0` for zero).
pub open spec fn spec_nat_digits(n: int) -> Seq<char>
    decreases n,
{
    if n < 10 {
        seq![digit_char(n)]
    } else {
        spec_nat_digits(n / 10).push(digit_char(n % 10))
    }
}

/// The decimal numeral of `n`: a `-` sign for negative values, then the
/// digits of the magnitude.
pub open spec fn spec_i32_string(n: int) -> Seq<char> {
    if n < 0 {
        seq!['-'] + spec_nat_digits(-n)
    } else {
        spec_nat_digits(n)
    }
}

/// Every character the digit printer emits is a digit, and reading the
/// digits back yields the number itself.
pub proof fn lemma_nat_digits_val(n: int)
    requires
        n >= 0,
    ensures
        all_digits(spec_nat_digits(n)),
        digits_val(spec_nat_digits(n)) == n,
        spec_nat_digits(n).len() >= 1,
    decreases n,
{
    if n < 10 {
        let s = spec_nat_digits(n);
        reveal_with_fuel(digits_val, 3);
        assert(s.len() == 1);
        assert(s.drop_last() =~= Seq::<char>::empty());
        assert(digit_val(digit_char(n)) == n);
    } else {
        lemma_nat_digits_val(n / 10);
        let s = spec_nat_digits(n);
        assert(s.drop_last() =~= spec_nat_digits(n / 10));
        assert(s.last() == digit_char(n % 10));
        assert(digit_val(digit_char(n % 10)) == n % 10);
        assert(n / 10 * 10 + n % 10 == n);
    }
}

/// Appends the digits of `n` to `out`.
fn push_nat_digits(n: u32, out: &mut String)
    ensures
        final(out)@ == old(out)@ + spec_nat_digits(n as int),
    decreases n,
{
    if n < 10 {
        let c = ((0x30 + n) as u8) as char;
        push_char(out, c);
        assert(out@ =~= old(out)@ + spec_nat_digits(n as int));
    } else {
        push_nat_digits(n / 10, out);
        let c = ((0x30 + n % 10) as u8) as char;
        push_char(out, c);
        assert(out@ =~= old(out)@ + spec_nat_digits(n as int));
    }
}

/// Prints `n` as its decimal numeral.
pub fn i32_to_string(n: i32) -> (r: String)
    ensures
        r@ == spec_i32_string(n as int),
{
    let mut out = String::new();
    if n < 0 {
        push_char(&mut out, '-');
        let mag = (-(n as i64)) as u32;
        push_nat_digits(mag, &mut out);
        assert(out@ =~= spec_i32_string(n as int));
    } else {
        push_nat_digits(n as u32, &mut out);
        assert(out@ =~= spec_i32_string(n as int));
    }
    out
}

} // verus!
