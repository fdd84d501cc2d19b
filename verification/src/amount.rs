use vstd::prelude::*;
use vstd::string::StringExecFns;

verus! {

// Amounts are fixed-point currency values: an `i128` (or `u64` in a
// transaction record) counts ten-thousandths of a unit, so `25000` renders
// as "2.5000". This module renders such values, and plain ids, as decimal
// text, and parses decimal text into fixed-point values.

/// The decimal digit character for `d` (meaningful for `0 <= d <= 9`).
pub open spec fn digit_char(d: int) -> char {
    if d == 0 {
        '0'
    } else if d == 1 {
        '1'
    } else if d == 2 {
        '2'
    } else if d == 3 {
        '3'
    } else if d == 4 {
        '4'
    } else if d == 5 {
        '5'
    } else if d == 6 {
        '6'
    } else if d == 7 {
        '7'
    } else if d == 8 {
        '8'
    } else {
        '9'
    }
}

/// The usual decimal rendering of `n >= 0`: no sign, no leading zeros
/// (except for `0` itself).
pub open spec fn dec_digits(n: int) -> Seq<char>
    decreases n,
{
    if n < 10 {
        seq![digit_char(n)]
    } else {
        dec_digits(n / 10).push(digit_char(n % 10))
    }
}

/// The four fractional digits of an amount, `f` in ten-thousandths
/// (meaningful for `0 <= f < 10000`), with leading zeros kept.
pub open spec fn frac_digits(f: int) -> Seq<char> {
    seq![
        digit_char(f / 1000),
        digit_char((f / 100) % 10),
        digit_char((f / 10) % 10),
        digit_char(f % 10),
    ]
}

/// The rendering of a nonnegative fixed-point amount `m`: integer part,
/// a dot, then exactly four fractional digits.
pub open spec fn magnitude_text(m: int) -> Seq<char> {
    dec_digits(m / 10000) + seq!['.'] + frac_digits(m % 10000)
}

/// The rendering of a fixed-point amount, negative ones with a leading '-'.
pub open spec fn amount_text(v: int) -> Seq<char> {
    if v < 0 {
        seq!['-'] + magnitude_text(-v)
    } else {
        magnitude_text(v)
    }
}

/// Appends the single decimal digit `d` to `s`.
fn append_digit(s: &mut String, d: u128)
    requires
        d < 10,
    ensures
        final(s)@ == old(s)@.push(digit_char(d as int)),
{
    let ds: &str = if d == 0 {
        "0"
    } else if d == 1 {
        "1"
    } else if d == 2 {
        "2"
    } else if d == 3 {
        "3"
    } else if d == 4 {
        "4"
    } else if d == 5 {
        "5"
    } else if d == 6 {
        "6"
    } else if d == 7 {
        "7"
    } else if d == 8 {
        "8"
    } else {
        "9"
    };
    proof {
        reveal_strlit("0");
        reveal_strlit("1");
        reveal_strlit("2");
        reveal_strlit("3");
        reveal_strlit("4");
        reveal_strlit("5");
        reveal_strlit("6");
        reveal_strlit("7");
        reveal_strlit("8");
        reveal_strlit("9");
        assert(ds@ =~= seq![digit_char(d as int)]);
    }
    s.append(ds);
    proof {
        assert(s@ =~= old(s)@.push(digit_char(d as int)));
    }
}

/// Appends the decimal rendering of `n` to `s`.
pub fn push_dec(s: &mut String, n: u128)
    ensures
        final(s)@ == old(s)@ + dec_digits(n as int),
    decreases n,
{
    if n >= 10 {
        push_dec(s, n / 10);
    }
    append_digit(s, n % 10);
    proof {
        assert(s@ =~= old(s)@ + dec_digits(n as int));
    }
}

/// The decimal rendering of `n` as a fresh string.
pub fn dec_string(n: u128) -> (r: String)
    ensures
        r@ == dec_digits(n as int),
{
    let mut s = String::new();
    push_dec(&mut s, n);
    proof {
        assert(s@ =~= dec_digits(n as int));
    }
    s
}

/// Renders a fixed-point amount with exactly four decimal places, as the
/// snapshot sink expects it.
pub fn format_amount(v: i128) -> (r: String)
    requires
        v > i128::MIN,
    ensures
        r@ == amount_text(v as int),
{
    let mut s = String::new();
    let mag: u128 = if v < 0 {
        s.append("-");
        proof {
            reveal_strlit("-");
            assert(s@ =~= seq!['-']);
        }
        (-v) as u128
    } else {
        v as u128
    };
    push_dec(&mut s, mag / 10000);
    s.append(".");
    proof {
        reveal_strlit(".");
    }
    let f = mag % 10000;
    append_digit(&mut s, f / 1000);
    append_digit(&mut s, (f / 100) % 10);
    append_digit(&mut s, (f / 10) % 10);
    append_digit(&mut s, f % 10);
    proof {
        assert(s@ =~= amount_text(v as int));
    }
    s
}

// ------------------------------------------------------------------
// Parsing: decimal field text from the record source into plain ids and
// fixed-point amounts.

/// An ASCII decimal digit.
pub open spec fn is_digit(b: u8) -> bool {
    48 <= b <= 57
}

pub open spec fn digit_val(b: u8) -> int {
    b - 48
}

pub open spec fn all_digits(s: Seq<u8>) -> bool {
    forall|i: int| 0 <= i < s.len() ==> is_digit(#[trigger] s[i])
}

/// The number a string of decimal digits denotes.
pub open spec fn digits_val(s: Seq<u8>) -> int
    decreases s.len(),
{
    if s.len() == 0 {
        0
    } else {
        digits_val(s.drop_last()) * 10 + digit_val(s.last())
    }
}

pub open spec fn pow10(k: int) -> int
    decreases k,
{
    if k <= 0 {
        1
    } else {
        10 * pow10(k - 1)
    }
}

/// `k` digits denote less than `10^k`.
pub proof fn lemma_digits_val_bound(s: Seq<u8>)
    requires
        all_digits(s),
    ensures
        0 <= digits_val(s) < pow10(s.len() as int),
    decreases s.len(),
{
    if s.len() > 0 {
        lemma_digits_val_bound(s.drop_last());
    }
}

/// A digit string's value only grows as more digits follow.
proof fn lemma_digits_val_prefix_le(s: Seq<u8>, j: int)
    requires
        all_digits(s),
        0 <= j <= s.len(),
    ensures
        digits_val(s.take(j)) <= digits_val(s),
    decreases s.len() - j,
{
    if j == s.len() {
        assert(s.take(j) =~= s);
    } else {
        lemma_digits_val_prefix_le(s, j + 1);
        assert(s.take(j + 1).drop_last() =~= s.take(j));
        assert(s.take(j + 1).last() == s[j]);
        assert(all_digits(s.take(j))) by {
            assert forall|i: int| 0 <= i < s.take(j).len() implies is_digit(s.take(j)[i]) by {
                assert(s.take(j)[i] == s[i]);
            }
        }
        lemma_digits_val_bound(s.take(j));
    }
}

/// Parses an unsigned decimal integer; `None` on an empty string, a
/// non-digit, or a value above `u64::MAX`.
pub fn parse_uint(s: &[u8]) -> (r: Option<u64>)
    ensures
        match r {
            Some(v) => s@.len() > 0 && all_digits(s@) && v == digits_val(s@),
            None => s@.len() == 0 || !all_digits(s@) || digits_val(s@) > u64::MAX,
        },
{
    if s.len() == 0 {
        return None;
    }
    let mut acc: u64 = 0;
    let mut i: usize = 0;
    while i < s.len()
        invariant
            0 <= i <= s@.len(),
            all_digits(s@.take(i as int)),
            acc == digits_val(s@.take(i as int)),
        decreases s@.len() - i,
    {
        let b = s[i];
        if b < 48 || b > 57 {
            return None;
        }
        let d: u64 = (b - 48) as u64;
        proof {
            assert(s@.take(i + 1).drop_last() =~= s@.take(i as int));
            assert(s@.take(i + 1).last() == s@[i as int]);
        }
        if acc > (u64::MAX - d) / 10 {
            proof {
                assert(digits_val(s@.take(i + 1)) == acc * 10 + d > u64::MAX);
                if all_digits(s@) {
                    lemma_digits_val_prefix_le(s@, i + 1);
                }
            }
            return None;
        }
        acc = acc * 10 + d;
        i = i + 1;
    }
    proof {
        assert(s@.take(s@.len() as int) =~= s@);
    }
    Some(acc)
}

/// The index of the first '.' in `s`, or its length if there is none.
pub open spec fn first_dot(s: Seq<u8>) -> int
    decreases s.len(),
{
    if s.len() == 0 {
        0
    } else if s[0] == 46 {
        0
    } else {
        1 + first_dot(s.drop_first())
    }
}

proof fn lemma_first_dot_at(s: Seq<u8>, d: int)
    requires
        0 <= d <= s.len(),
        forall|j: int| 0 <= j < d ==> s[j] != 46,
        d < s.len() ==> s[d] == 46,
    ensures
        first_dot(s) == d,
    decreases d,
{
    if s.len() > 0 && d > 0 {
        lemma_first_dot_at(s.drop_first(), d - 1);
    }
}

/// The amount grammar: one or more integer digits, then optionally a dot
/// and at most four fraction digits.
pub open spec fn valid_amount(s: Seq<u8>) -> bool {
    let d = first_dot(s);
    &&& 1 <= d
    &&& all_digits(s.take(d))
    &&& (d < s.len() ==> {
        &&& s.len() - d - 1 <= 4
        &&& all_digits(s.skip(d + 1))
    })
}

/// How many ten-thousandths one unit of the fraction part stands for, given
/// `k` fraction digits.
pub open spec fn frac_scale(k: int) -> int {
    if k <= 0 {
        10000
    } else if k == 1 {
        1000
    } else if k == 2 {
        100
    } else if k == 3 {
        10
    } else {
        1
    }
}

/// The fixed-point value an amount text denotes, in ten-thousandths.
pub open spec fn amount_val(s: Seq<u8>) -> int {
    let d = first_dot(s);
    if d == s.len() {
        digits_val(s) * 10000
    } else {
        digits_val(s.take(d)) * 10000 + digits_val(s.skip(d + 1)) * frac_scale(s.len() - d - 1)
    }
}

/// Parses an amount text into its fixed-point value; `None` when the text
/// does not fit the grammar or the value does not fit `u64`.
pub fn parse_amount(s: &[u8]) -> (r: Option<u64>)
    ensures
        match r {
            Some(v) => valid_amount(s@) && v == amount_val(s@),
            None => !valid_amount(s@) || amount_val(s@) > u64::MAX,
        },
{
    // find the first dot
    let mut d: usize = 0;
    while d < s.len() && s[d] != 46
        invariant
            0 <= d <= s@.len(),
            forall|j: int| 0 <= j < d ==> s@[j] != 46,
        decreases s@.len() - d,
    {
        d = d + 1;
    }
    proof {
        lemma_first_dot_at(s@, d as int);
    }
    if d == 0 {
        return None;
    }
    let ghost ipart = s@.take(d as int);
    let ghost fpart = s@.skip(d as int + 1);
    let ghost k: int = if (d as int) < s@.len() {
        s@.len() - d - 1
    } else {
        0
    };
    proof {
        assert(pow10(0) == 1);
        assert(pow10(1) == 10);
        assert(pow10(2) == 100);
        assert(pow10(3) == 1000);
        assert(pow10(4) == 10000);
    }
    let ip: u64 = match parse_uint(&s[0..d]) {
        Some(v) => v,
        None => {
            proof {
                assert(s@.subrange(0, d as int) =~= ipart);
                if valid_amount(s@) {
                    // the integer part is digits, so it overflowed alone
                    assert(digits_val(ipart) > u64::MAX);
                    if (d as int) < s@.len() {
                        assert(all_digits(fpart));
                        lemma_digits_val_bound(fpart);
                        assert(digits_val(fpart) * frac_scale(s@.len() - d - 1) >= 0)
                            by (nonlinear_arith)
                            requires
                                digits_val(fpart) >= 0,
                                frac_scale(s@.len() - d - 1) >= 1,
                        ;
                        assert(first_dot(s@) == d as int);
                        assert(amount_val(s@) == digits_val(ipart) * 10000 + digits_val(fpart)
                            * frac_scale(s@.len() - d - 1));
                        assert(amount_val(s@) >= digits_val(ipart) * 10000);
                    } else {
                        assert(ipart =~= s@);
                    }
                    assert(amount_val(s@) > u64::MAX);
                }
            }
            return None;
        },
    };
    proof {
        assert(s@.subrange(0, d as int) =~= ipart);
    }
    let fv: u64;
    let scale: u64;
    if d == s.len() {
        fv = 0;
        scale = 10000;
    } else {
        let flen = s.len() - d - 1;
        if flen > 4 {
            return None;
        }
        if flen == 0 {
            fv = 0;
            scale = 10000;
            proof {
                assert(fpart =~= Seq::<u8>::empty());
            }
        } else {
            fv = match parse_uint(&s[d + 1..s.len()]) {
                Some(v) => v,
                None => {
                    proof {
                        assert(s@.subrange(d as int + 1, s@.len() as int) =~= fpart);
                        if valid_amount(s@) {
                            lemma_digits_val_bound(fpart);
                        }
                    }
                    return None;
                },
            };
            proof {
                assert(s@.subrange(d as int + 1, s@.len() as int) =~= fpart);
            }
            if flen == 1 {
                scale = 1000;
            } else if flen == 2 {
                scale = 100;
            } else if flen == 3 {
                scale = 10;
            } else {
                scale = 1;
            }
        }
    }
    proof {
        if (d as int) < s@.len() && k > 0 {
            lemma_digits_val_bound(fpart);
            if k == 1 {
                assert(fv <= 9 && scale == 1000);
            } else if k == 2 {
                assert(fv <= 99 && scale == 100);
            } else if k == 3 {
                assert(fv <= 999 && scale == 10);
            } else {
                assert(fv <= 9999 && scale == 1);
            }
            assert(fv * scale <= 9999) by (nonlinear_arith)
                requires
                    fv * scale == fv * scale,
                    (fv <= 9 && scale == 1000) || (fv <= 99 && scale == 100) || (fv <= 999
                        && scale == 10) || (fv <= 9999 && scale == 1),
            ;
        } else {
            assert(fv == 0);
        }
    }
    let fs: u64 = fv * scale;
    proof {
        if d == s.len() {
            assert(ipart =~= s@);
            assert(amount_val(s@) == ip * 10000 + fs);
        } else {
            assert(fv == digits_val(fpart));
            assert(scale == frac_scale(k));
            assert(amount_val(s@) == ip * 10000 + fs);
        }
        assert(fs <= 9999);
    }
    // u64::MAX is 18446744073709551615: quotient and remainder by 10000
    if ip > 1844674407370955 {
        proof {
            assert(amount_val(s@) >= ip * 10000 > u64::MAX);
        }
        return None;
    }
    if ip == 1844674407370955 && fs > 1615 {
        proof {
            assert(amount_val(s@) == ip * 10000 + fs > u64::MAX);
        }
        return None;
    }
    let v: u64 = ip * 10000 + fs;
    Some(v)
}

} // verus!

