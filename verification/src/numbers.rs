//! Verified decimal rendering and parsing.
//!
//! All currency amounts, quantities and rates in this crate are integers in
//! scaled units (minor currency units, hundredths of a unit, basis points),
//! so every number that reaches a document is rendered from an integer and
//! every number read from a spreadsheet cell is parsed into one.

use vstd::prelude::*;

verus! {

use vstd::string::StringExecFns;

/// The character for a single decimal digit value.
pub open spec fn digit_char(d: int) -> char {
    if d == 0 {
        '0'
    } else if d == 1 {
        '1'
    } else if d == 2 {
        '2'
    } else if d == 3 {
        '3'
    } else if d == 4 {
        '4'
    } else if d == 5 {
        '5'
    } else if d == 6 {
        '6'
    } else if d == 7 {
        '7'
    } else if d == 8 {
        '8'
    } else {
        '9'
    }
}

/// Decimal digits of `n`, most significant first, without leading zeros
/// (a single `'0'` for zero).
pub open spec fn dec_digits(n: nat) -> Seq<char>
    decreases n,
{
    if n < 10 {
        seq![digit_char(n as int)]
    } else {
        dec_digits(n / 10).push(digit_char((n % 10) as int))
    }
}

/// `n` rendered as exactly two digits, zero-padded.
pub open spec fn two_digit_chars(n: int) -> Seq<char> {
    seq![digit_char(n / 10), digit_char(n % 10)]
}

/// `n` rendered as exactly four digits, zero-padded.
pub open spec fn four_digit_chars(n: int) -> Seq<char> {
    seq![
        digit_char(n / 1000),
        digit_char(n / 100 % 10),
        digit_char(n / 10 % 10),
        digit_char(n % 10),
    ]
}

/// Pushes the single digit `d` onto `s`.
fn append_digit(s: &mut String, d: u8)
    requires
        d < 10,
    ensures
        final(s)@ == old(s)@ + seq![digit_char(d as int)],
{
    match d {
        0 => {
            proof {
                reveal_strlit("0");
            }
            s.append("0");
        },
        1 => {
            proof {
                reveal_strlit("1");
            }
            s.append("1");
        },
        2 => {
            proof {
                reveal_strlit("2");
            }
            s.append("2");
        },
        3 => {
            proof {
                reveal_strlit("3");
            }
            s.append("3");
        },
        4 => {
            proof {
                reveal_strlit("4");
            }
            s.append("4");
        },
        5 => {
            proof {
                reveal_strlit("5");
            }
            s.append("5");
        },
        6 => {
            proof {
                reveal_strlit("6");
            }
            s.append("6");
        },
        7 => {
            proof {
                reveal_strlit("7");
            }
            s.append("7");
        },
        8 => {
            proof {
                reveal_strlit("8");
            }
            s.append("8");
        },
        _ => {
            proof {
                reveal_strlit("9");
            }
            s.append("9");
        },
    }
}

/// The digit characters of `ds`, in reverse order.
spec fn rev_digit_chars(ds: Seq<u8>) -> Seq<char> {
    Seq::new(ds.len(), |k: int| digit_char(ds[ds.len() - 1 - k] as int))
}

/// Appends the decimal rendering of `n` to `s`.
pub fn append_dec_u64(s: &mut String, n: u64)
    ensures
        final(s)@ == old(s)@ + dec_digits(n as nat),
{
    if n == 0 {
        append_digit(s, 0);
        return ;
    }
    let mut ds: Vec<u8> = Vec::new();
    let mut m: u64 = n;
    proof {
        assert(dec_digits(n as nat) =~= dec_digits(n as nat) + rev_digit_chars(ds@));
    }
    while m > 0
        invariant
            forall|k: int| 0 <= k < ds@.len() ==> ds@[k] < 10,
            m > 0 ==> dec_digits(n as nat) == dec_digits(m as nat) + rev_digit_chars(ds@),
            m == 0 ==> dec_digits(n as nat) == rev_digit_chars(ds@),
            m > 0 || ds@.len() > 0,
        decreases m,
    {
        let d = (m % 10) as u8;
        let ghost pre = ds@;
        ds.push(d);
        proof {
            assert(rev_digit_chars(ds@) =~= seq![digit_char(d as int)] + rev_digit_chars(pre));
            if m >= 10 {
                assert(dec_digits(m as nat) == dec_digits((m / 10) as nat).push(
                    digit_char((m % 10) as int),
                ));
                assert(dec_digits((m / 10) as nat) + rev_digit_chars(ds@) =~= dec_digits(
                    (m / 10) as nat,
                ).push(digit_char(d as int)) + rev_digit_chars(pre));
            } else {
                assert(dec_digits(m as nat) =~= seq![digit_char(m as int)]);
                assert(dec_digits(m as nat) + rev_digit_chars(pre) =~= rev_digit_chars(ds@));
            }
        }
        m = m / 10;
    }
    let ghost total = rev_digit_chars(ds@);
    let mut i: usize = ds.len();
    while i > 0
        invariant
            i <= ds@.len(),
            forall|k: int| 0 <= k < ds@.len() ==> ds@[k] < 10,
            total == rev_digit_chars(ds@),
            s@ == old(s)@ + total.take(ds@.len() - i),
        decreases i,
    {
        append_digit(s, ds[i - 1]);
        proof {
            assert(total.take(ds@.len() - (i - 1)) =~= total.take(ds@.len() - i).push(
                digit_char(ds@[i - 1] as int),
            ));
        }
        i = i - 1;
    }
    proof {
        assert(total.take(ds@.len() as int) =~= total);
    }
}

/// Appends `n` zero-padded to two digits.
pub fn append_two_digits(s: &mut String, n: u32)
    requires
        n < 100,
    ensures
        final(s)@ == old(s)@ + two_digit_chars(n as int),
{
    append_digit(s, (n / 10) as u8);
    append_digit(s, (n % 10) as u8);
    proof {
        assert(s@ =~= old(s)@ + two_digit_chars(n as int));
    }
}

/// Appends `n` zero-padded to four digits.
pub fn append_four_digits(s: &mut String, n: u32)
    requires
        n < 10000,
    ensures
        final(s)@ == old(s)@ + four_digit_chars(n as int),
{
    append_digit(s, (n / 1000) as u8);
    append_digit(s, (n / 100 % 10) as u8);
    append_digit(s, (n / 10 % 10) as u8);
    append_digit(s, (n % 10) as u8);
    proof {
        assert(s@ =~= old(s)@ + four_digit_chars(n as int));
    }
}

/// The decimal rendering of `n` as a fresh string.
pub fn u64_to_dec_string(n: u64) -> (r: String)
    ensures
        r@ == dec_digits(n as nat),
{
    let mut s = String::new();
    append_dec_u64(&mut s, n);
    proof {
        assert(Seq::<char>::empty() + dec_digits(n as nat) =~= dec_digits(n as nat));
    }
    s
}


/// True for an ASCII decimal digit.
pub open spec fn is_digit_char(c: char) -> bool {
    '0' as int <= c as int <= '9' as int
}

/// The numeric value of a digit character.
pub open spec fn digit_val(c: char) -> int {
    c as int - '0' as int
}

/// True when every character of `s` is a decimal digit.
pub open spec fn all_digits(s: Seq<char>) -> bool {
    forall|k: int| 0 <= k < s.len() ==> is_digit_char(s[k])
}

/// The integer denoted by the digit string `s` (most significant first).
pub open spec fn digits_val(s: Seq<char>) -> int
    decreases s.len(),
{
    if s.len() == 0 {
        0
    } else {
        digits_val(s.drop_last()) * 10 + digit_val(s.last())
    }
}

/// Index of the first `'.'` in `s`, or `-1` when there is none.
pub open spec fn first_dot(s: Seq<char>) -> int
    decreases s.len(),
{
    if s.len() == 0 {
        -1
    } else if s[0] == '.' {
        0
    } else {
        let r = first_dot(s.drop_first());
        if r < 0 {
            -1
        } else {
            r + 1
        }
    }
}

/// The largest integer part a parsed decimal may have so that its value in
/// hundredths still fits an `i64`.
pub const INT_PART_CAP: i64 = 92233720368547757;

/// The value in hundredths contributed by a fractional digit string: only
/// the first two fractional digits count, so values are truncated toward
/// zero at two decimal places.
pub open spec fn frac_hundredths(s: Seq<char>) -> int {
    if s.len() == 0 {
        0
    } else if s.len() == 1 {
        digit_val(s[0]) * 10
    } else {
        digit_val(s[0]) * 10 + digit_val(s[1])
    }
}

/// The decimal number denoted by `s`, in hundredths, truncated toward zero
/// at two decimal places: an optional minus sign, one or more integer
/// digits, then optionally a dot and one or more fractional digits.
/// `None` when `s` has any other shape or the integer part is too large.
pub open spec fn parse_hundredths_spec(s: Seq<char>) -> Option<i64> {
    let neg = s.len() > 0 && s[0] == '-';
    let body = if neg {
        s.drop_first()
    } else {
        s
    };
    let dot = first_dot(body);
    let ip = if dot < 0 {
        body
    } else {
        body.take(dot)
    };
    let fp = if dot < 0 {
        Seq::<char>::empty()
    } else {
        body.skip(dot + 1)
    };
    if ip.len() > 0 && all_digits(ip) && (dot < 0 || (fp.len() > 0 && all_digits(fp)))
        && digits_val(ip) <= INT_PART_CAP {
        let mag = digits_val(ip) * 100 + frac_hundredths(fp);
        Some((if neg { -mag } else { mag }) as i64)
    } else {
        None
    }
}

proof fn lemma_digits_val_nonneg(s: Seq<char>)
    requires
        all_digits(s),
    ensures
        digits_val(s) >= 0,
    decreases s.len(),
{
    if s.len() > 0 {
        assert(all_digits(s.drop_last()));
        lemma_digits_val_nonneg(s.drop_last());
    }
}

proof fn lemma_dot_found(s: Seq<char>, p: int)
    requires
        first_dot(s) == p,
        0 <= p,
    ensures
        p < s.len() && s[p] == '.',
    decreases s.len(),
{
    if s.len() > 0 && s[0] != '.' {
        lemma_dot_found(s.drop_first(), p - 1);
    }
}

proof fn lemma_first_dot_at(s: Seq<char>, p: int)
    requires
        0 <= p < s.len(),
        s[p] == '.',
        forall|k: int| 0 <= k < p ==> s[k] != '.',
    ensures
        first_dot(s) == p,
    decreases p,
{
    if p > 0 {
        lemma_first_dot_at(s.drop_first(), p - 1);
    }
}

proof fn lemma_first_dot_none(s: Seq<char>)
    requires
        forall|k: int| 0 <= k < s.len() ==> s[k] != '.',
    ensures
        first_dot(s) == -1,
    decreases s.len(),
{
    if s.len() > 0 {
        lemma_first_dot_none(s.drop_first());
    }
}

/// True when the character at position `i` of `t` is a decimal digit.
pub(crate) fn is_digit_at(t: &str, i: usize) -> (r: bool)
    requires
        i < t@.len(),
    ensures
        r == is_digit_char(t@[i as int]),
{
    let u = t.get_char(i) as u32;
    48 <= u && u <= 57
}

/// The numeric value of the digit at position `i` of `t`.
fn digit_value_at(t: &str, i: usize) -> (d: u8)
    requires
        i < t@.len(),
        is_digit_char(t@[i as int]),
    ensures
        d == digit_val(t@[i as int]),
        d < 10,
{
    (t.get_char(i) as u32 - 48) as u8
}

/// Parses `t` as a decimal number into hundredths, truncated toward zero
/// at two decimal places.
#[verifier::loop_isolation(false)]
#[verifier::rlimit(100)]
#[verifier::spinoff_prover]
pub fn parse_hundredths(t: &str) -> (r: Option<i64>)
    ensures
        r == parse_hundredths_spec(t@),
{
    let n = t.unicode_len();
    let ghost s = t@;
    let mut i: usize = 0;
    let neg = n > 0 && t.get_char(0) as u32 == 45;
    proof {
        if s.len() > 0 {
            assert(s[0] == '-' <==> s[0] as int == 45);
        }
    }
    if neg {
        i = 1;
    }
    let ghost b0 = i as int;
    let ghost body = s.skip(b0);
    proof {
        if neg {
            assert(body =~= s.drop_first());
        } else {
            assert(body =~= s);
        }
    }
    let start = i;
    let mut val: i64 = 0;
    let mut big = false;
    while i < n && is_digit_at(t, i)
        invariant
            start <= i <= n,
            forall|k: int| start <= k < i ==> is_digit_char(s[k]) && s[k] != '.',
            !big ==> val == digits_val(s.subrange(start as int, i as int)) && 0 <= val
                <= INT_PART_CAP,
            big ==> digits_val(s.subrange(start as int, i as int)) > INT_PART_CAP,
        decreases n - i,
    {
        let d = digit_value_at(t, i);
        let ghost pre = s.subrange(start as int, i as int);
        proof {
            assert(s.subrange(start as int, i + 1).drop_last() =~= pre);
            assert(s.subrange(start as int, i + 1).last() == s[i as int]);
            assert(s[i as int] != '.') by {
                assert('.' as int == 46);
            }
            if big {
                assert(digits_val(s.subrange(start as int, i + 1)) == digits_val(pre) * 10
                    + digit_val(s[i as int]));
                assert(all_digits(pre));
                lemma_digits_val_nonneg(pre);
            }
        }
        if !big {
            let w = val * 10 + d as i64;
            if w > INT_PART_CAP {
                big = true;
            } else {
                val = w;
            }
        }
        i = i + 1;
    }
    let ghost dot = first_dot(body);
    let ghost ip = if dot < 0 { body } else { body.take(dot) };
    proof {
        assert(forall|k: int| 0 <= k < body.len() ==> body[k] == s[b0 + k]);
    }
    if i == start {
        // no integer digits at all: the spec integer part is empty or starts
        // with a non-digit
        proof {
            if body.len() == 0 {
                assert(first_dot(body) == -1);
                assert(ip.len() == 0);
            } else if body[0] == '.' {
                assert(dot == 0);
                assert(ip.len() == 0);
            } else {
                assert(!is_digit_char(body[0]));
                if dot < 0 {
                    assert(ip[0] == body[0]);
                    assert(!all_digits(ip));
                } else {
                    assert(dot != 0);
                    lemma_dot_found(body, dot);
                    assert(ip[0] == body[0]);
                    assert(!all_digits(ip));
                }
            }
        }
        return None;
    }
    if i == n {
        // digits to the end of the string: no fractional part
        proof {
            lemma_first_dot_none(body);
            assert(ip =~= s.subrange(start as int, i as int));
            assert(all_digits(ip));
            if !big {
                lemma_digits_val_nonneg(ip);
            }
        }
        if big {
            return None;
        }
        let mag = val * 100;
        return Some(if neg { -mag } else { mag });
    }
    // a non-digit stopped the scan
    let cu = t.get_char(i) as u32;
    proof {
        assert(s[i as int] == '.' <==> s[i as int] as int == 46);
    }
    if cu != 46 {
        // not a dot: the string is not a plain decimal number
        proof {
            let bi = i - b0;
            assert(body[bi] == s[i as int]);
            if dot < 0 {
                assert(ip[bi] == body[bi]);
                assert(!is_digit_char(ip[bi]));
                assert(!all_digits(ip));
            } else if dot < bi {
                lemma_dot_found(body, dot);
                lemma_dot_found(body, dot);
                assert(s[b0 + dot] == '.');
                assert(false);
            } else {
                lemma_dot_found(body, dot);
                assert(body[dot] == '.');
                assert(dot != bi);
                assert(ip[bi] == body[bi]);
                assert(!is_digit_char(ip[bi]));
                assert(!all_digits(ip));
            }
        }
        return None;
    }
    proof {
        lemma_first_dot_at(body, i - b0);
        assert(dot == i - b0);
        assert(ip =~= s.subrange(start as int, i as int));
        assert(all_digits(ip));
    }
    let ghost fp = body.skip(dot + 1);
    proof {
        assert(fp =~= s.subrange(i + 1, n as int));
    }
    if i + 1 == n {
        // a trailing dot with no fractional digits
        return None;
    }
    let mut j: usize = i + 1;
    let mut fh: i64 = 0;
    while j < n && is_digit_at(t, j)
        invariant
            i + 1 <= j <= n,
            forall|k: int| i + 1 <= k < j ==> is_digit_char(s[k]),
            fh == frac_hundredths(s.subrange(i + 1, j as int)),
            0 <= fh <= 99,
        decreases n - j,
    {
        let d = digit_value_at(t, j);
        proof {
            let nxt = s.subrange(i + 1, j + 1);
            let cur = s.subrange(i + 1, j as int);
            assert(forall|k: int| 0 <= k < nxt.len() ==> nxt[k] == s[i + 1 + k]);
            assert(forall|k: int| 0 <= k < cur.len() ==> cur[k] == s[i + 1 + k]);
        }
        if j == i + 1 {
            fh = d as i64 * 10;
        } else if j == i + 2 {
            fh = fh + d as i64;
        }
        j = j + 1;
    }
    if j < n {
        // a non-digit inside the fractional part
        proof {
            assert(fp[j - (i + 1)] == s[j as int]);
            assert(!all_digits(fp));
        }
        return None;
    }
    proof {
        assert(all_digits(fp));
        assert(fp.len() > 0);
        assert(frac_hundredths(fp) == fh) by {
            assert(fp =~= s.subrange(i + 1, n as int));
        }
        if !big {
            lemma_digits_val_nonneg(ip);
        }
    }
    if big {
        return None;
    }
    let mag = val * 100 + fh;
    Some(if neg { -mag } else { mag })
}

/// The rendering of a non-negative value in hundredths: the integer part in
/// decimal, then a fractional part only when it is non-zero, itself trimmed
/// of a trailing zero.
pub open spec fn magnitude_hundredths_chars(m: nat) -> Seq<char> {
    dec_digits(m / 100) + if m % 100 == 0 {
        Seq::<char>::empty()
    } else if m % 10 == 0 {
        seq!['.', digit_char((m / 10 % 10) as int)]
    } else {
        seq!['.', digit_char((m / 10 % 10) as int), digit_char((m % 10) as int)]
    }
}

/// The rendering of a value in hundredths, with a leading minus sign when
/// negative.
pub open spec fn hundredths_chars(h: int) -> Seq<char> {
    if h < 0 {
        seq!['-'] + magnitude_hundredths_chars((-h) as nat)
    } else {
        magnitude_hundredths_chars(h as nat)
    }
}

/// Renders a value in hundredths as a decimal string.
pub fn hundredths_to_string(h: i64) -> (r: String)
    requires
        h > i64::MIN,
    ensures
        r@ == hundredths_chars(h as int),
{
    let mut s = String::new();
    let m: u64;
    if h < 0 {
        proof {
            reveal_strlit("-");
        }
        s.append("-");
        m = (-h) as u64;
    } else {
        m = h as u64;
    }
    let ghost base = s@;
    append_dec_u64(&mut s, m / 100);
    if m % 100 != 0 {
        proof {
            reveal_strlit(".");
        }
        s.append(".");
        if m % 10 == 0 {
            append_digit(&mut s, (m / 10 % 10) as u8);
        } else {
            append_digit(&mut s, (m / 10 % 10) as u8);
            append_digit(&mut s, (m % 10) as u8);
        }
    }
    proof {
        assert(s@ =~= base + magnitude_hundredths_chars(m as nat));
        if h < 0 {
            assert(base =~= seq!['-']);
            assert(s@ =~= hundredths_chars(h as int));
        } else {
            assert(base =~= Seq::<char>::empty());
            assert(s@ =~= hundredths_chars(h as int));
        }
    }
    s
}

} // verus!
