//! Decimal formatting and parsing for integers and fixed-point values, with
//! exact character-level specifications.  The persistence formats (label
//! lines, vertex strings, path commands) are built on these.

use vstd::prelude::*;

verus! {

/// The decimal digit character for `d`.
pub open spec fn digit_char(d: int) -> char {
    if d == 0 {
        '0'
    } else if d == 1 {
        '1'
    } else if d == 2 {
        '2'
    } else if d == 3 {
        '3'
    } else if d == 4 {
        '4'
    } else if d == 5 {
        '5'
    } else if d == 6 {
        '6'
    } else if d == 7 {
        '7'
    } else if d == 8 {
        '8'
    } else {
        '9'
    }
}

/// Whether `c` is a decimal digit.
pub open spec fn is_digit(c: char) -> bool {
    48 <= c as int <= 57
}

/// The numeric value of a digit character.
pub open spec fn digit_val(c: char) -> int {
    c as int - 48
}

/// Whether every character of `s` is a decimal digit.
pub open spec fn all_digits(s: Seq<char>) -> bool {
    forall|i: int| 0 <= i < s.len() ==> is_digit(#[trigger] s[i])
}

/// The standard decimal rendering of `n`: most significant digit first, no
/// leading zeros (except for zero itself).
pub open spec fn dec_digits(n: nat) -> Seq<char>
    decreases n,
{
    if n < 10 {
        seq![digit_char(n as int)]
    } else {
        dec_digits(n / 10).push(digit_char((n % 10) as int))
    }
}

/// The rendering of a signed integer: a minus sign before the digits of the
/// magnitude.
pub open spec fn int_str(v: int) -> Seq<char> {
    if v < 0 {
        seq!['-'] + dec_digits((-v) as nat)
    } else {
        dec_digits(v as nat)
    }
}

/// The numeric value of a digit string, most significant digit first.
pub open spec fn dec_val(s: Seq<char>) -> int
    decreases s.len(),
{
    if s.len() == 0 {
        0
    } else {
        dec_val(s.drop_last()) * 10 + digit_val(s.last())
    }
}

/// Each digit character reads back as its digit.
pub proof fn lemma_digit_char_val(d: int)
    requires
        0 <= d <= 9,
    ensures
        digit_val(digit_char(d)) == d,
        is_digit(digit_char(d)),
{
    assert('0' as int == 48);
    assert('1' as int == 49);
    assert('2' as int == 50);
    assert('3' as int == 51);
    assert('4' as int == 52);
    assert('5' as int == 53);
    assert('6' as int == 54);
    assert('7' as int == 55);
    assert('8' as int == 56);
    assert('9' as int == 57);
}

/// `dec_digits` produces digits only, at least one of them, and `dec_val`
/// recovers the number.
pub proof fn lemma_dec_digits(n: nat)
    ensures
        dec_digits(n).len() >= 1,
        all_digits(dec_digits(n)),
        dec_val(dec_digits(n)) == n,
    decreases n,
{
    if n < 10 {
        lemma_digit_char_val(n as int);
        let s = dec_digits(n);
        assert(s =~= seq![digit_char(n as int)]);
        assert(s.drop_last() =~= Seq::<char>::empty());
        assert(s.last() == digit_char(n as int));
        assert(dec_val(s) == dec_val(s.drop_last()) * 10 + digit_val(s.last()));
        assert(dec_val(s.drop_last()) == 0);
    } else {
        lemma_dec_digits(n / 10);
        lemma_digit_char_val((n % 10) as int);
        let s = dec_digits(n);
        assert(s =~= dec_digits(n / 10).push(digit_char((n % 10) as int)));
        assert(s.drop_last() =~= dec_digits(n / 10));
        assert(s.last() == digit_char((n % 10) as int));
        assert(dec_val(s) == dec_val(s.drop_last()) * 10 + digit_val(s.last()));
        assert(dec_val(s) == (n / 10) * 10 + (n % 10));
        assert(n / 10 * 10 + n % 10 == n) by {
            vstd::arithmetic::div_mod::lemma_fundamental_div_mod(n as int, 10);
        }
        assert forall|i: int| 0 <= i < s.len() implies is_digit(#[trigger] s[i]) by {
            if i < s.len() - 1 {
                assert(s[i] == dec_digits(n / 10)[i]);
            }
        }
    }
}

/// The value of a digit string is non-negative.
pub proof fn lemma_dec_val_nonneg(s: Seq<char>)
    requires
        all_digits(s),
    ensures
        dec_val(s) >= 0,
    decreases s.len(),
{
    if s.len() > 0 {
        assert(all_digits(s.drop_last())) by {
            assert(forall|i: int|
                0 <= i < s.drop_last().len() ==> #[trigger] s.drop_last()[i] == s[i]);
        }
        lemma_dec_val_nonneg(s.drop_last());
    }
}

/// Extending a digit string on the right never decreases its value.
pub proof fn lemma_dec_val_prefix_le(s: Seq<char>, i: int)
    requires
        all_digits(s),
        0 <= i <= s.len(),
    ensures
        dec_val(s.take(i)) <= dec_val(s),
    decreases s.len() - i,
{
    if i < s.len() {
        assert(all_digits(s.take(i + 1))) by {
            assert(forall|k: int| 0 <= k < i + 1 ==> #[trigger] s.take(i + 1)[k] == s[k]);
        }
        assert(s.take(i + 1).drop_last() =~= s.take(i));
        assert(s.take(i + 1).last() == s[i]);
        assert(all_digits(s.take(i))) by {
            assert(forall|k: int| 0 <= k < i ==> #[trigger] s.take(i)[k] == s[k]);
        }
        lemma_dec_val_nonneg(s.take(i));
        assert(dec_val(s.take(i + 1)) == dec_val(s.take(i)) * 10 + digit_val(s[i]));
        assert(dec_val(s.take(i)) <= dec_val(s.take(i)) * 10) by (nonlinear_arith)
            requires
                dec_val(s.take(i)) >= 0,
        ;
        lemma_dec_val_prefix_le(s, i + 1);
        assert(s.take(s.len() as int) =~= s);
    } else {
        assert(s.take(i) =~= s);
    }
}

/// The exec rendering of one digit.
fn digit_str(d: u64) -> (s: &'static str)
    requires
        d < 10,
    ensures
        s@ =~= seq![digit_char(d as int)],
        s@.len() == 1,
{
    proof {
        reveal_strlit("0");
        reveal_strlit("1");
        reveal_strlit("2");
        reveal_strlit("3");
        reveal_strlit("4");
        reveal_strlit("5");
        reveal_strlit("6");
        reveal_strlit("7");
        reveal_strlit("8");
        reveal_strlit("9");
    }
    if d == 0 {
        "0"
    } else if d == 1 {
        "1"
    } else if d == 2 {
        "2"
    } else if d == 3 {
        "3"
    } else if d == 4 {
        "4"
    } else if d == 5 {
        "5"
    } else if d == 6 {
        "6"
    } else if d == 7 {
        "7"
    } else if d == 8 {
        "8"
    } else {
        "9"
    }
}

/// Render an unsigned integer in decimal.
pub fn fmt_u64(n: u64) -> (s: String)
    ensures
        s@ == dec_digits(n as nat),
    decreases n,
{
    if n < 10 {
        let d = digit_str(n);
        let s = d.to_owned();
        proof {
            assert(s@ =~= dec_digits(n as nat));
        }
        s
    } else {
        let mut s = fmt_u64(n / 10);
        s.append(digit_str(n % 10));
        proof {
            assert(s@ =~= dec_digits(n as nat));
        }
        s
    }
}

/// Render a signed integer in decimal, with a leading minus sign when
/// negative.
pub fn fmt_i64(v: i64) -> (s: String)
    ensures
        s@ == int_str(v as int),
{
    if v >= 0 {
        fmt_u64(v as u64)
    } else {
        let mag: u64 = (-(v as i128)) as u64;
        let mut s = String::new();
        proof {
            reveal_strlit("-");
        }
        s.append("-");
        let digits = fmt_u64(mag);
        s.append(digits.as_str());
        proof {
            assert("-"@ =~= seq!['-']);
            assert(s@ =~= seq!['-'] + dec_digits(mag as nat));
            assert(s@ =~= int_str(v as int));
        }
        s
    }
}

/// Parse an unsigned decimal integer.  Succeeds exactly on non-empty
/// all-digit strings whose value fits in a `u64`, and then returns that
/// value.
pub fn parse_u64(s: &str) -> (r: Option<u64>)
    ensures
        r is Some ==> s@.len() > 0 && all_digits(s@) && r->0 == dec_val(s@),
        s@.len() > 0 && all_digits(s@) && dec_val(s@) <= u64::MAX ==> r == Some(
            dec_val(s@) as u64,
        ),
{
    let n = s.unicode_len();
    if n == 0 {
        return None;
    }
    let mut i: usize = 0;
    let mut acc: u64 = 0;
    proof {
        assert(s@.take(0) =~= Seq::<char>::empty());
    }
    while i < n
        invariant
            0 <= i <= n,
            n == s@.len(),
            all_digits(s@.take(i as int)),
            acc == dec_val(s@.take(i as int)),
        decreases n - i,
    {
        let c = s.get_char(i);
        let code = c as u32;
        if code < 48 || code > 57 {
            proof {
                assert(!is_digit(s@[i as int]));
            }
            return None;
        }
        let d = (code - 48) as u64;
        proof {
            assert(s@.take(i + 1).drop_last() =~= s@.take(i as int));
            assert(s@.take(i + 1).last() == s@[i as int]);
            assert(all_digits(s@.take(i + 1))) by {
                assert(forall|k: int| 0 <= k < i ==> #[trigger] s@.take(i + 1)[k] == s@.take(
                    i as int,
                )[k]);
            }
        }
        if acc > (u64::MAX - d) / 10 {
            proof {
                lemma_dec_val_nonneg(s@.take(i + 1));
                assert(dec_val(s@.take(i + 1)) == acc * 10 + d);
                assert(acc * 10 + d > u64::MAX) by (nonlinear_arith)
                    requires
                        acc > (u64::MAX - d) / 10,
                        d < 10,
                ;
                if all_digits(s@) {
                    lemma_dec_val_prefix_le(s@, i + 1);
                }
            }
            return None;
        }
        proof {
            assert(acc * 10 + d <= u64::MAX) by (nonlinear_arith)
                requires
                    acc <= (u64::MAX - d) / 10,
                    d < 10,
            ;
        }
        acc = acc * 10 + d;
        i = i + 1;
    }
    proof {
        assert(s@.take(n as int) =~= s@);
    }
    Some(acc)
}

/// The signed-integer reading of a decimal string: an optional minus sign
/// before one or more digits.
pub open spec fn int_val(s: Seq<char>) -> Option<int> {
    if s.len() > 0 && s[0] == '-' {
        let body = s.subrange(1, s.len() as int);
        if body.len() > 0 && all_digits(body) {
            Some(-dec_val(body))
        } else {
            None
        }
    } else if s.len() > 0 && all_digits(s) {
        Some(dec_val(s))
    } else {
        None
    }
}

/// The renderings of [`int_str`] read back as the value they were made from.
pub proof fn lemma_int_str_val(v: int)
    ensures
        int_val(int_str(v)) == Some(v),
{
    if v >= 0 {
        lemma_dec_digits(v as nat);
        assert(is_digit(int_str(v)[0]));
    } else {
        lemma_dec_digits((-v) as nat);
        let s = int_str(v);
        assert(s[0] == '-');
        assert(s.subrange(1, s.len() as int) =~= dec_digits((-v) as nat));
    }
}

/// Parse a signed decimal integer: an optional minus sign before the digits.
/// Succeeds exactly on strings whose reading exists and fits in an `i64`,
/// and then returns that reading.
pub fn parse_i64(s: &str) -> (r: Option<i64>)
    ensures
        r is Some ==> int_val(s@) == Some(r->0 as int),
        int_val(s@) is Some && i64::MIN <= int_val(s@)->0 <= i64::MAX ==> r is Some
            && r->0 == int_val(s@)->0,
{
    let n = s.unicode_len();
    if n == 0 {
        return None;
    }
    let first = s.get_char(0);
    if first == '-' {
        let rest = s.substring_char(1, n);
        proof {
            assert(rest@ =~= s@.subrange(1, n as int));
        }
        match parse_u64(rest) {
            None => None,
            Some(mag) => {
                if mag <= 0x8000_0000_0000_0000u64 {
                    let r: i64 = if mag == 0x8000_0000_0000_0000u64 {
                        i64::MIN
                    } else {
                        -(mag as i64)
                    };
                    Some(r)
                } else {
                    proof {
                        lemma_dec_val_nonneg(rest@);
                    }
                    None
                }
            },
        }
    } else {
        match parse_u64(s) {
            None => None,
            Some(mag) => {
                if mag <= i64::MAX as u64 {
                    Some(mag as i64)
                } else {
                    None
                }
            },
        }
    }
}


/// Ten to the `p`.
pub open spec fn pow10(p: nat) -> int
    decreases p,
{
    if p == 0 {
        1
    } else {
        10 * pow10((p - 1) as nat)
    }
}

pub proof fn lemma_pow10_pos(p: nat)
    ensures
        pow10(p) >= 1,
    decreases p,
{
    if p > 0 {
        lemma_pow10_pos((p - 1) as nat);
    }
}

/// Powers of ten up to the eighteenth fit in a `u64`.
pub proof fn lemma_pow10_le_18(p: nat)
    requires
        p <= 18,
    ensures
        pow10(p) <= 1_000_000_000_000_000_000,
{
    lemma_pow10_mono(p, 18);
    reveal_with_fuel(pow10, 19);
    assert(pow10(18) == 1_000_000_000_000_000_000);
}

/// Powers of ten are monotone.
pub proof fn lemma_pow10_mono(a: nat, b: nat)
    requires
        a <= b,
    ensures
        pow10(a) <= pow10(b),
    decreases b,
{
    if a < b {
        lemma_pow10_mono(a, (b - 1) as nat);
        lemma_pow10_pos((b - 1) as nat);
    }
}

/// Powers of ten multiply by adding exponents.
pub proof fn lemma_pow10_mul(a: nat, b: nat)
    ensures
        pow10(a + b) == pow10(a) * pow10(b),
    decreases a,
{
    if a == 0 {
    } else {
        lemma_pow10_mul((a - 1) as nat, b);
        assert(pow10(a + b) == 10 * pow10((a + b - 1) as nat));
        assert(pow10(a) * pow10(b) == 10 * (pow10((a - 1) as nat) * pow10(b))) by (nonlinear_arith)
            requires
                pow10(a) == 10 * pow10((a - 1) as nat),
        ;
    }
}

/// The fractional digits of `r` at width `p`: exactly `p` digits, zero
/// padded on the left.
pub open spec fn frac_digits(r: nat, p: nat) -> Seq<char>
    decreases p,
{
    if p == 0 {
        Seq::empty()
    } else {
        frac_digits(r / 10, (p - 1) as nat).push(digit_char((r % 10) as int))
    }
}

pub proof fn lemma_frac_digits(r: nat, p: nat)
    requires
        r < pow10(p),
    ensures
        frac_digits(r, p).len() == p,
        all_digits(frac_digits(r, p)),
        dec_val(frac_digits(r, p)) == r,
    decreases p,
{
    if p == 0 {
    } else {
        vstd::arithmetic::div_mod::lemma_fundamental_div_mod(r as int, 10);
        lemma_pow10_pos((p - 1) as nat);
        assert(r / 10 < pow10((p - 1) as nat));
        lemma_frac_digits(r / 10, (p - 1) as nat);
        lemma_digit_char_val((r % 10) as int);
        let s = frac_digits(r, p);
        assert(s =~= frac_digits(r / 10, (p - 1) as nat).push(digit_char((r % 10) as int)));
        assert(s.drop_last() =~= frac_digits(r / 10, (p - 1) as nat));
        assert(s.last() == digit_char((r % 10) as int));
        assert(dec_val(s) == dec_val(s.drop_last()) * 10 + digit_val(s.last()));
        assert forall|i: int| 0 <= i < s.len() implies is_digit(#[trigger] s[i]) by {
            if i < s.len() - 1 {
                assert(s[i] == frac_digits(r / 10, (p - 1) as nat)[i]);
            }
        }
    }
}

/// The fixed-point rendering of `v` at `p` fractional digits: the integer
/// part, a dot, and exactly `p` fractional digits, with a minus sign in
/// front for negative values.
pub open spec fn scaled_str(v: int, p: nat) -> Seq<char> {
    let mag = if v < 0 {
        -v
    } else {
        v
    };
    let sign: Seq<char> = if v < 0 {
        seq!['-']
    } else {
        Seq::empty()
    };
    sign + dec_digits((mag / pow10(p)) as nat) + seq!['.'] + frac_digits(
        (mag % pow10(p)) as nat,
        p,
    )
}

/// The index of the first occurrence of `c` in `s`, if any.
pub open spec fn char_pos(s: Seq<char>, c: char) -> Option<int>
    decreases s.len(),
{
    if s.len() == 0 {
        None
    } else if s[0] == c {
        Some(0)
    } else {
        match char_pos(s.subrange(1, s.len() as int), c) {
            None => None,
            Some(i) => Some(i + 1),
        }
    }
}

/// Where the first occurrence of a character sits, characterized without
/// recursion.
pub proof fn lemma_char_pos_of_first(s: Seq<char>, c: char, j: int)
    requires
        0 <= j < s.len(),
        s[j] == c,
        forall|k: int| 0 <= k < j ==> s[k] != c,
    ensures
        char_pos(s, c) == Some(j),
    decreases s.len(),
{
    if j == 0 {
    } else {
        let s1 = s.subrange(1, s.len() as int);
        assert(s1[j - 1] == c);
        assert(forall|k: int| 0 <= k < j - 1 ==> #[trigger] s1[k] == s[k + 1]);
        lemma_char_pos_of_first(s1, c, j - 1);
    }
}

/// A string without the character has no such position.
pub proof fn lemma_char_pos_none(s: Seq<char>, c: char)
    requires
        forall|k: int| 0 <= k < s.len() ==> s[k] != c,
    ensures
        char_pos(s, c) is None,
    decreases s.len(),
{
    if s.len() > 0 {
        let s1 = s.subrange(1, s.len() as int);
        assert(forall|k: int| 0 <= k < s1.len() ==> #[trigger] s1[k] == s[k + 1]);
        lemma_char_pos_none(s1, c);
    }
}

/// The value of the fractional digit string `fp` at width `p`: digits beyond
/// the width are cut off, a short string is padded with zeros.
pub open spec fn frac_val(fp: Seq<char>, p: nat) -> int {
    if fp.len() >= p {
        dec_val(fp.take(p as int))
    } else {
        dec_val(fp) * pow10((p - fp.len()) as nat)
    }
}

/// The fixed-point reading of an unsigned decimal string at width `p`.
pub open spec fn body_val(s: Seq<char>, p: nat) -> Option<int> {
    match char_pos(s, '.') {
        None => if s.len() > 0 && all_digits(s) {
            Some(dec_val(s) * pow10(p))
        } else {
            None
        },
        Some(i) => {
            let ip = s.take(i);
            let fp = s.subrange(i + 1, s.len() as int);
            if ip.len() + fp.len() > 0 && all_digits(ip) && all_digits(fp) {
                Some(dec_val(ip) * pow10(p) + frac_val(fp, p))
            } else {
                None
            }
        },
    }
}

/// The fixed-point reading of a decimal string at width `p`: an optional
/// minus sign, then digits with at most one dot.
pub open spec fn scaled_val(s: Seq<char>, p: nat) -> Option<int> {
    if s.len() > 0 && s[0] == '-' {
        match body_val(s.subrange(1, s.len() as int), p) {
            None => None,
            Some(w) => Some(-w),
        }
    } else {
        body_val(s, p)
    }
}

/// In `a + dot + b` with digit-only `a`, the first dot sits right after `a`.
proof fn lemma_dot_after_digits(a: Seq<char>, b: Seq<char>)
    requires
        all_digits(a),
    ensures
        char_pos(a + seq!['.'] + b, '.') == Some(a.len() as int),
{
    let s = a + seq!['.'] + b;
    assert('.' as int == 46);
    assert(s[a.len() as int] == '.');
    assert forall|k: int| 0 <= k < a.len() implies s[k] != '.' by {
        assert(s[k] == a[k]);
        assert(is_digit(a[k]));
    }
    lemma_char_pos_of_first(s, '.', a.len() as int);
}

/// The renderings of [`scaled_str`] read back as the value they were made
/// from.
pub proof fn lemma_scaled_str_val(v: int, p: nat)
    ensures
        scaled_val(scaled_str(v, p), p) == Some(v),
{
    let mag = if v < 0 {
        -v
    } else {
        v
    };
    lemma_pow10_pos(p);
    assert(mag / pow10(p) >= 0) by (nonlinear_arith)
        requires
            mag >= 0,
            pow10(p) >= 1,
    ;
    let q = (mag / pow10(p)) as nat;
    let r = (mag % pow10(p)) as nat;
    vstd::arithmetic::div_mod::lemma_fundamental_div_mod(mag, pow10(p));
    assert(0 <= mag % pow10(p) < pow10(p)) by {
        vstd::arithmetic::div_mod::lemma_mod_bound(mag, pow10(p));
    }
    assert(q * pow10(p) == pow10(p) * q) by (nonlinear_arith);
    lemma_dec_digits(q);
    lemma_frac_digits(r, p);
    let body = dec_digits(q) + seq!['.'] + frac_digits(r, p);
    lemma_dot_after_digits(dec_digits(q), frac_digits(r, p));
    let i = dec_digits(q).len() as int;
    assert(body.take(i) =~= dec_digits(q));
    assert(body.subrange(i + 1, body.len() as int) =~= frac_digits(r, p));
    assert(frac_val(frac_digits(r, p), p) == r) by {
        assert(frac_digits(r, p).take(p as int) =~= frac_digits(r, p));
    }
    assert(body_val(body, p) == Some(q * pow10(p) + r));
    assert(q * pow10(p) + r == mag);
    if v < 0 {
        let s = scaled_str(v, p);
        assert(s =~= seq!['-'] + body);
        assert(s[0] == '-');
        assert(s.subrange(1, s.len() as int) =~= body);
        assert(scaled_val(s, p) == Some(-(q * pow10(p) + r)));
    } else {
        let s = scaled_str(v, p);
        assert(s =~= body);
        assert('-' as int == 45);
        assert(s[0] != '-') by {
            assert(s[0] == dec_digits(q)[0]);
            assert(is_digit(dec_digits(q)[0]));
        }
    }
}

/// Exec power of ten.
pub fn pow10_u64(p: u32) -> (r: u64)
    requires
        p <= 18,
    ensures
        r == pow10(p as nat),
        r >= 1,
{
    let mut r: u64 = 1;
    let mut i: u32 = 0;
    while i < p
        invariant
            0 <= i <= p,
            p <= 18,
            r == pow10(i as nat),
            r >= 1,
        decreases p - i,
    {
        proof {
            lemma_pow10_le_18((i + 1) as nat);
        }
        r = r * 10;
        i = i + 1;
    }
    r
}

/// Render a fixed-point value with `p` fractional digits.
pub fn fmt_scaled(v: i64, p: u32) -> (s: String)
    requires
        p <= 9,
    ensures
        s@ == scaled_str(v as int, p as nat),
{
    let mag: u64 = if v >= 0 {
        v as u64
    } else {
        (-(v as i128)) as u64
    };
    let scale = pow10_u64(p);
    let q = mag / scale;
    let r = mag % scale;
    let mut s = String::new();
    proof {
        reveal_strlit("-");
        reveal_strlit(".");
    }
    if v < 0 {
        s.append("-");
    }
    let qs = fmt_u64(q);
    s.append(qs.as_str());
    s.append(".");
    let fs = fmt_frac(r, p);
    s.append(fs.as_str());
    proof {
        assert("-"@ =~= seq!['-']);
        assert("."@ =~= seq!['.']);
        assert(s@ =~= scaled_str(v as int, p as nat));
    }
    s
}

/// Render exactly `p` fractional digits of `r`, zero padded.
fn fmt_frac(r: u64, p: u32) -> (s: String)
    ensures
        s@ == frac_digits(r as nat, p as nat),
    decreases p,
{
    if p == 0 {
        String::new()
    } else {
        let mut s = fmt_frac(r / 10, p - 1);
        s.append(digit_str(r % 10));
        proof {
            assert(s@ =~= frac_digits(r as nat, p as nat));
        }
        s
    }
}

/// The value of a digit string is below ten to its length.
pub proof fn lemma_dec_val_bound(s: Seq<char>)
    requires
        all_digits(s),
    ensures
        dec_val(s) < pow10(s.len()),
    decreases s.len(),
{
    if s.len() == 0 {
    } else {
        assert(all_digits(s.drop_last())) by {
            assert(forall|i: int|
                0 <= i < s.drop_last().len() ==> #[trigger] s.drop_last()[i] == s[i]);
        }
        lemma_dec_val_bound(s.drop_last());
        let m = s.drop_last().len();
        assert(pow10(s.len()) == 10 * pow10(m));
        assert(is_digit(s.last()));
        assert(dec_val(s.drop_last()) * 10 + digit_val(s.last()) < 10 * pow10(m))
            by (nonlinear_arith)
            requires
                dec_val(s.drop_last()) < pow10(m),
                digit_val(s.last()) <= 9,
        ;
    }
}

/// The reading of an unsigned decimal body is never negative.
pub proof fn lemma_body_val_nonneg(s: Seq<char>, p: nat)
    requires
        body_val(s, p) is Some,
    ensures
        body_val(s, p)->0 >= 0,
{
    lemma_pow10_pos(p);
    match char_pos(s, '.') {
        None => {
            lemma_dec_val_nonneg(s);
            assert(dec_val(s) * pow10(p) >= 0) by (nonlinear_arith)
                requires
                    dec_val(s) >= 0,
                    pow10(p) >= 1,
            ;
        },
        Some(i) => {
            let ip = s.take(i);
            let fp = s.subrange(i + 1, s.len() as int);
            lemma_dec_val_nonneg(ip);
            lemma_frac_val_nonneg(fp, p);
            assert(dec_val(ip) * pow10(p) >= 0) by (nonlinear_arith)
                requires
                    dec_val(ip) >= 0,
                    pow10(p) >= 1,
            ;
        },
    }
}

/// The fractional reading is never negative.
proof fn lemma_frac_val_nonneg(fp: Seq<char>, p: nat)
    requires
        all_digits(fp),
    ensures
        frac_val(fp, p) >= 0,
{
    if fp.len() >= p {
        assert(all_digits(fp.take(p as int))) by {
            assert(forall|k: int| 0 <= k < p ==> #[trigger] fp.take(p as int)[k] == fp[k]);
        }
        lemma_dec_val_nonneg(fp.take(p as int));
    } else {
        lemma_dec_val_nonneg(fp);
        lemma_pow10_pos((p - fp.len()) as nat);
        assert(dec_val(fp) * pow10((p - fp.len()) as nat) >= 0) by (nonlinear_arith)
            requires
                dec_val(fp) >= 0,
                pow10((p - fp.len()) as nat) >= 1,
        ;
    }
}

/// Parse the fractional digits at width `p`: every character must be a
/// digit; digits beyond the width are cut off, missing ones count as zeros.
fn parse_frac(fp: &str, p: u32) -> (r: Option<u64>)
    requires
        p <= 9,
    ensures
        r is Some ==> all_digits(fp@) && r->0 == frac_val(fp@, p as nat) && r->0 < pow10(
            p as nat,
        ),
        all_digits(fp@) ==> r is Some,
{
    let m = fp.unicode_len();
    let mut acc: u64 = 0;
    let mut k: usize = 0;
    proof {
        assert(fp@.take(0) =~= Seq::<char>::empty());
        lemma_pow10_pos(p as nat);
    }
    while k < m
        invariant
            0 <= k <= m,
            p <= 9,
            m == fp@.len(),
            all_digits(fp@.take(k as int)),
            k <= p ==> acc == dec_val(fp@.take(k as int)) && acc < pow10(k as nat),
            k > p ==> acc == dec_val(fp@.take(p as int)) && acc < pow10(p as nat),
        decreases m - k,
    {
        let c = fp.get_char(k);
        let code = c as u32;
        if code < 48 || code > 57 {
            proof {
                assert(!is_digit(fp@[k as int]));
            }
            return None;
        }
        proof {
            assert(fp@.take(k + 1).drop_last() =~= fp@.take(k as int));
            assert(fp@.take(k + 1).last() == fp@[k as int]);
            assert(all_digits(fp@.take(k + 1))) by {
                assert(forall|i: int| 0 <= i < k ==> #[trigger] fp@.take(k + 1)[i] == fp@.take(
                    k as int,
                )[i]);
            }
        }
        if k < p as usize {
            let d = (code - 48) as u64;
            proof {
                lemma_pow10_le_18((k + 1) as nat);
                assert(acc * 10 + d < 10 * pow10(k as nat)) by (nonlinear_arith)
                    requires
                        acc < pow10(k as nat),
                        d <= 9,
                        pow10(k as nat) >= 1,
                ;
            }
            acc = acc * 10 + d;
        } else {
            proof {
                if k == p as usize {
                    assert(fp@.take(p as int) =~= fp@.take(k as int));
                }
            }
        }
        k = k + 1;
    }
    proof {
        assert(fp@.take(m as int) =~= fp@);
    }
    if m < p as usize {
        let pad = pow10_u64(p - m as u32);
        proof {
            lemma_pow10_le_18(p as nat);
            lemma_pow10_mul(m as nat, (p - m) as nat);
            assert(acc * pow10((p - m) as nat) < pow10(p as nat)) by (nonlinear_arith)
                requires
                    acc < pow10(m as nat),
                    pow10(p as nat) == pow10(m as nat) * pow10((p - m) as nat),
                    pow10((p - m) as nat) >= 1,
            ;
        }
        Some(acc * pad)
    } else {
        Some(acc)
    }
}

/// Parse an unsigned fixed-point body (digits with at most one dot) at width
/// `p`.  Succeeds exactly when the reading exists and fits in an `i64`.
fn parse_body(b: &str, p: u32) -> (r: Option<i64>)
    requires
        p <= 9,
    ensures
        r is Some ==> body_val(b@, p as nat) == Some(r->0 as int) && r->0 >= 0,
        body_val(b@, p as nat) is Some && body_val(b@, p as nat)->0 <= i64::MAX ==> r is Some,
{
    let n = b.unicode_len();
    let scale = pow10_u64(p);
    proof {
        lemma_pow10_le_18(p as nat);
    }
    let mut dot: Option<usize> = None;
    let mut j: usize = 0;
    while j < n && dot.is_none()
        invariant
            0 <= j <= n,
            n == b@.len(),
            forall|k: int| 0 <= k < j ==> b@[k] != '.',
            match dot {
                Some(d) => d == j && j < n && b@[j as int] == '.',
                None => true,
            },
        decreases n - j, (if dot is Some { 0int } else { 1int }),
    {
        if b.get_char(j) == '.' {
            dot = Some(j);
        } else {
            j = j + 1;
        }
    }
    match dot {
        None => {
            proof {
                lemma_char_pos_none(b@, '.');
            }
            match parse_u64(b) {
                None => {
                    proof {
                        if b@.len() > 0 && all_digits(b@) {
                            lemma_dec_val_nonneg(b@);
                            lemma_pow10_pos(p as nat);
                            assert(dec_val(b@) * pow10(p as nat) >= dec_val(b@))
                                by (nonlinear_arith)
                                requires
                                    dec_val(b@) >= 0,
                                    pow10(p as nat) >= 1,
                            ;
                        }
                    }
                    None
                },
                Some(q) => {
                    if q <= (i64::MAX as u64) / scale {
                        proof {
                            assert((i64::MAX as int) / (scale as int) * (scale as int) <= i64::MAX as int) by {
                                vstd::arithmetic::div_mod::lemma_fundamental_div_mod(
                                    i64::MAX as int,
                                    scale as int,
                                );
                                vstd::arithmetic::div_mod::lemma_mod_bound(
                                    i64::MAX as int,
                                    scale as int,
                                );
                            }
                            assert(q * scale <= i64::MAX) by (nonlinear_arith)
                                requires
                                    q <= (i64::MAX as int) / (scale as int),
                                    scale >= 1,
                                    (i64::MAX as int) / (scale as int) * (scale as int) <= i64::MAX as int,
                            ;
                        }
                        Some((q * scale) as i64)
                    } else {
                        proof {
                            let sc: int = scale as int;
                            assert((i64::MAX as int) < ((i64::MAX as int) / sc + 1) * sc) by {
                                vstd::arithmetic::div_mod::lemma_fundamental_div_mod(
                                    i64::MAX as int,
                                    sc,
                                );
                                vstd::arithmetic::div_mod::lemma_mod_bound(i64::MAX as int, sc);
                                assert(((i64::MAX as int) / sc + 1) * sc == sc * ((i64::MAX as int) / sc) + sc)
                                    by (nonlinear_arith);
                            }
                            assert(q * scale > i64::MAX) by (nonlinear_arith)
                                requires
                                    q > (i64::MAX as int) / (scale as int),
                                    scale >= 1,
                                    (i64::MAX as int) < ((i64::MAX as int) / (scale as int) + 1) * (scale as int),
                            ;
                        }
                        None
                    }
                },
            }
        },
        Some(j) => {
            proof {
                lemma_char_pos_of_first(b@, '.', j as int);
            }
            let fp = b.substring_char(j + 1, n);
            proof {
                assert(fp@ =~= b@.subrange(j + 1, n as int));
            }
            if j == 0 && fp.unicode_len() == 0 {
                proof {
                    assert(b@.take(0).len() + fp@.len() == 0);
                }
                return None;
            }
            let q: u64 = if j == 0 {
                proof {
                    assert(b@.take(0) =~= Seq::<char>::empty());
                }
                0
            } else {
                let ip = b.substring_char(0, j);
                proof {
                    assert(ip@ =~= b@.take(j as int));
                }
                match parse_u64(ip) {
                    None => {
                        proof {
                            let ipv = b@.take(j as int);
                            let fpv = b@.subrange(j + 1, n as int);
                            if all_digits(ipv) && all_digits(fpv) {
                                lemma_dec_val_nonneg(ipv);
                                lemma_pow10_pos(p as nat);
                                lemma_frac_val_nonneg(fpv, p as nat);
                                assert(dec_val(ipv) * pow10(p as nat) >= dec_val(ipv))
                                    by (nonlinear_arith)
                                    requires
                                        dec_val(ipv) >= 0,
                                        pow10(p as nat) >= 1,
                                ;
                            }
                        }
                        return None;
                    },
                    Some(q) => q,
                }
            };
            let t = match parse_frac(fp, p) {
                None => {
                    return None;
                },
                Some(t) => t,
            };
            if q <= ((i64::MAX as u64) - t) / scale {
                proof {
                    assert((i64::MAX - t) as int / (scale as int) * (scale as int) <= i64::MAX - t) by {
                        vstd::arithmetic::div_mod::lemma_fundamental_div_mod(
                            (i64::MAX as u64 - t) as int,
                            scale as int,
                        );
                        vstd::arithmetic::div_mod::lemma_mod_bound(
                            (i64::MAX as u64 - t) as int,
                            scale as int,
                        );
                    }
                    assert(q * scale + t <= i64::MAX) by (nonlinear_arith)
                        requires
                            q <= (i64::MAX - t) as int / (scale as int),
                            scale >= 1,
                            t <= i64::MAX,
                            (i64::MAX - t) as int / (scale as int) * (scale as int) <= i64::MAX - t,
                    ;
                    assert(b@.take(j as int).len() + b@.subrange(j + 1, n as int).len() > 0);
                }
                Some((q * scale + t) as i64)
            } else {
                proof {
                    let rem: int = i64::MAX - t;
                    let sc: int = scale as int;
                    assert(rem < (rem / sc + 1) * sc) by {
                        vstd::arithmetic::div_mod::lemma_fundamental_div_mod(rem, sc);
                        vstd::arithmetic::div_mod::lemma_mod_bound(rem, sc);
                        assert((rem / sc + 1) * sc == sc * (rem / sc) + sc) by (nonlinear_arith);
                    }
                    assert(q * scale + t > i64::MAX) by (nonlinear_arith)
                        requires
                            q > (i64::MAX - t) as int / (scale as int),
                            scale >= 1,
                            t >= 0,
                            t <= i64::MAX,
                            ((i64::MAX - t) as int) < ((i64::MAX - t) as int / (scale as int) + 1) * (scale as int),
                    ;
                }
                None
            }
        },
    }
}

/// Parse a fixed-point decimal with an optional minus sign at width `p`.
/// Succeeds exactly when the reading exists and its magnitude fits in an
/// `i64`, and then returns that reading.
pub fn parse_scaled(s: &str, p: u32) -> (r: Option<i64>)
    requires
        p <= 9,
    ensures
        r is Some ==> scaled_val(s@, p as nat) == Some(r->0 as int),
        r is Some ==> -i64::MAX <= r->0,
        scaled_val(s@, p as nat) is Some && -i64::MAX <= scaled_val(s@, p as nat)->0
            <= i64::MAX ==> r is Some && r->0 == scaled_val(s@, p as nat)->0,
{
    let n = s.unicode_len();
    if n == 0 {
        return None;
    }
    if s.get_char(0) == '-' {
        let body = s.substring_char(1, n);
        proof {
            assert(body@ =~= s@.subrange(1, n as int));
        }
        match parse_body(body, p) {
            None => None,
            Some(w) => {
                proof {
                    lemma_body_val_nonneg(body@, p as nat);
                }
                Some(-w)
            },
        }
    } else {
        match parse_body(s, p) {
            None => None,
            Some(w) => Some(w),
        }
    }
}

} // verus!
