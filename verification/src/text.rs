//! Numeric text handling: decimal rendering of fixed-point quantities,
//! parsing of decimal fields, and recognition of numeric strings.
//!
//! Quantities are carried as integers scaled by 10^4 ("Q4" fixed point):
//! the integer `123450` stands for the quantity `12.345`.
use vstd::prelude::*;
use vstd::string::StringExecFns;

verus! {

/// The fixed-point scale: stored value = real value * 10^4.
pub const Q4_SCALE: u64 = 10000;

pub open spec fn is_digit_char(c: char) -> bool {
    48 <= c as int <= 57
}

pub open spec fn digit_val(c: char) -> int {
    c as int - 48
}

pub open spec fn digit_char(d: int) -> char {
    if d == 0 {
        '0'
    } else if d == 1 {
        '1'
    } else if d == 2 {
        '2'
    } else if d == 3 {
        '3'
    } else if d == 4 {
        '4'
    } else if d == 5 {
        '5'
    } else if d == 6 {
        '6'
    } else if d == 7 {
        '7'
    } else if d == 8 {
        '8'
    } else {
        '9'
    }
}

/// The usual decimal rendering of a non-negative integer, no leading zeros
/// (except for the number 0 itself).
pub open spec fn dec_spec(n: int) -> Seq<char>
    decreases n,
    when n >= 0
{
    if n < 10 {
        seq![digit_char(n)]
    } else {
        dec_spec(n / 10).push(digit_char(n % 10))
    }
}

/// The value of a digit string, most significant digit first.
pub open spec fn digits_val(s: Seq<char>) -> int
    decreases s.len(),
{
    if s.len() == 0 {
        0
    } else {
        digits_val(s.drop_last()) * 10 + digit_val(s.last())
    }
}

pub open spec fn pow10(k: int) -> int
    decreases k,
    when k >= 0
{
    if k <= 0 {
        1
    } else {
        10 * pow10(k - 1)
    }
}

pub open spec fn all_digits(s: Seq<char>) -> bool {
    forall|i: int| 0 <= i < s.len() ==> is_digit_char(#[trigger] s[i])
}

/// A digit string of length at most `k` denotes a value below 10^k.
pub proof fn lemma_digits_val_bound(s: Seq<char>, k: int)
    requires
        all_digits(s),
        s.len() <= k,
    ensures
        0 <= digits_val(s) < pow10(k),
    decreases s.len(),
{
    if s.len() == 0 {
        assert(pow10(k) >= 1) by {
            lemma_pow10_pos(k);
        }
    } else {
        assert(all_digits(s.drop_last())) by {
            assert(forall|i: int|
                0 <= i < s.len() - 1 ==> s.drop_last()[i] == #[trigger] s[i]);
        }
        lemma_digits_val_bound(s.drop_last(), k - 1);
        assert(is_digit_char(s.last()));
        assert(pow10(k) == 10 * pow10(k - 1));
    }
}

pub proof fn lemma_pow10_pos(k: int)
    requires
        k >= 0,
    ensures
        pow10(k) >= 1,
    decreases k,
{
    if k > 0 {
        lemma_pow10_pos(k - 1);
    }
}

pub fn digit_str(d: u64) -> (r: &'static str)
    requires
        d < 10,
    ensures
        r@ == seq![digit_char(d as int)],
{
    proof {
        reveal_strlit("0");
        reveal_strlit("1");
        reveal_strlit("2");
        reveal_strlit("3");
        reveal_strlit("4");
        reveal_strlit("5");
        reveal_strlit("6");
        reveal_strlit("7");
        reveal_strlit("8");
        reveal_strlit("9");
    }
    let r: &'static str = if d == 0 {
        "0"
    } else if d == 1 {
        "1"
    } else if d == 2 {
        "2"
    } else if d == 3 {
        "3"
    } else if d == 4 {
        "4"
    } else if d == 5 {
        "5"
    } else if d == 6 {
        "6"
    } else if d == 7 {
        "7"
    } else if d == 8 {
        "8"
    } else {
        "9"
    };
    proof {
        assert(r@ =~= seq![digit_char(d as int)]);
    }
    r
}

/// Renders `n` in decimal, matching `dec_spec`.
pub fn u64_to_string(n: u64) -> (r: String)
    ensures
        r@ == dec_spec(n as int),
    decreases n,
{
    if n < 10 {
        digit_str(n).to_owned()
    } else {
        let mut s = u64_to_string(n / 10);
        s.append(digit_str(n % 10));
        proof {
            assert(s@ =~= dec_spec((n / 10) as int).push(digit_char((n % 10) as int)));
        }
        s
    }
}

/// A Q4 quantity rendered with two decimal places, rounding half away
/// from zero on the third decimal: `123450` becomes `"12.35"`.
pub open spec fn fmt_q4_spec(v: int) -> Seq<char> {
    let c = (v + 50) / 100;
    dec_spec(c / 100) + seq!['.', digit_char((c / 10) % 10), digit_char(c % 10)]
}

pub open spec fn fmt_q4_signed_spec(v: int) -> Seq<char> {
    if v < 0 {
        seq!['-'] + fmt_q4_spec(-v)
    } else {
        fmt_q4_spec(v)
    }
}

/// Renders a non-negative Q4 quantity with two decimal places.
pub fn fmt_q4(v: u64) -> (r: String)
    requires
        v <= 0x4000_0000_0000_0000,
    ensures
        r@ == fmt_q4_spec(v as int),
{
    let c = (v + 50) / 100;
    let mut s = u64_to_string(c / 100);
    proof {
        reveal_strlit(".");
    }
    s.append(".");
    s.append(digit_str((c / 10) % 10));
    s.append(digit_str(c % 10));
    proof {
        assert(s@ =~= fmt_q4_spec(v as int));
    }
    s
}

/// Renders a signed Q4 quantity with two decimal places.
pub fn fmt_q4_signed(v: i64) -> (r: String)
    requires
        -0x4000_0000_0000_0000 <= v <= 0x4000_0000_0000_0000,
    ensures
        r@ == fmt_q4_signed_spec(v as int),
{
    if v < 0 {
        let mag = (-v) as u64;
        let mut s = "-".to_owned();
        let t = fmt_q4(mag);
        s.append(t.as_str());
        proof {
            reveal_strlit("-");
            assert(s@ =~= fmt_q4_signed_spec(v as int));
        }
        s
    } else {
        fmt_q4(v as u64)
    }
}

/// Index of the first `'.'` in `s`, or `s.len()` if there is none.
pub open spec fn find_dot(s: Seq<char>) -> int
    decreases s.len(),
{
    if s.len() == 0 {
        0
    } else if s[0] == '.' {
        0
    } else {
        1 + find_dot(s.skip(1))
    }
}

pub proof fn lemma_find_dot_is(s: Seq<char>, k: int)
    requires
        0 <= k <= s.len(),
        forall|j: int| 0 <= j < k ==> s[j] != '.',
        k < s.len() ==> s[k] == '.',
    ensures
        find_dot(s) == k,
    decreases k,
{
    if s.len() == 0 {
    } else if k == 0 {
    } else {
        assert(s[0] != '.');
        assert(forall|j: int| 0 <= j < k - 1 ==> s.skip(1)[j] == s[j + 1]);
        lemma_find_dot_is(s.skip(1), k - 1);
    }
}

pub proof fn lemma_find_dot_at_least(s: Seq<char>, k: int)
    requires
        0 <= k <= s.len(),
        forall|j: int| 0 <= j < k ==> s[j] != '.',
    ensures
        find_dot(s) >= k,
    decreases k,
{
    lemma_find_dot_le(s);
    if k > 0 {
        assert(s[0] != '.');
        assert(forall|j: int| 0 <= j < k - 1 ==> s.skip(1)[j] == s[j + 1]);
        lemma_find_dot_at_least(s.skip(1), k - 1);
    }
}

pub proof fn lemma_find_dot_le(s: Seq<char>)
    ensures
        0 <= find_dot(s) <= s.len(),
    decreases s.len(),
{
    if s.len() > 0 && s[0] != '.' {
        lemma_find_dot_le(s.skip(1));
    }
}

/// Length of the sign prefix: one for a leading `+` or `-`, else zero.
pub open spec fn sign_len(s: Seq<char>) -> int {
    if s.len() > 0 && (s[0] == '+' || s[0] == '-') {
        1
    } else {
        0
    }
}

/// Q4 value of a fraction-digit string: the first four digits count, any
/// further digits are truncated.
pub open spec fn frac_q4(fp: Seq<char>) -> int {
    if fp.len() >= 4 {
        digits_val(fp.take(4))
    } else {
        digits_val(fp) * pow10(4 - fp.len())
    }
}

/// The Q4 value of a plain signed decimal string: an optional sign, digits,
/// an optional fraction after a single `'.'`. Any string outside that shape,
/// or with more than fourteen integer digits, counts as malformed and is
/// read as 0 (fail-open: best-effort statistics over all-or-nothing).
pub open spec fn parse_q4_spec(s: Seq<char>) -> int {
    let neg = s.len() > 0 && s[0] == '-';
    let r = s.skip(sign_len(s));
    let d = find_dot(r);
    let ip = r.take(d);
    let fp = if d == r.len() {
        Seq::<char>::empty()
    } else {
        r.skip(d + 1)
    };
    if all_digits(ip) && all_digits(fp) && ip.len() + fp.len() >= 1 && ip.len() <= 14 {
        let mag = digits_val(ip) * 10000 + frac_q4(fp);
        if neg {
            -mag
        } else {
            mag
        }
    } else {
        0
    }
}

pub proof fn lemma_pow10_mono(a: int, b: int)
    requires
        0 <= a <= b,
    ensures
        pow10(a) <= pow10(b),
    decreases b,
{
    if a < b {
        lemma_pow10_mono(a, b - 1);
        lemma_pow10_pos(b - 1);
    }
}

/// Reads a plain signed decimal string as a Q4 quantity, 0 when malformed.
#[verifier::rlimit(100)]
#[verifier::spinoff_prover]
pub fn parse_q4(s: &str) -> (r: i64)
    ensures
        r as int == parse_q4_spec(s@),
        -1000000000000000000 <= r <= 1000000000000000000,
{
    let n = s.unicode_len();
    let mut i: usize = 0;
    let mut neg = false;
    if n > 0 {
        let c0 = s.get_char(0);
        if c0 == '-' {
            neg = true;
            i = 1;
        } else if c0 == '+' {
            i = 1;
        }
    }
    let ghost sl = i as int;
    let ghost rr = s@.skip(sl);
    proof {
        assert(sl == sign_len(s@));
        assert(neg == (s@.len() > 0 && s@[0] == '-'));
    }
    let mut ip_val: u64 = 0;
    let mut ip_len: usize = 0;
    loop
        invariant
            n == s@.len(),
            sl == sign_len(s@),
            rr == s@.skip(sl),
            neg == (s@.len() > 0 && s@[0] == '-'),
            sl <= i as int <= n,
            ip_len == i as int - sl,
            forall|j: int| sl <= j < i as int ==> is_digit_char(#[trigger] s@[j]),
            ip_len <= 14 ==> ip_val == digits_val(s@.subrange(sl, i as int)) && ip_val < pow10(
                ip_len as int,
            ),
        ensures
            n == s@.len(),
            sl <= i as int <= n,
            ip_len == i as int - sl,
            forall|j: int| sl <= j < i as int ==> is_digit_char(#[trigger] s@[j]),
            ip_len <= 14 ==> ip_val == digits_val(s@.subrange(sl, i as int)) && ip_val < pow10(
                ip_len as int,
            ),
            i < n ==> !is_digit_char(s@[i as int]),
        decreases n - i,
    {
        if i >= n {
            break ;
        }
        let c = s.get_char(i);
        let u = c as u32;
        if !(48 <= u && u <= 57) {
            break ;
        }
        if ip_len < 14 {
            proof {
                lemma_pow10_mono(ip_len as int + 1, 14);
                reveal_with_fuel(pow10, 15);
                assert(s@.subrange(sl, i as int + 1).drop_last() =~= s@.subrange(sl, i as int));
                assert(s@.subrange(sl, i as int + 1).last() == s@[i as int]);
            }
            ip_val = ip_val * 10 + (u - 48) as u64;
        }
        ip_len = ip_len + 1;
        i = i + 1;
    }
    proof {
        assert(forall|j: int| 0 <= j < rr.len() ==> rr[j] == s@[sl + j]);
        lemma_find_dot_le(rr);
    }
    if ip_len > 14 {
        proof {
            assert(forall|j: int| 0 <= j < 15 ==> rr[j] != '.') by {
                assert(forall|j: int| 0 <= j < 15 ==> is_digit_char(#[trigger] s@[sl + j]));
            }
            lemma_find_dot_at_least(rr, 15);
            let d = find_dot(rr);
            assert(rr.take(d).len() == d);
        }
        return 0;
    }
    let ghost ip = rr.take(ip_len as int);
    proof {
        assert(ip =~= s@.subrange(sl, i as int));
    }
    let mut f_val: u64 = 0;
    let mut f_len: usize = 0;
    let mut fs: usize = n;
    if i < n {
        let c = s.get_char(i);
        if c != '.' {
            // the integer part reaches past this non-digit character
            proof {
                assert(forall|j: int| 0 <= j < i as int - sl + 1 ==> rr[j] != '.') by {
                    assert(forall|j: int|
                        0 <= j < i as int - sl ==> is_digit_char(#[trigger] s@[sl + j]));
                    assert(rr[i as int - sl] == s@[i as int]);
                }
                lemma_find_dot_at_least(rr, i as int - sl + 1);
                let d = find_dot(rr);
                assert(rr.take(d)[i as int - sl] == rr[i as int - sl]);
                assert(!is_digit_char(rr.take(d)[i as int - sl]));
                assert(!all_digits(rr.take(d)));
            }
            return 0;
        }
        proof {
            lemma_find_dot_is(rr, i as int - sl);
            reveal_with_fuel(pow10, 5);
            assert(s@.subrange(i as int + 1, i as int + 1) =~= Seq::<char>::empty());
        }
        fs = i + 1;
        i = i + 1;
        loop
            invariant
                n == s@.len(),
                sl == sign_len(s@),
                rr == s@.skip(sl),
                fs as int == sl + find_dot(rr) + 1,
                find_dot(rr) == ip.len(),
                fs <= i as int <= n,
                f_len == i as int - fs,
                forall|j: int| fs <= j < i as int ==> is_digit_char(#[trigger] s@[j]),
                f_val == digits_val(s@.subrange(fs as int, fs + (if f_len < 4 {
                    f_len as int
                } else {
                    4
                }))),
                f_val < pow10(4),
            ensures
                n == s@.len(),
                fs <= i as int <= n,
                f_len == i as int - fs,
                forall|j: int| fs <= j < i as int ==> is_digit_char(#[trigger] s@[j]),
                f_val == digits_val(s@.subrange(fs as int, fs + (if f_len < 4 {
                    f_len as int
                } else {
                    4
                }))),
                f_val < pow10(4),
                i < n ==> !is_digit_char(s@[i as int]),
            decreases n - i,
        {
            if i >= n {
                break ;
            }
            let c = s.get_char(i);
            let u = c as u32;
            if !(48 <= u && u <= 57) {
                break ;
            }
            if f_len < 4 {
                proof {
                    lemma_pow10_mono(f_len as int + 1, 4);
                    reveal_with_fuel(pow10, 5);
                    assert(s@.subrange(fs as int, i as int + 1).drop_last() =~= s@.subrange(
                        fs as int,
                        i as int,
                    ));
                    assert(s@.subrange(fs as int, i as int + 1).last() == s@[i as int]);
                    assert(all_digits(s@.subrange(fs as int, i as int + 1)));
                    lemma_digits_val_bound(s@.subrange(fs as int, i as int + 1), 4);
                }
                f_val = f_val * 10 + (u - 48) as u64;
            }
            f_len = f_len + 1;
            i = i + 1;
        }
        if i < n {
            // a second dot or other stray character inside the fraction
            proof {
                let fp = rr.skip(find_dot(rr) + 1);
                assert(fp[i as int - fs] == s@[i as int]);
                assert(!all_digits(fp));
            }
            return 0;
        }
    } else {
        proof {
            lemma_find_dot_is(rr, rr.len() as int);
        }
    }
    let ghost d = find_dot(rr);
    let ghost fp = if d == rr.len() {
        Seq::<char>::empty()
    } else {
        rr.skip(d + 1)
    };
    proof {
        if d < rr.len() {
            assert(fp =~= s@.subrange(fs as int, n as int));
            assert(fp.len() == f_len);
            assert(all_digits(fp));
        } else {
            assert(fp.len() == 0);
            assert(f_len == 0);
        }
        assert(all_digits(ip));
        assert(ip.len() == ip_len);
    }
    if ip_len == 0 && f_len == 0 {
        return 0;
    }
    let frac: u64 = if f_len >= 4 {
        proof {
            assert(fp.take(4) =~= s@.subrange(fs as int, fs as int + 4));
        }
        f_val
    } else {
        let scale: u64 = if f_len == 0 {
            10000
        } else if f_len == 1 {
            1000
        } else if f_len == 2 {
            100
        } else if f_len == 3 {
            10
        } else {
            1
        };
        proof {
            reveal_with_fuel(pow10, 5);
            if d < rr.len() {
                assert(fp =~= s@.subrange(fs as int, fs + f_len as int));
            }
            lemma_digits_val_bound(s@.subrange(fs as int, fs + f_len as int), f_len as int);
            assert(f_val < pow10(f_len as int));
            assert(f_val * scale < 10000);
        }
        f_val * scale
    };
    proof {
        reveal_with_fuel(pow10, 15);
        lemma_pow10_pos(4 - (if f_len < 4 {
            f_len as int
        } else {
            4
        }));
        assert(frac < 10000);
        assert(frac as int == frac_q4(fp));
        assert(ip_val < pow10(14));
        assert((ip_val as int) * 10000 + (frac as int) < 1000000000000000000int);
    }
    let mag: u64 = ip_val * 10000 + frac;
    let r: i64 = if neg {
        -(mag as i64)
    } else {
        mag as i64
    };
    r
}

pub open spec fn is_exp_char(c: char) -> bool {
    c == 'e' || c == 'E'
}

/// Index of the first `'e'` or `'E'` in `s`, or `s.len()` if there is none.
pub open spec fn find_exp(s: Seq<char>) -> int
    decreases s.len(),
{
    if s.len() == 0 {
        0
    } else if is_exp_char(s[0]) {
        0
    } else {
        1 + find_exp(s.skip(1))
    }
}

pub proof fn lemma_find_exp_le(s: Seq<char>)
    ensures
        0 <= find_exp(s) <= s.len(),
    decreases s.len(),
{
    if s.len() > 0 && !is_exp_char(s[0]) {
        lemma_find_exp_le(s.skip(1));
    }
}

pub proof fn lemma_find_exp_is(s: Seq<char>, k: int)
    requires
        0 <= k <= s.len(),
        forall|j: int| 0 <= j < k ==> !is_exp_char(#[trigger] s[j]),
        k < s.len() ==> is_exp_char(s[k]),
    ensures
        find_exp(s) == k,
    decreases k,
{
    if s.len() == 0 {
    } else if k == 0 {
    } else {
        assert(!is_exp_char(s[0]));
        assert(forall|j: int| 0 <= j < k - 1 ==> s.skip(1)[j] == s[j + 1]);
        lemma_find_exp_is(s.skip(1), k - 1);
    }
}

pub proof fn lemma_find_exp_at_least(s: Seq<char>, k: int)
    requires
        0 <= k <= s.len(),
        forall|j: int| 0 <= j < k ==> !is_exp_char(#[trigger] s[j]),
    ensures
        find_exp(s) >= k,
    decreases k,
{
    lemma_find_exp_le(s);
    if k > 0 {
        assert(!is_exp_char(s[0]));
        assert(forall|j: int| 0 <= j < k - 1 ==> s.skip(1)[j] == s[j + 1]);
        lemma_find_exp_at_least(s.skip(1), k - 1);
    }
}

/// Case-insensitive match against a lowercase letter `l`.
pub open spec fn eq_ci(c: char, l: char) -> bool {
    c == l || c as int == l as int - 32
}

pub open spec fn is_inf_word(r: Seq<char>) -> bool {
    r.len() == 3 && eq_ci(r[0], 'i') && eq_ci(r[1], 'n') && eq_ci(r[2], 'f')
}

pub open spec fn is_infinity_word(r: Seq<char>) -> bool {
    &&& r.len() == 8
    &&& eq_ci(r[0], 'i')
    &&& eq_ci(r[1], 'n')
    &&& eq_ci(r[2], 'f')
    &&& eq_ci(r[3], 'i')
    &&& eq_ci(r[4], 'n')
    &&& eq_ci(r[5], 'i')
    &&& eq_ci(r[6], 't')
    &&& eq_ci(r[7], 'y')
}

pub open spec fn is_nan_word(r: Seq<char>) -> bool {
    r.len() == 3 && eq_ci(r[0], 'n') && eq_ci(r[1], 'a') && eq_ci(r[2], 'n')
}

/// An unsigned mantissa: digits around at most one dot, at least one digit.
pub open spec fn mantissa_ok(m: Seq<char>) -> bool {
    let d = find_dot(m);
    let ip = m.take(d);
    let fp = if d == m.len() {
        Seq::<char>::empty()
    } else {
        m.skip(d + 1)
    };
    all_digits(ip) && all_digits(fp) && ip.len() + fp.len() >= 1
}

/// An exponent body: an optional sign, then at least one digit.
pub open spec fn exp_ok(x: Seq<char>) -> bool {
    let t = x.skip(sign_len(x));
    all_digits(t) && t.len() >= 1
}

/// Whether a string is numeric: an optional sign, then `inf`, `infinity` or
/// `nan` (case-insensitive), or a decimal mantissa with an optional
/// `e`/`E`-exponent. This is the shape Rust's float parser accepts.
pub open spec fn is_numeric_spec(s: Seq<char>) -> bool {
    let r = s.skip(sign_len(s));
    ||| is_inf_word(r)
    ||| is_infinity_word(r)
    ||| is_nan_word(r)
    ||| {
        let e = find_exp(r);
        let m = r.take(e);
        if e == r.len() {
            mantissa_ok(m)
        } else {
            mantissa_ok(m) && exp_ok(r.skip(e + 1))
        }
    }
}


/// Scans a run of decimal digits starting at `from`; returns the index of
/// the first non-digit at or after `from`, or the string's length.
fn scan_digits(s: &str, from: usize) -> (j: usize)
    requires
        from as int <= s@.len(),
    ensures
        from <= j <= s@.len(),
        forall|k: int| from <= k < j ==> is_digit_char(#[trigger] s@[k]),
        j < s@.len() ==> !is_digit_char(s@[j as int]),
{
    let n = s.unicode_len();
    let mut j = from;
    loop
        invariant
            n == s@.len(),
            from <= j <= n,
            forall|k: int| from <= k < j ==> is_digit_char(#[trigger] s@[k]),
        ensures
            from <= j <= n,
            forall|k: int| from <= k < j ==> is_digit_char(#[trigger] s@[k]),
            j < n ==> !is_digit_char(s@[j as int]),
        decreases n - j,
    {
        if j >= n {
            break ;
        }
        let c = s.get_char(j);
        let u = c as u32;
        if !(48 <= u && u <= 57) {
            break ;
        }
        j = j + 1;
    }
    j
}

/// Whether the tail of `s` starting at `from` is one of the special words
/// `inf`, `infinity` or `nan`, in any letter case.
fn word_match(s: &str, from: usize) -> (w: bool)
    requires
        from as int <= s@.len(),
    ensures
        w == (is_inf_word(s@.skip(from as int)) || is_infinity_word(s@.skip(from as int))
            || is_nan_word(s@.skip(from as int))),
{
    let n = s.unicode_len();
    let ghost r = s@.skip(from as int);
    proof {
        assert(forall|j: int| 0 <= j < r.len() ==> r[j] == s@[from + j]);
    }
    if n - from == 3 {
        let a = s.get_char(from);
        let b = s.get_char(from + 1);
        let c = s.get_char(from + 2);
        ((a == 'i' || a == 'I') && (b == 'n' || b == 'N') && (c == 'f' || c == 'F')) || ((a == 'n'
            || a == 'N') && (b == 'a' || b == 'A') && (c == 'n' || c == 'N'))
    } else if n - from == 8 {
        let a = s.get_char(from);
        let b = s.get_char(from + 1);
        let c = s.get_char(from + 2);
        let d = s.get_char(from + 3);
        let e = s.get_char(from + 4);
        let f = s.get_char(from + 5);
        let g = s.get_char(from + 6);
        let h = s.get_char(from + 7);
        (a == 'i' || a == 'I') && (b == 'n' || b == 'N') && (c == 'f' || c == 'F') && (d == 'i' || d
            == 'I') && (e == 'n' || e == 'N') && (f == 'i' || f == 'I') && (g == 't' || g == 'T')
            && (h == 'y' || h == 'Y')
    } else {
        false
    }
}

/// Whether `s` parses as a floating-point number.
#[verifier::rlimit(100)]
#[verifier::spinoff_prover]
pub fn is_numeric(s: &str) -> (r: bool)
    ensures
        r == is_numeric_spec(s@),
{
    let n = s.unicode_len();
    let mut i: usize = 0;
    if n > 0 {
        let c0 = s.get_char(0);
        if c0 == '-' || c0 == '+' {
            i = 1;
        }
    }
    let ghost sl = i as int;
    let ghost rr = s@.skip(sl);
    proof {
        assert(sl == sign_len(s@));
        assert(forall|j: int| 0 <= j < rr.len() ==> rr[j] == s@[sl + j]);
        lemma_find_dot_le(rr);
        lemma_find_exp_le(rr);
    }
    if word_match(s, i) {
        return true;
    }
    let j1 = scan_digits(s, i);
    let d1 = j1 - i;
    if j1 >= n {
        // digits only: a plain integer
        proof {
            assert(forall|j: int| 0 <= j < rr.len() ==> is_digit_char(#[trigger] rr[j]));
            lemma_find_exp_is(rr, rr.len() as int);
            lemma_find_dot_is(rr, rr.len() as int);
            let m = rr.take(rr.len() as int);
            assert(m =~= rr);
            assert(m.take(m.len() as int) =~= m);
        }
        return d1 > 0;
    }
    let c = s.get_char(j1);
    let ghost dotp = j1 as int - sl;
    let mut d2: usize = 0;
    let mut mant_end: usize = j1;
    if c == '.' {
        let j2 = scan_digits(s, j1 + 1);
        d2 = j2 - j1 - 1;
        mant_end = j2;
        if j2 >= n {
            // digits, one dot, digits: a plain decimal
            proof {
                assert(forall|j: int| 0 <= j < dotp ==> is_digit_char(#[trigger] rr[j]));
                assert(rr[dotp] == '.');
                assert(forall|j: int| dotp < j < rr.len() ==> is_digit_char(#[trigger] rr[j]));
                lemma_find_exp_is(rr, rr.len() as int);
                let m = rr.take(rr.len() as int);
                assert(m =~= rr);
                lemma_find_dot_is(rr, dotp);
                assert(all_digits(rr.take(dotp)));
                let fp = rr.skip(dotp + 1);
                assert(forall|j: int| 0 <= j < fp.len() ==> fp[j] == rr[dotp + 1 + j]);
                assert(all_digits(fp));
                assert(rr.take(dotp).len() == d1 && fp.len() == d2);
            }
            return d1 > 0 || d2 > 0;
        }
    }
    let c2 = s.get_char(mant_end);
    let ghost ep = mant_end as int - sl;
    if !(c2 == 'e' || c2 == 'E') {
        proof {
            assert(forall|j: int| 0 <= j < ep + 1 ==> !is_exp_char(#[trigger] rr[j]));
            lemma_find_exp_at_least(rr, ep + 1);
            let e = find_exp(rr);
            let m = rr.take(e);
            assert(forall|j: int| 0 <= j < ep + 1 ==> m[j] == rr[j]);
            lemma_find_dot_le(m);
            if c == '.' {
                // a stray character inside the fraction
                lemma_find_dot_is(m, dotp);
                let fp = m.skip(dotp + 1);
                assert(fp[ep - dotp - 1] == rr[ep]);
                assert(!is_digit_char(fp[ep - dotp - 1]));
                assert(!all_digits(fp));
            } else {
                // a stray character inside the integer part
                assert(forall|j: int| 0 <= j < ep + 1 ==> m[j] != '.');
                lemma_find_dot_at_least(m, ep + 1);
                let d = find_dot(m);
                assert(m.take(d)[ep] == m[ep]);
                assert(!is_digit_char(m.take(d)[ep]));
                assert(!all_digits(m.take(d)));
            }
            assert(!mantissa_ok(m));
        }
        return false;
    }
    proof {
        assert(forall|j: int| 0 <= j < ep ==> !is_exp_char(#[trigger] rr[j]));
        lemma_find_exp_is(rr, ep);
        let m = rr.take(ep);
        assert(forall|j: int| 0 <= j < m.len() ==> m[j] == rr[j]);
        if c == '.' {
            lemma_find_dot_is(m, dotp);
            assert(all_digits(m.take(dotp)));
            assert(m.take(dotp).len() == d1);
            let fp = m.skip(dotp + 1);
            assert(forall|j: int| 0 <= j < fp.len() ==> fp[j] == rr[dotp + 1 + j]);
            assert(all_digits(fp));
            assert(fp.len() == d2);
        } else {
            assert(all_digits(m));
            lemma_find_dot_is(m, m.len() as int);
            assert(m.take(m.len() as int) =~= m);
        }
        assert(mantissa_ok(m) == (d1 + d2 >= 1));
    }
    if !(d1 > 0 || d2 > 0) {
        return false;
    }
    // the exponent part: an optional sign, then digits
    let mut x = mant_end + 1;
    if x < n {
        let c3 = s.get_char(x);
        if c3 == '-' || c3 == '+' {
            x = x + 1;
        }
    }
    let ghost xx = rr.skip(ep + 1);
    let ghost xsl = x as int - sl - ep - 1;
    proof {
        assert(forall|j: int| 0 <= j < xx.len() ==> xx[j] == s@[sl + ep + 1 + j]);
        assert(xsl == sign_len(xx));
    }
    let j3 = scan_digits(s, x);
    let d3 = j3 - x;
    let ghost tt = xx.skip(xsl);
    proof {
        assert(forall|j: int| 0 <= j < tt.len() ==> tt[j] == s@[sl + ep + 1 + xsl + j]);
    }
    if j3 < n {
        // a stray character inside the exponent
        proof {
            assert(tt[j3 as int - sl - ep - 1 - xsl] == s@[j3 as int]);
            assert(!all_digits(tt));
            assert(!exp_ok(xx));
        }
        return false;
    }
    proof {
        assert(all_digits(tt));
        assert(tt.len() == d3);
    }
    d3 > 0
}

} // verus!
