//! Fixed-point decimal text: parsing and formatting.
//!
//! The provider's API speaks decimal numbers (angles, temperatures, wind
//! speeds) in query strings and response bodies. The library holds such a
//! number as an integer scaled by a power of ten, and this module gives the
//! two directions between that representation and its decimal text, each
//! with an exact contract: the grammar is an optional minus sign, one or
//! more integer digits, and optionally a dot followed by one or more
//! fraction digits; fraction digits beyond the scale are truncated toward
//! zero.

use vstd::prelude::*;

verus! {

/// Ten to the power `k`.
pub open spec fn pow10(k: nat) -> nat
    decreases k,
{
    if k == 0 {
        1
    } else {
        10 * pow10((k - 1) as nat)
    }
}

pub proof fn lemma_pow10_le(a: nat, b: nat)
    requires
        a <= b,
    ensures
        pow10(a) <= pow10(b),
    decreases b,
{
    if a < b {
        lemma_pow10_le(a, (b - 1) as nat);
    }
}

/// The concrete powers that the executable code meets.
pub proof fn lemma_pow10_values()
    ensures
        pow10(0) == 1,
        pow10(2) == 100,
        pow10(7) == 10_000_000,
        pow10(18) == 1_000_000_000_000_000_000,
{
    reveal_with_fuel(pow10, 19);
}

pub fn pow10_exec(k: u32) -> (r: u64)
    requires
        k <= 18,
    ensures
        r == pow10(k as nat),
        r >= 1,
{
    proof {
        lemma_pow10_values();
        lemma_pow10_le(0, k as nat);
    }
    let mut r: u64 = 1;
    let mut i: u32 = 0;
    while i < k
        invariant
            i <= k <= 18,
            r == pow10(i as nat),
        decreases k - i,
    {
        proof {
            lemma_pow10_le((i + 1) as nat, 18);
            lemma_pow10_values();
        }
        r = r * 10;
        i = i + 1;
    }
    r
}

/// The character for one decimal digit.
pub open spec fn digit_char(d: nat) -> char {
    if d == 0 {
        '0'
    } else if d == 1 {
        '1'
    } else if d == 2 {
        '2'
    } else if d == 3 {
        '3'
    } else if d == 4 {
        '4'
    } else if d == 5 {
        '5'
    } else if d == 6 {
        '6'
    } else if d == 7 {
        '7'
    } else if d == 8 {
        '8'
    } else {
        '9'
    }
}

/// Whether `c` is a decimal digit.
pub open spec fn is_digit(c: char) -> bool {
    48 <= (c as u32) <= 57
}

/// The numeric value of a digit character.
pub open spec fn digit_val(c: char) -> int {
    (c as u32) - 48
}

/// Every character of `s` is a decimal digit.
pub open spec fn all_digits(s: Seq<char>) -> bool {
    forall|i: int| 0 <= i < s.len() ==> is_digit(#[trigger] s[i])
}

/// The value of a digit string read in base ten.
pub open spec fn digits_val(s: Seq<char>) -> int
    decreases s.len(),
{
    if s.len() == 0 {
        0
    } else {
        10 * digits_val(s.drop_last()) + digit_val(s.last())
    }
}

pub proof fn lemma_digits_val_step(s: Seq<char>, j: int)
    requires
        0 <= j < s.len(),
    ensures
        digits_val(s.take(j + 1)) == 10 * digits_val(s.take(j)) + digit_val(s[j]),
{
    assert(s.take(j + 1).drop_last() =~= s.take(j));
    assert(s.take(j + 1).last() == s[j]);
}

pub proof fn lemma_digits_val_bounds(s: Seq<char>)
    requires
        all_digits(s),
    ensures
        0 <= digits_val(s) < pow10(s.len()),
    decreases s.len(),
{
    if s.len() > 0 {
        assert(all_digits(s.drop_last()));
        lemma_digits_val_bounds(s.drop_last());
        assert(is_digit(s.last()));
    }
}

/// The digits of `n` in base ten, most significant first.
pub open spec fn dec_digits(n: nat) -> Seq<char>
    decreases n,
{
    if n < 10 {
        seq![digit_char(n)]
    } else {
        dec_digits(n / 10).push(digit_char(n % 10))
    }
}

/// The last `k` digits of `n`, zero-padded on the left.
pub open spec fn pad_digits(n: nat, k: nat) -> Seq<char>
    decreases k,
{
    if k == 0 {
        Seq::empty()
    } else {
        pad_digits(n / 10, (k - 1) as nat).push(digit_char(n % 10))
    }
}

/// The decimal text of `v` at scale `k`: an optional minus sign, the integer
/// part, and (for a positive scale) a dot and exactly `k` fraction digits.
pub open spec fn fixed_decimal_seq(v: int, k: nat) -> Seq<char> {
    let m = if v < 0 {
        -v
    } else {
        v
    };
    let sign: Seq<char> = if v < 0 {
        seq!['-']
    } else {
        Seq::empty()
    };
    let fpart: Seq<char> = if k > 0 {
        seq!['.'] + pad_digits((m % (pow10(k) as int)) as nat, k)
    } else {
        Seq::empty()
    };
    sign + dec_digits((m / (pow10(k) as int)) as nat) + fpart
}

pub proof fn lemma_pow10_mul(a: nat, b: nat)
    ensures
        pow10(a) * pow10(b) == pow10(a + b),
    decreases a,
{
    if a == 0 {
    } else {
        lemma_pow10_mul((a - 1) as nat, b);
        assert(pow10(a) == 10 * pow10((a - 1) as nat));
        assert(pow10(a + b) == 10 * pow10((a + b - 1) as nat));
        assert((a + b - 1) as nat == (a - 1) as nat + b);
        assert((10 * pow10((a - 1) as nat)) * pow10(b) == 10 * (pow10((a - 1) as nat) * pow10(
            b,
        ))) by (nonlinear_arith);
    }
    assert(pow10(a) * pow10(b) >= 0) by (nonlinear_arith)
        requires
            pow10(a) >= 0,
            pow10(b) >= 0,
    ;
}

/// Index of the first dot in `s`, or the length of `s` when there is none.
pub open spec fn dot_pos(s: Seq<char>) -> int
    decreases s.len(),
{
    if s.len() == 0 {
        0
    } else if s[0] == '.' {
        0
    } else {
        1 + dot_pos(s.skip(1))
    }
}

pub proof fn lemma_dot_pos_at(s: Seq<char>, p: int)
    requires
        0 <= p <= s.len(),
        forall|j: int| 0 <= j < p ==> s[j] != '.',
        p < s.len() ==> s[p] == '.',
    ensures
        dot_pos(s) == p,
    decreases s.len(),
{
    if s.len() == 0 {
    } else if s[0] == '.' {
        assert(p == 0);
    } else {
        assert(p >= 1);
        assert forall|j: int| 0 <= j < p - 1 implies s.skip(1)[j] != '.' by {
            assert(s.skip(1)[j] == s[j + 1]);
        }
        if p - 1 < s.skip(1).len() {
            assert(s.skip(1)[p - 1] == s[p]);
        }
        lemma_dot_pos_at(s.skip(1), p - 1);
    }
}

/// One when `s` starts with a minus sign, zero otherwise.
pub open spec fn sign_len(s: Seq<char>) -> int {
    if s.len() > 0 && s[0] == '-' {
        1
    } else {
        0
    }
}

/// `s` without its sign.
pub open spec fn num_body(s: Seq<char>) -> Seq<char> {
    s.skip(sign_len(s))
}

/// The digits before the dot.
pub open spec fn int_part(s: Seq<char>) -> Seq<char> {
    num_body(s).take(dot_pos(num_body(s)))
}

pub open spec fn has_dot(s: Seq<char>) -> bool {
    dot_pos(num_body(s)) < num_body(s).len()
}

/// The digits after the dot; empty when there is no dot.
pub open spec fn frac_part(s: Seq<char>) -> Seq<char> {
    if has_dot(s) {
        num_body(s).skip(dot_pos(num_body(s)) + 1)
    } else {
        Seq::empty()
    }
}

/// `s` matches the accepted grammar: an optional minus sign, at least one
/// integer digit, and, if a dot is present, at least one fraction digit.
pub open spec fn is_fixed_decimal(s: Seq<char>) -> bool {
    &&& int_part(s).len() >= 1
    &&& all_digits(int_part(s))
    &&& (has_dot(s) ==> frac_part(s).len() >= 1 && all_digits(frac_part(s)))
}

/// The fraction digits scaled to `k` places; digits beyond `k` are dropped.
pub open spec fn frac_scaled(f: Seq<char>, k: nat) -> int {
    if f.len() >= k {
        digits_val(f.take(k as int))
    } else {
        digits_val(f) * pow10((k - f.len()) as nat)
    }
}

/// The magnitude of `s` at scale `k`.
pub open spec fn magnitude(s: Seq<char>, k: nat) -> int {
    digits_val(int_part(s)) * pow10(k) + frac_scaled(frac_part(s), k)
}

/// The value of the decimal text `s`, scaled by ten to the `k` and truncated
/// toward zero beyond `k` fraction digits.
pub open spec fn fixed_val(s: Seq<char>, k: nat) -> int {
    if sign_len(s) == 1 {
        -magnitude(s, k)
    } else {
        magnitude(s, k)
    }
}

/// Position of the first dot at or after `from`, or the length of `s`.
fn find_dot(s: &str, from: usize) -> (r: usize)
    requires
        from <= s@.len(),
    ensures
        from <= r <= s@.len(),
        forall|j: int| from <= j < r ==> s@[j] != '.',
        r < s@.len() ==> s@[r as int] == '.',
{
    let n: usize = s.unicode_len();
    let mut i: usize = from;
    while i < n
        invariant
            from <= i <= n,
            n == s@.len(),
            forall|j: int| from <= j < i ==> s@[j] != '.',
        decreases n - i,
    {
        let c = s.get_char(i);
        if c == '.' {
            return i;
        }
        i = i + 1;
    }
    i
}

proof fn lemma_dec_digits_props(n: nat)
    ensures
        dec_digits(n).len() >= 1,
        all_digits(dec_digits(n)),
        digits_val(dec_digits(n)) == n,
    decreases n,
{
    if n < 10 {
        assert(dec_digits(n).drop_last() =~= Seq::<char>::empty());
        assert(dec_digits(n).last() == digit_char(n));
        assert(digits_val(Seq::<char>::empty()) == 0);
        assert(digit_val(digit_char(n)) == n);
    } else {
        lemma_dec_digits_props(n / 10);
        let d = dec_digits(n / 10);
        let c = digit_char(n % 10);
        assert(d.push(c).drop_last() =~= d);
        assert(d.push(c).last() == c);
        assert forall|j: int| 0 <= j < d.push(c).len() implies is_digit(#[trigger] d.push(c)[j]) by {
            if j < d.len() {
                assert(d.push(c)[j] == d[j]);
            }
        }
    }
}

proof fn lemma_pad_digits_props(n: nat, k: nat)
    requires
        n < pow10(k),
    ensures
        pad_digits(n, k).len() == k,
        all_digits(pad_digits(n, k)),
        digits_val(pad_digits(n, k)) == n,
    decreases k,
{
    if k == 0 {
        assert(n == 0);
    } else {
        assert(pow10(k) == 10 * pow10((k - 1) as nat));
        assert(n / 10 < pow10((k - 1) as nat));
        lemma_pad_digits_props(n / 10, (k - 1) as nat);
        let d = pad_digits(n / 10, (k - 1) as nat);
        let c = digit_char(n % 10);
        assert(d.push(c).drop_last() =~= d);
        assert(d.push(c).last() == c);
        assert forall|j: int| 0 <= j < d.push(c).len() implies is_digit(#[trigger] d.push(c)[j]) by {
            if j < d.len() {
                assert(d.push(c)[j] == d[j]);
            }
        }
    }
}

/// Law: decimal text rendered at scale `k` always matches the accepted
/// grammar, and reading it back at the same scale returns exactly the value
/// it was rendered from. Formatting loses nothing and parsing adds nothing.
pub proof fn lemma_format_parse_round_trip(v: int, k: nat)
    ensures
        is_fixed_decimal(fixed_decimal_seq(v, k)),
        fixed_val(fixed_decimal_seq(v, k), k) == v,
{
    lemma_pow10_le(0, k);
    let m: int = if v < 0 {
        -v
    } else {
        v
    };
    let p: int = pow10(k) as int;
    let hi: int = m / p;
    let lo: int = m % p;
    lemma_dec_digits_props(hi as nat);
    let d = dec_digits(hi as nat);
    let s = fixed_decimal_seq(v, k);
    let body = num_body(s);
    if v < 0 {
        assert(s[0] == '-');
        assert(sign_len(s) == 1);
    } else {
        assert(is_digit(s[0]));
        assert(s[0] != '-');
        assert(sign_len(s) == 0);
    }
    if k == 0 {
        assert(body =~= d);
        assert forall|j: int| 0 <= j < d.len() implies d[j] != '.' by {
            assert(is_digit(d[j]));
        }
        lemma_dot_pos_at(body, body.len() as int);
        assert(!has_dot(s));
        assert(int_part(s) =~= d);
        assert(frac_scaled(frac_part(s), k) == 0);
        assert(magnitude(s, k) == hi * p);
        assert(m % p == 0);
        vstd::arithmetic::div_mod::lemma_fundamental_div_mod(m, p);
        assert(m == p * (m / p) + m % p);
        assert(hi * p == m) by (nonlinear_arith)
            requires
                hi == m / p,
                m == p * (m / p),
        ;
    } else {
        lemma_pad_digits_props(lo as nat, k);
        let f = pad_digits(lo as nat, k);
        assert(body =~= d + seq!['.'] + f);
        assert forall|j: int| 0 <= j < d.len() implies body[j] != '.' by {
            assert(body[j] == d[j]);
            assert(is_digit(d[j]));
        }
        assert(body[d.len() as int] == '.');
        lemma_dot_pos_at(body, d.len() as int);
        assert(has_dot(s));
        assert(int_part(s) =~= d);
        assert(frac_part(s) =~= f);
        assert(f.take(k as int) =~= f);
        assert(frac_scaled(frac_part(s), k) == lo);
        assert(magnitude(s, k) == hi * p + lo);
        vstd::arithmetic::div_mod::lemma_fundamental_div_mod(m, p);
        assert(m == p * (m / p) + m % p);
        assert(hi * p + lo == m) by (nonlinear_arith)
            requires
                hi == m / p,
                lo == m % p,
                m == p * (m / p) + m % p,
        ;
    }
}

fn digit_str(d: u64) -> (r: &'static str)
    requires
        d < 10,
    ensures
        r@ == seq![digit_char(d as nat)],
{
    if d == 0 {
        proof {
            reveal_strlit("0");
            assert("0"@ =~= seq![digit_char(0)]);
        }
        "0"
    } else if d == 1 {
        proof {
            reveal_strlit("1");
            assert("1"@ =~= seq![digit_char(1)]);
        }
        "1"
    } else if d == 2 {
        proof {
            reveal_strlit("2");
            assert("2"@ =~= seq![digit_char(2)]);
        }
        "2"
    } else if d == 3 {
        proof {
            reveal_strlit("3");
            assert("3"@ =~= seq![digit_char(3)]);
        }
        "3"
    } else if d == 4 {
        proof {
            reveal_strlit("4");
            assert("4"@ =~= seq![digit_char(4)]);
        }
        "4"
    } else if d == 5 {
        proof {
            reveal_strlit("5");
            assert("5"@ =~= seq![digit_char(5)]);
        }
        "5"
    } else if d == 6 {
        proof {
            reveal_strlit("6");
            assert("6"@ =~= seq![digit_char(6)]);
        }
        "6"
    } else if d == 7 {
        proof {
            reveal_strlit("7");
            assert("7"@ =~= seq![digit_char(7)]);
        }
        "7"
    } else if d == 8 {
        proof {
            reveal_strlit("8");
            assert("8"@ =~= seq![digit_char(8)]);
        }
        "8"
    } else {
        proof {
            reveal_strlit("9");
            assert("9"@ =~= seq![digit_char(9)]);
        }
        "9"
    }
}

fn fmt_u64(n: u64) -> (r: String)
    ensures
        r@ == dec_digits(n as nat),
    decreases n,
{
    if n < 10 {
        String::from_str(digit_str(n))
    } else {
        let mut s = fmt_u64(n / 10);
        s.append(digit_str(n % 10));
        proof {
            assert(dec_digits((n / 10) as nat) + seq![digit_char((n % 10) as nat)] =~= dec_digits(
                n as nat,
            ));
        }
        s
    }
}

fn fmt_padded(n: u64, k: u32) -> (r: String)
    ensures
        r@ == pad_digits(n as nat, k as nat),
    decreases k,
{
    if k == 0 {
        let s = String::new();
        proof {
            assert(s@ =~= pad_digits(n as nat, 0));
        }
        s
    } else {
        let mut s = fmt_padded(n / 10, k - 1);
        s.append(digit_str(n % 10));
        proof {
            assert(pad_digits((n / 10) as nat, (k - 1) as nat) + seq![
                digit_char((n % 10) as nat),
            ] =~= pad_digits(n as nat, k as nat));
        }
        s
    }
}

/// Reads decimal text into an integer scaled by ten to the `k`, truncating
/// fraction digits beyond the scale toward zero. Returns the value exactly
/// when the text matches the grammar and the value lies within `limit` of
/// zero; returns nothing otherwise.
#[verifier::loop_isolation(false)]
#[verifier::rlimit(40)]
pub fn parse_fixed(s: &str, k: u32, limit: i64) -> (r: Option<i64>)
    requires
        k <= 7,
        0 < limit,
        limit <= 9999 * pow10(k as nat),
    ensures
        r is Some <==> is_fixed_decimal(s@) && -limit <= fixed_val(s@, k as nat) <= limit,
        r is Some ==> r->0 == fixed_val(s@, k as nat),
{
    let ghost v: Seq<char> = s@;
    proof {
        lemma_pow10_values();
        lemma_pow10_le(k as nat, 7);
    }
    let n: usize = s.unicode_len();
    if n == 0 {
        proof {
            assert(int_part(v).len() == 0);
        }
        return None;
    }
    let neg: bool = s.get_char(0) == '-';
    let start: usize = if neg {
        1
    } else {
        0
    };
    proof {
        assert(sign_len(v) == start);
    }
    let ghost b: Seq<char> = num_body(v);
    // locate the dot
    let dp: usize = find_dot(s, start);
    proof {
        assert forall|j: int| 0 <= j < dp - start implies b[j] != '.' by {
            assert(b[j] == v[j + start]);
        }
        if dp < n {
            assert(b[dp - start] == v[dp as int]);
        }
        lemma_dot_pos_at(b, dp - start);
        assert(dot_pos(b) == dp - start);
    }
    if dp == start {
        proof {
            assert(int_part(v).len() == 0);
        }
        return None;
    }
    // integer part
    let ghost ip: Seq<char> = int_part(v);
    proof {
        assert(ip == b.take(dp - start));
        assert(ip.len() == dp - start);
    }
    let mut acc: i64 = 0;
    let mut i: usize = start;
    while i < dp
        invariant
            start <= i <= dp,
            all_digits(ip.take(i - start)),
            acc == (if digits_val(ip.take(i - start)) >= 10000 {
                10000int
            } else {
                digits_val(ip.take(i - start))
            }),
            0 <= acc <= 10000,
        decreases dp - i,
    {
        let c = s.get_char(i);
        proof {
            assert(ip[i - start] == v[i as int]);
        }
        let d: u32 = c as u32;
        if d < 48 || d > 57 {
            proof {
                assert(!is_digit(ip[i - start]));
                assert(!all_digits(ip));
            }
            return None;
        }
        let dv: i64 = (d - 48) as i64;
        proof {
            lemma_digits_val_step(ip, i - start);
            assert forall|j: int| 0 <= j < i - start + 1 implies is_digit(
                #[trigger] ip.take(i - start + 1)[j],
            ) by {
                if j < i - start {
                    assert(ip.take(i - start)[j] == ip[j]);
                }
                assert(ip.take(i - start + 1)[j] == ip[j]);
            }
        }
        acc = if acc >= 10000 {
            10000
        } else {
            let t: i64 = acc * 10 + dv;
            if t > 10000 {
                10000
            } else {
                t
            }
        };
        i = i + 1;
    }
    proof {
        assert(ip.take(dp - start) =~= ip);
        assert(all_digits(ip));
    }
    // fraction part
    let ghost fp: Seq<char> = frac_part(v);
    let mut fr: i64 = 0;
    let mut cnt: u32 = 0;
    if dp < n {
        proof {
            assert(has_dot(v));
            assert forall|j: int| 0 <= j < fp.len() implies fp[j] == v[j + dp + 1] by {
                assert(fp[j] == b[j + (dp - start) + 1]);
                assert(b[j + (dp - start) + 1] == v[j + dp + 1]);
            }
            assert(fp.len() == n - dp - 1);
        }
        if dp + 1 == n {
            proof {
                assert(fp.len() == 0);
            }
            return None;
        }
        let mut i2: usize = dp + 1;
        while i2 < n
            invariant
                dp + 1 <= i2 <= n,
                all_digits(fp.take(i2 - dp - 1)),
                cnt == (if i2 - dp - 1 >= k {
                    k as int
                } else {
                    i2 - dp - 1
                }),
                fr == digits_val(fp.take(cnt as int)),
                0 <= fr < pow10(cnt as nat),
            decreases n - i2,
        {
            let c = s.get_char(i2);
            proof {
                assert(fp[i2 - dp - 1] == v[i2 as int]);
            }
            let d: u32 = c as u32;
            if d < 48 || d > 57 {
                proof {
                    assert(!is_digit(fp[i2 - dp - 1]));
                    assert(!all_digits(fp));
                }
                return None;
            }
            if cnt < k {
                proof {
                    lemma_digits_val_step(fp, cnt as int);
                    lemma_pow10_le((cnt + 1) as nat, 7);
                }
                fr = fr * 10 + ((d - 48) as i64);
                cnt = cnt + 1;
            }
            proof {
                assert forall|j: int| 0 <= j < i2 - dp implies is_digit(
                    #[trigger] fp.take(i2 - dp)[j],
                ) by {
                    if j < i2 - dp - 1 {
                        assert(fp.take(i2 - dp - 1)[j] == fp[j]);
                    }
                    assert(fp.take(i2 - dp)[j] == fp[j]);
                }
            }
            i2 = i2 + 1;
        }
        proof {
            assert(fp.take(fp.len() as int) =~= fp);
            assert(all_digits(fp));
        }
    } else {
        proof {
            assert(!has_dot(v));
            assert(fp.len() == 0);
            assert(fp.take(0) =~= fp);
        }
    }
    // scale the fraction to k places
    let pad: u64 = pow10_exec(k - cnt);
    proof {
        lemma_pow10_le((k - cnt) as nat, 7);
        lemma_pow10_le(cnt as nat, 7);
        assert(fr * pad <= 10_000_000 * 10_000_000) by (nonlinear_arith)
            requires
                0 <= fr <= 10_000_000,
                0 <= pad <= 10_000_000,
        ;
        assert(fr * pad >= 0) by (nonlinear_arith)
            requires
                0 <= fr,
                0 <= pad,
        ;
    }
    let frs: i64 = fr * (pad as i64);
    proof {
        if fp.len() >= k {
            assert(cnt == k);
            assert(pad == 1);
            assert(frs == frac_scaled(fp, k as nat));
        } else {
            assert(cnt == fp.len());
            assert(fp.take(cnt as int) =~= fp);
            assert(frs == digits_val(fp) * pow10((k - fp.len()) as nat));
            assert(frs == frac_scaled(fp, k as nat));
        }
        // the scaled fraction stays below one unit of the integer part
        lemma_digits_val_bounds(fp.take(cnt as int));
        assert(frs < pow10(cnt as nat) * pow10((k - cnt) as nat)) by (nonlinear_arith)
            requires
                fr < pow10(cnt as nat),
                pad == pow10((k - cnt) as nat),
                pad >= 1,
                frs == fr * pad,
        ;
        lemma_pow10_mul(cnt as nat, (k - cnt) as nat);
        assert(frs < pow10(k as nat));
    }
    if acc >= 10000 {
        proof {
            assert(digits_val(ip) >= 10000);
            assert(digits_val(ip) * pow10(k as nat) >= 10000 * pow10(k as nat))
                by (nonlinear_arith)
                requires
                    digits_val(ip) >= 10000,
                    pow10(k as nat) >= 1,
            ;
            assert(magnitude(v, k as nat) > limit);
        }
        return None;
    }
    let scale: u64 = pow10_exec(k);
    proof {
        assert(acc == digits_val(ip));
        assert(acc * scale <= 9999 * 10_000_000) by (nonlinear_arith)
            requires
                0 <= acc <= 9999,
                0 <= scale <= 10_000_000,
        ;
        assert(acc * scale >= 0) by (nonlinear_arith)
            requires
                0 <= acc,
                0 <= scale,
        ;
    }
    let mag: i64 = acc * (scale as i64) + frs;
    proof {
        assert(mag == magnitude(v, k as nat));
        assert(is_fixed_decimal(v));
    }
    if mag > limit {
        return None;
    }
    if neg {
        Some(-mag)
    } else {
        Some(mag)
    }
}

/// Renders `v` at scale `k` as decimal text, e.g. at scale seven a value of
/// ten million and one is rendered as the digit one, a dot, six zeros and a
/// final one.
pub fn format_fixed(v: i64, k: u32) -> (r: String)
    requires
        k <= 18,
        v != i64::MIN,
    ensures
        r@ == fixed_decimal_seq(v as int, k as nat),
{
    let neg = v < 0;
    let m: i64 = if neg {
        -v
    } else {
        v
    };
    let mu: u64 = m as u64;
    let scale: u64 = pow10_exec(k);
    let ip: u64 = mu / scale;
    let fp: u64 = mu % scale;
    let mut s = String::new();
    if neg {
        s.append("-");
    }
    let ds = fmt_u64(ip);
    s.append(ds.as_str());
    if k > 0 {
        s.append(".");
        let fs = fmt_padded(fp, k);
        s.append(fs.as_str());
    }
    proof {
        reveal_strlit("-");
        reveal_strlit(".");
        if neg {
            assert("-"@ =~= seq!['-']);
        }
        if k > 0 {
            assert("."@ =~= seq!['.']);
        }
        assert(s@ =~= fixed_decimal_seq(v as int, k as nat));
    }
    s
}

} // verus!
