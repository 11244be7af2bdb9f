//! Exact decimal numbers as they appear on the wire.
use vstd::prelude::*;
use vstd::string::*;

verus! {

/// A decimal number `(-1)^negative * mantissa / 10^scale`, kept exactly as written.
#[derive(Clone, Copy, Debug, PartialEq, Eq, Structural)]
pub struct Decimal {
    pub negative: bool,
    pub mantissa: u64,
    pub scale: usize,
}

pub open spec fn is_digit(c: char) -> bool {
    '0' <= c && c <= '9'
}

pub open spec fn all_digits(s: Seq<char>) -> bool {
    forall|i: int| 0 <= i < s.len() ==> is_digit(#[trigger] s[i])
}

pub open spec fn digit_value(c: char) -> nat {
    (c as nat - '0' as nat) as nat
}

/// The number that a string of decimal digits denotes.
pub open spec fn digits_value(s: Seq<char>) -> nat
    decreases s.len(),
{
    if s.len() == 0 {
        0
    } else {
        digits_value(s.drop_last()) * 10 + digit_value(s.last())
    }
}

/// Where a numeral splits into integer and fraction digits: the position of its
/// point, or its length when it has none.
pub open spec fn is_point_at(body: Seq<char>, k: int) -> bool {
    &&& 0 < k <= body.len()
    &&& all_digits(body.subrange(0, k))
    &&& (k == body.len() || (body[k] == '.' && k + 1 < body.len() && all_digits(
        body.subrange(k + 1, body.len() as int),
    )))
}

pub open spec fn has_sign(s: Seq<char>) -> bool {
    s.len() > 0 && s[0] == '-'
}

pub open spec fn unsigned_part(s: Seq<char>) -> Seq<char> {
    if has_sign(s) {
        s.drop_first()
    } else {
        s
    }
}

/// A plain decimal numeral: an optional `-`, one or more digits, and optionally
/// a `.` followed by one or more digits.
pub open spec fn is_numeral(s: Seq<char>) -> bool {
    exists|k: int| is_point_at(unsigned_part(s), k)
}

pub open spec fn point_of(s: Seq<char>) -> int {
    choose|k: int| is_point_at(unsigned_part(s), k)
}

pub open spec fn int_digits(s: Seq<char>) -> Seq<char> {
    unsigned_part(s).subrange(0, point_of(s))
}

pub open spec fn frac_digits(s: Seq<char>) -> Seq<char> {
    let b = unsigned_part(s);
    if point_of(s) == b.len() {
        Seq::empty()
    } else {
        b.subrange(point_of(s) + 1, b.len() as int)
    }
}

/// The decimal that a numeral denotes, when it is one and its digits fit in 64 bits.
pub open spec fn decimal_of(s: Seq<char>) -> Option<Decimal> {
    if is_numeral(s) && digits_value(int_digits(s) + frac_digits(s)) <= u64::MAX {
        Some(
            Decimal {
                negative: has_sign(s),
                mantissa: digits_value(int_digits(s) + frac_digits(s)) as u64,
                scale: frac_digits(s).len() as usize,
            },
        )
    } else {
        None
    }
}

proof fn lemma_digits_value_append(a: Seq<char>, c: char)
    ensures
        digits_value(a.push(c)) == digits_value(a) * 10 + digit_value(c),
{
    assert(a.push(c).drop_last() =~= a);
}

/// The point of a numeral is the first place that holds no digit.
proof fn lemma_point_is_first_non_digit(body: Seq<char>, j: int)
    requires
        0 <= j <= body.len(),
        all_digits(body.subrange(0, j)),
        j == body.len() || !is_digit(body[j]),
    ensures
        forall|k: int| #[trigger] is_point_at(body, k) ==> k == j,
{
    assert forall|k: int| #[trigger] is_point_at(body, k) implies k == j by {
        if k < j {
            assert(is_digit(body.subrange(0, j)[k]));
        } else if k > j {
            assert(is_digit(body.subrange(0, k)[j]));
        }
    }
}

/// Reads the run of digits of `s` that starts at `from`, going on from the
/// value `m0` of the digits `prefix` read before.
fn scan_digits(s: &str, from: usize, m0: u64, overflow0: bool, Ghost(prefix): Ghost<Seq<char>>) -> (r: (usize, u64, bool))
    requires
        from <= s@.len(),
        !overflow0 ==> m0 == digits_value(prefix),
        overflow0 ==> digits_value(prefix) > u64::MAX,
    ensures
        from <= r.0 <= s@.len(),
        all_digits(s@.subrange(from as int, r.0 as int)),
        r.0 < s@.len() ==> !is_digit(s@[r.0 as int]),
        !r.2 ==> r.1 == digits_value(prefix + s@.subrange(from as int, r.0 as int)),
        r.2 ==> digits_value(prefix + s@.subrange(from as int, r.0 as int)) > u64::MAX,
{
    let n = s.unicode_len();
    let mut i: usize = from;
    let mut m: u64 = m0;
    let mut overflow = overflow0;
    let ghost mut seen: Seq<char> = prefix;
    assert(seen =~= prefix + s@.subrange(from as int, from as int));
    while i < n && '0' <= s.get_char(i) && s.get_char(i) <= '9'
        invariant
            from <= i <= n,
            n == s@.len(),
            all_digits(s@.subrange(from as int, i as int)),
            seen == prefix + s@.subrange(from as int, i as int),
            !overflow ==> m == digits_value(seen),
            overflow ==> digits_value(seen) > u64::MAX,
        decreases n - i,
    {
        let c = s.get_char(i);
        let d = (c as u32 - '0' as u32) as u64;
        proof {
            lemma_digits_value_append(seen, c);
        }
        if !overflow {
            if m > (u64::MAX - d) / 10 {
                overflow = true;
            } else {
                m = m * 10 + d;
            }
        }
        proof {
            seen = seen.push(c);
            assert(seen =~= prefix + s@.subrange(from as int, i + 1));
            assert forall|t: int| 0 <= t < i + 1 - from implies is_digit(
                #[trigger] s@.subrange(from as int, i + 1)[t],
            ) by {
                if t < i - from {
                    assert(s@.subrange(from as int, i + 1)[t] == s@.subrange(from as int, i as int)[t]);
                }
            }
        }
        i = i + 1;
    }
    (i, m, overflow)
}

/// Reads a plain decimal numeral exactly.
pub fn parse_decimal(s: &str) -> (r: Option<Decimal>)
    ensures
        r == decimal_of(s@),
{
    let n = s.unicode_len();
    let negative = n > 0 && s.get_char(0) == '-';
    let start: usize = if negative { 1 } else { 0 };
    let ghost body = unsigned_part(s@);
    assert(body =~= s@.subrange(start as int, n as int));
    let (e1, m1, o1) = scan_digits(s, start, 0, false, Ghost(Seq::empty()));
    let ghost j = e1 - start;
    assert(body.subrange(0, j) =~= s@.subrange(start as int, e1 as int));
    assert(Seq::<char>::empty() + body.subrange(0, j) =~= body.subrange(0, j));
    proof {
        lemma_point_is_first_non_digit(body, j);
    }
    if e1 == start {
        return None;
    }
    if e1 == n {
        assert(is_point_at(body, j));
        assert(int_digits(s@) + frac_digits(s@) =~= body.subrange(0, j));
        if o1 {
            return None;
        }
        return Some(Decimal { negative, mantissa: m1, scale: 0 });
    }
    if s.get_char(e1) != '.' || e1 + 1 == n {
        return None;
    }
    let (e2, m2, o2) = scan_digits(s, e1 + 1, m1, o1, Ghost(body.subrange(0, j)));
    if e2 != n {
        assert(!all_digits(body.subrange(j + 1, body.len() as int))) by {
            assert(body.subrange(j + 1, body.len() as int)[e2 - e1 - 1] == s@[e2 as int]);
        }
        return None;
    }
    assert(body.subrange(j + 1, body.len() as int) =~= s@.subrange(e1 + 1, n as int));
    assert(is_point_at(body, j));
    assert(int_digits(s@) + frac_digits(s@) =~= body.subrange(0, j) + s@.subrange(e1 + 1, n as int));
    if o2 {
        return None;
    }
    Some(Decimal { negative, mantissa: m2, scale: n - e1 - 1 })
}

/// The largest exponent magnitude read.
pub const MAX_EXPONENT: u64 = 1000;

pub open spec fn is_exp_marker(c: char) -> bool {
    c == 'e' || c == 'E'
}

/// Whether `p` is the first exponent marker of `s`.
pub open spec fn is_first_marker(s: Seq<char>, p: int) -> bool {
    &&& 0 <= p < s.len()
    &&& is_exp_marker(s[p])
    &&& forall|q: int| 0 <= q < p ==> !is_exp_marker(#[trigger] s[q])
}

pub open spec fn has_marker(s: Seq<char>) -> bool {
    exists|p: int| is_first_marker(s, p)
}

pub open spec fn marker_of(s: Seq<char>) -> int {
    choose|p: int| is_first_marker(s, p)
}

/// An exponent: an optional sign and one or more digits; whether it is
/// negative, and its magnitude.
pub open spec fn exponent_of(t: Seq<char>) -> Option<(bool, nat)> {
    let signed = t.len() > 0 && (t[0] == '-' || t[0] == '+');
    let digits = if signed { t.drop_first() } else { t };
    if digits.len() > 0 && all_digits(digits) {
        Some((signed && t[0] == '-', digits_value(digits)))
    } else {
        None
    }
}

pub open spec fn pow10(n: nat) -> nat
    decreases n,
{
    if n == 0 {
        1
    } else {
        10 * pow10((n - 1) as nat)
    }
}

/// Moves the point of `d` by `e` places, exactly, when the result still fits.
pub open spec fn shift_decimal(d: Decimal, negative_exp: bool, e: nat) -> Option<Decimal> {
    if e > MAX_EXPONENT {
        None
    } else if negative_exp {
        if d.scale + e <= usize::MAX {
            Some(Decimal { scale: (d.scale + e) as usize, ..d })
        } else {
            None
        }
    } else if e <= d.scale {
        Some(Decimal { scale: (d.scale - e) as usize, ..d })
    } else if d.mantissa * pow10((e - d.scale) as nat) <= u64::MAX {
        Some(Decimal { mantissa: (d.mantissa * pow10((e - d.scale) as nat)) as u64, scale: 0, ..d })
    } else {
        None
    }
}

/// A number as JSON writes it: a plain numeral, optionally followed by `e` or
/// `E` and an exponent of at most `MAX_EXPONENT`.
pub open spec fn number_of(s: Seq<char>) -> Option<Decimal> {
    if has_marker(s) {
        let p = marker_of(s);
        match (decimal_of(s.subrange(0, p)), exponent_of(s.subrange(p + 1, s.len() as int))) {
            (Some(d), Some((neg, e))) => shift_decimal(d, neg, e),
            _ => None,
        }
    } else {
        decimal_of(s)
    }
}

proof fn lemma_pow10_positive(n: nat)
    ensures
        pow10(n) >= 1,
    decreases n,
{
    if n > 0 {
        lemma_pow10_positive((n - 1) as nat);
    }
}

proof fn lemma_pow10_split(a: nat, b: nat)
    ensures
        pow10(a + b) == pow10(a) * pow10(b),
    decreases a,
{
    if a > 0 {
        lemma_pow10_split((a - 1) as nat, b);
        assert(pow10(a + b) == 10 * pow10((a - 1 + b) as nat));
        assert(10 * (pow10((a - 1) as nat) * pow10(b)) == (10 * pow10((a - 1) as nat)) * pow10(b)) by (nonlinear_arith);
    } else {
        assert(pow10(a) == 1);
        assert(a + b == b);
    }
}

/// `m * 10^k`, when it fits in 64 bits.
fn scale_up(m: u64, k: u64) -> (r: Option<u64>)
    ensures
        r matches Some(v) ==> v == m * pow10(k as nat),
        r is None ==> m * pow10(k as nat) > u64::MAX,
{
    let mut v: u64 = m;
    let mut i: u64 = 0;
    assert(pow10(0) == 1);
    assert(m * pow10(0) == m);
    while i < k
        invariant
            i <= k,
            v == m * pow10(i as nat),
        decreases k - i,
    {
        assert(pow10((i + 1) as nat) == 10 * pow10(i as nat));
        if v > u64::MAX / 10 {
            proof {
                lemma_pow10_split((i + 1) as nat, (k - i - 1) as nat);
                lemma_pow10_positive((k - i - 1) as nat);
                let rest = pow10((k - i - 1) as nat);
                assert(m * pow10((i + 1) as nat) == v * 10) by (nonlinear_arith)
                    requires v == m * pow10(i as nat), pow10((i + 1) as nat) == 10 * pow10(i as nat);
                assert(m * pow10(k as nat) == (v * 10) * rest) by (nonlinear_arith)
                    requires m * pow10((i + 1) as nat) == v * 10, pow10(k as nat) == pow10((i + 1) as nat) * rest,
                        (i + 1) + (k - i - 1) == k;
                assert((v * 10) * rest >= v * 10) by (nonlinear_arith)
                    requires rest >= 1;
            }
            return None;
        }
        assert(m * pow10((i + 1) as nat) == v * 10) by (nonlinear_arith)
            requires v == m * pow10(i as nat), pow10((i + 1) as nat) == 10 * pow10(i as nat);
        v = v * 10;
        i = i + 1;
    }
    Some(v)
}

/// Reads an exponent: an optional sign and digits.
fn parse_exponent(t: &str) -> (r: Option<(bool, u64)>)
    ensures
        r matches Some((neg, e)) ==> exponent_of(t@) == Some((neg, e as nat)),
        r is None ==> match exponent_of(t@) {
            Some(x) => x.1 > u64::MAX,
            None => true,
        },
{
    let n = t.unicode_len();
    let signed = n > 0 && (t.get_char(0) == '-' || t.get_char(0) == '+');
    let start: usize = if signed { 1 } else { 0 };
    let ghost digits = if signed { t@.drop_first() } else { t@ };
    assert(digits =~= t@.subrange(start as int, n as int));
    let (end, v, overflow) = scan_digits(t, start, 0, false, Ghost(Seq::empty()));
    assert(Seq::<char>::empty() + t@.subrange(start as int, end as int) =~= t@.subrange(start as int, end as int));
    if end != n || end == start {
        assert(exponent_of(t@) is None) by {
            if end != n {
                assert(!is_digit(digits[end - start]));
            }
        }
        return None;
    }
    if overflow {
        return None;
    }
    Some((signed && t.get_char(0) == '-', v))
}

/// Reads a number as JSON writes it, exponent included.
pub fn parse_number(s: &str) -> (r: Option<Decimal>)
    ensures
        r == number_of(s@),
{
    let n = s.unicode_len();
    let mut p: usize = 0;
    while p < n && !(s.get_char(p) == 'e' || s.get_char(p) == 'E')
        invariant
            p <= n,
            n == s@.len(),
            forall|q: int| 0 <= q < p ==> !is_exp_marker(#[trigger] s@[q]),
        decreases n - p,
    {
        p = p + 1;
    }
    if p == n {
        assert(!has_marker(s@)) by {
            if has_marker(s@) {
                let q = choose|q: int| is_first_marker(s@, q);
                assert(!is_exp_marker(s@[q]));
            }
        }
        return parse_decimal(s);
    }
    assert(is_first_marker(s@, p as int));
    assert(marker_of(s@) == p) by {
        let q = marker_of(s@);
        if q < p {
            assert(!is_exp_marker(s@[q]));
        } else if q > p {
            assert(!is_exp_marker(s@[p as int]));
        }
    }
    let base = parse_decimal(s.substring_char(0, p));
    let exponent = parse_exponent(s.substring_char(p + 1, n));
    match (base, exponent) {
        (Some(d), Some((neg, e))) => {
            if e > MAX_EXPONENT {
                return None;
            }
            if neg {
                if d.scale > usize::MAX - (e as usize) {
                    return None;
                }
                Some(Decimal { scale: d.scale + e as usize, ..d })
            } else if e as usize <= d.scale {
                Some(Decimal { scale: d.scale - e as usize, ..d })
            } else {
                match scale_up(d.mantissa, e - d.scale as u64) {
                    Some(m) => Some(Decimal { mantissa: m, scale: 0, ..d }),
                    None => None,
                }
            }
        },
        _ => None,
    }
}

} // verus!
