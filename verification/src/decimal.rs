//! Decimal numbers written as text, `[sign] digits [. digits] [e [sign] digits]`, read
//! exactly: their value in millionths, truncated toward zero, and whether that is exact.

use vstd::prelude::*;
use vstd::arithmetic::div_mod::lemma_fundamental_div_mod_converse;

verus! {

pub open spec fn is_digit(c: char) -> bool {
    '0' <= c && c <= '9'
}

pub open spec fn all_digits(s: Seq<char>) -> bool {
    forall|i: int| 0 <= i < s.len() ==> is_digit(#[trigger] s[i])
}

pub open spec fn all_zeros(s: Seq<char>) -> bool {
    forall|i: int| 0 <= i < s.len() ==> #[trigger] s[i] == '0'
}

/// The value of a string of decimal digits.
pub open spec fn digits_val(s: Seq<char>) -> int
    decreases s.len(),
{
    if s.len() == 0 {
        0
    } else {
        digits_val(s.drop_last()) * 10 + (s.last() as int - '0' as int)
    }
}

pub open spec fn pow10(n: nat) -> int
    decreases n,
{
    if n == 0 {
        1
    } else {
        10 * pow10((n - 1) as nat)
    }
}

/// The position of the first `c` in `s` (`s.len()` when there is none).
pub open spec fn first_char(s: Seq<char>, c: char) -> int
    decreases s.len(),
{
    if s.len() == 0 {
        0
    } else if s[0] == c {
        0
    } else {
        1 + first_char(s.drop_first(), c)
    }
}

pub open spec fn is_exp_mark(c: char) -> bool {
    c == 'e' || c == 'E'
}

/// The position of the first exponent mark (`e` or `E`) in `s` (`s.len()` when there is none).
pub open spec fn exp_mark(s: Seq<char>) -> int
    decreases s.len(),
{
    if s.len() == 0 {
        0
    } else if is_exp_mark(s[0]) {
        0
    } else {
        1 + exp_mark(s.drop_first())
    }
}

pub open spec fn sign_len(t: Seq<char>) -> int {
    if t.len() > 0 && (t[0] == '-' || t[0] == '+') {
        1
    } else {
        0
    }
}

pub open spec fn is_negative(t: Seq<char>) -> bool {
    t.len() > 0 && t[0] == '-'
}

pub open spec fn unsigned_part(t: Seq<char>) -> Seq<char> {
    t.skip(sign_len(t))
}

/// The digits and point before the exponent.
pub open spec fn mantissa(t: Seq<char>) -> Seq<char> {
    unsigned_part(t).take(exp_mark(unsigned_part(t)))
}

pub open spec fn int_digits(t: Seq<char>) -> Seq<char> {
    mantissa(t).take(first_char(mantissa(t), '.'))
}

pub open spec fn frac_digits(t: Seq<char>) -> Seq<char> {
    let m = mantissa(t);
    let d = first_char(m, '.');
    if d < m.len() {
        m.skip(d + 1)
    } else {
        seq![]
    }
}

/// The exponent written after the mark (0 without one); `None` when it is not
/// `[sign] digits`.
pub open spec fn exponent(t: Seq<char>) -> Option<int> {
    let u = unsigned_part(t);
    let e = exp_mark(u);
    if e >= u.len() {
        Some(0)
    } else {
        let x = u.skip(e + 1);
        let ds = x.skip(sign_len(x));
        if ds.len() > 0 && all_digits(ds) {
            Some(
                if is_negative(x) {
                    -digits_val(ds)
                } else {
                    digits_val(ds)
                },
            )
        } else {
            None
        }
    }
}

/// The magnitude of the number `t` in millionths, truncated toward zero, and whether it is
/// exact; `None` when `t` is not a decimal number.
pub open spec fn decimal_micros(t: Seq<char>) -> Option<(int, bool)> {
    let ip = int_digits(t);
    let fp = frac_digits(t);
    if ip.len() == 0 || !all_digits(ip) || !all_digits(fp) || exponent(t) is None {
        None
    } else {
        Some(scaled(digits_val(ip + fp), exponent(t)->Some_0 - fp.len() + 6))
    }
}

/// `d * 10^q` truncated toward zero, and whether that is exact.
pub open spec fn scaled(d: int, q: int) -> (int, bool) {
    if q >= 0 {
        (d * pow10(q as nat), true)
    } else {
        (d / pow10((-q) as nat), d % pow10((-q) as nat) == 0)
    }
}

/// Whether the number read as `m` millionths (`exact` or not, `negative` or not) lies in
/// `[lo, hi]`: when digits past the sixth decimal were dropped, the number lies strictly
/// beyond `m`, away from zero.
pub open spec fn micros_in_range(m: int, exact: bool, negative: bool, lo: int, hi: int) -> bool {
    &&& lo * 1_000_000 <= m <= hi * 1_000_000
    &&& !(m == hi * 1_000_000 && !exact && !negative)
    &&& !(m == lo * 1_000_000 && !exact && negative)
}

/// The number `t` in millionths (truncated toward zero), when it is a decimal number that lies
/// in `[lo, hi]`.
pub open spec fn decimal_in_range(t: Seq<char>, lo: int, hi: int) -> Option<int> {
    match decimal_micros(t) {
        Some((mag, exact)) => {
            let m = if is_negative(t) {
                -mag
            } else {
                mag
            };
            if micros_in_range(m, exact, is_negative(t), lo, hi) {
                Some(m)
            } else {
                None
            }
        },
        None => None,
    }
}

// ---------------------------------------------------------------------------------------------
// Facts about digit strings and powers of ten.

proof fn lemma_first_char(s: Seq<char>, c: char, i: int)
    requires
        0 <= i <= s.len(),
        forall|j: int| 0 <= j < i ==> s[j] != c,
        i < s.len() ==> s[i] == c,
    ensures
        first_char(s, c) == i,
    decreases i,
{
    if i > 0 {
        lemma_first_char(s.drop_first(), c, i - 1);
    }
}

proof fn lemma_exp_mark(s: Seq<char>, i: int)
    requires
        0 <= i <= s.len(),
        forall|j: int| 0 <= j < i ==> !is_exp_mark(s[j]),
        i < s.len() ==> is_exp_mark(s[i]),
    ensures
        exp_mark(s) == i,
    decreases i,
{
    if i > 0 {
        lemma_exp_mark(s.drop_first(), i - 1);
    }
}

proof fn lemma_digits_step(s: Seq<char>, k: int)
    requires
        0 <= k < s.len(),
    ensures
        digits_val(s.take(k + 1)) == digits_val(s.take(k)) * 10 + (s[k] as int - '0' as int),
{
    assert(s.take(k + 1).drop_last() =~= s.take(k));
}

proof fn lemma_pow10_pos(a: nat)
    ensures
        pow10(a) >= 1,
    decreases a,
{
    if a > 0 {
        lemma_pow10_pos((a - 1) as nat);
    }
}

proof fn lemma_pow10_mono(a: nat, b: nat)
    requires
        a <= b,
    ensures
        pow10(a) <= pow10(b),
    decreases b,
{
    if a < b {
        lemma_pow10_mono(a, (b - 1) as nat);
    }
    lemma_pow10_pos(a);
}

proof fn lemma_pow10_values()
    ensures
        pow10(12) == 1_000_000_000_000,
        pow10(13) == 10_000_000_000_000,
{
    reveal_with_fuel(pow10, 14);
}

proof fn lemma_digits_bound(s: Seq<char>)
    requires
        all_digits(s),
    ensures
        0 <= digits_val(s) < pow10(s.len()),
    decreases s.len(),
{
    if s.len() > 0 {
        lemma_digits_bound(s.drop_last());
        assert(is_digit(s[s.len() - 1]));
    }
}

/// The value of `a` followed by `b`.
proof fn lemma_digits_concat(a: Seq<char>, b: Seq<char>)
    ensures
        digits_val(a + b) == digits_val(a) * pow10(b.len()) + digits_val(b),
    decreases b.len(),
{
    if b.len() == 0 {
        assert(a + b =~= a);
    } else {
        lemma_digits_concat(a, b.drop_last());
        assert((a + b).drop_last() =~= a + b.drop_last());
        let x = digits_val(a);
        let y = pow10((b.len() - 1) as nat);
        let z = digits_val(b.drop_last());
        assert((x * y + z) * 10 == x * (10 * y) + z * 10) by (nonlinear_arith);
    }
}

/// A string of digits is worth nothing exactly when it is all zeros.
proof fn lemma_digits_zero(s: Seq<char>)
    requires
        all_digits(s),
    ensures
        digits_val(s) == 0 <==> all_zeros(s),
    decreases s.len(),
{
    if s.len() > 0 {
        let t = s.drop_last();
        lemma_digits_zero(t);
        lemma_digits_bound(t);
        assert(is_digit(s[s.len() - 1]));
        if all_zeros(s) {
            assert forall|i: int| 0 <= i < t.len() implies #[trigger] t[i] == '0' by {
                assert(t[i] == s[i]);
            }
        }
        if digits_val(s) == 0 {
            assert forall|i: int| 0 <= i < s.len() implies #[trigger] s[i] == '0' by {
                if i < t.len() {
                    assert(t[i] == s[i]);
                }
            }
        }
    }
}


// ---------------------------------------------------------------------------------------------
// Reading a number.

/// Magnitudes from this many millionths on lie beyond every range read here.
pub const MICROS_CAP: u64 = 1_000_000_000_000;

/// Exponents from this size on put every nonzero number beyond every range read here, or
/// below one millionth.
pub const EXP_CAP: u128 = 1_180_591_620_717_411_303_424;

fn is_digit_char(c: char) -> (r: bool)
    ensures
        r == is_digit(c),
{
    '0' <= c && c <= '9'
}

/// The first position in `t[from..to]` holding an exponent mark (`to` when there is none).
fn scan_exp_mark(t: &Vec<char>, from: usize, to: usize) -> (e: usize)
    requires
        from <= to <= t@.len(),
    ensures
        from <= e <= to,
        forall|j: int| from <= j < e ==> !is_exp_mark(#[trigger] t@[j]),
        e < to ==> is_exp_mark(t@[e as int]),
{
    let mut e = from;
    while e < to && t[e] != 'e' && t[e] != 'E'
        invariant
            from <= e <= to <= t@.len(),
            forall|j: int| from <= j < e ==> !is_exp_mark(#[trigger] t@[j]),
        decreases to - e,
    {
        e += 1;
    }
    e
}

/// The first position in `t[from..to]` holding `.` (`to` when there is none).
fn scan_dot(t: &Vec<char>, from: usize, to: usize) -> (d: usize)
    requires
        from <= to <= t@.len(),
    ensures
        from <= d <= to,
        forall|j: int| from <= j < d ==> #[trigger] t@[j] != '.',
        d < to ==> t@[d as int] == '.',
{
    let mut d = from;
    while d < to && t[d] != '.'
        invariant
            from <= d <= to <= t@.len(),
            forall|j: int| from <= j < d ==> #[trigger] t@[j] != '.',
        decreases to - d,
    {
        d += 1;
    }
    d
}

/// Appends `t[from..to]` to `out` when it is all digits; tells whether it is.
fn push_digits(t: &Vec<char>, from: usize, to: usize, out: &mut Vec<char>) -> (r: bool)
    requires
        from <= to <= t@.len(),
    ensures
        r == all_digits(t@.subrange(from as int, to as int)),
        r ==> final(out)@ == old(out)@ + t@.subrange(from as int, to as int),
{
    let ghost seg = t@.subrange(from as int, to as int);
    let ghost base = out@;
    let mut j = from;
    while j < to
        invariant
            from <= j <= to <= t@.len(),
            seg == t@.subrange(from as int, to as int),
            all_digits(seg.take(j - from)),
            out@ == base + seg.take(j - from),
        decreases to - j,
    {
        let c = t[j];
        if !is_digit_char(c) {
            proof {
                assert(seg[j - from] == c);
            }
            return false;
        }
        out.push(c);
        proof {
            assert(seg[j - from] == c);
            assert(seg.take(j - from + 1) =~= seg.take(j - from).push(c));
        }
        j += 1;
    }
    proof {
        assert(seg.take(to - from) =~= seg);
    }
    true
}

/// The value of the first `n` digits of `d`, up to `MICROS_CAP`.
fn capped_value(d: &Vec<char>, n: usize) -> (v: u64)
    requires
        all_digits(d@),
        n <= d@.len(),
    ensures
        v == (if digits_val(d@.take(n as int)) < MICROS_CAP {
            digits_val(d@.take(n as int))
        } else {
            MICROS_CAP as int
        }),
{
    let mut v: u64 = 0;
    let mut j: usize = 0;
    while j < n
        invariant
            all_digits(d@),
            n <= d@.len(),
            j <= n,
            v == (if digits_val(d@.take(j as int)) < MICROS_CAP {
                digits_val(d@.take(j as int))
            } else {
                MICROS_CAP as int
            }),
        decreases n - j,
    {
        let c = d[j];
        proof {
            lemma_digits_step(d@, j as int);
            lemma_digits_bound(d@.take(j as int));
            assert(is_digit(d@[j as int]));
        }
        if v < MICROS_CAP {
            let next = v * 10 + (c as u64 - '0' as u64);
            v = if next < MICROS_CAP { next } else { MICROS_CAP };
        }
        j += 1;
    }
    v
}

/// Whether the digits of `d` from `k` on are all zeros.
fn zeros_from(d: &Vec<char>, k: usize) -> (r: bool)
    requires
        k <= d@.len(),
    ensures
        r == all_zeros(d@.skip(k as int)),
{
    let mut j = k;
    while j < d.len()
        invariant
            k <= j <= d@.len(),
            forall|i: int| k <= i < j ==> #[trigger] d@[i] == '0',
        decreases d@.len() - j,
    {
        if d[j] != '0' {
            proof {
                assert(d@.skip(k as int)[j - k] == d@[j as int]);
            }
            return false;
        }
        j += 1;
    }
    proof {
        assert forall|i: int| 0 <= i < d@.skip(k as int).len() implies #[trigger] d@.skip(
            k as int,
        )[i] == '0' by {
            assert(d@.skip(k as int)[i] == d@[i + k]);
        }
    }
    true
}

/// The value of the digits `t[from..to]`, up to `EXP_CAP`; `None` when they are not all
/// digits or there are none.
fn capped_exponent(t: &Vec<char>, from: usize, to: usize) -> (r: Option<u128>)
    requires
        from <= to <= t@.len(),
    ensures
        ({
            let ds = t@.subrange(from as int, to as int);
            match r {
                Some(v) => ds.len() > 0 && all_digits(ds) && v == (if digits_val(ds) < EXP_CAP {
                    digits_val(ds)
                } else {
                    EXP_CAP as int
                }),
                None => !(ds.len() > 0 && all_digits(ds)),
            }
        }),
{
    let ghost ds = t@.subrange(from as int, to as int);
    if from == to {
        return None;
    }
    let mut v: u128 = 0;
    let mut j = from;
    while j < to
        invariant
            from <= j <= to <= t@.len(),
            ds == t@.subrange(from as int, to as int),
            all_digits(ds.take(j - from)),
            v == (if digits_val(ds.take(j - from)) < EXP_CAP {
                digits_val(ds.take(j - from))
            } else {
                EXP_CAP as int
            }),
        decreases to - j,
    {
        let c = t[j];
        proof {
            assert(ds[j - from] == c);
        }
        if !is_digit_char(c) {
            return None;
        }
        proof {
            lemma_digits_step(ds, j - from);
            lemma_digits_bound(ds.take(j - from));
            assert(ds.take(j - from + 1) =~= ds.take(j - from).push(c));
        }
        if v < EXP_CAP {
            let next = v * 10 + (c as u128 - '0' as u128);
            v = if next < EXP_CAP { next } else { EXP_CAP };
        }
        j += 1;
    }
    proof {
        assert(ds.take(to - from) =~= ds);
    }
    Some(v)
}


/// The magnitude of a nonzero number times `10^q` lies beyond every range read here once
/// `q >= 13`.
proof fn lemma_big_magnitude(d: int, q: nat)
    requires
        d >= 1,
        q >= 13,
    ensures
        d * pow10(q) >= 10_000_000_000_000,
{
    lemma_pow10_mono(13, q);
    lemma_pow10_values();
    assert(d * pow10(q) >= pow10(q)) by (nonlinear_arith)
        requires
            d >= 1,
            pow10(q) >= 1,
    ;
}

/// Dividing by a power of ten at least as large as the number leaves nothing, with the
/// number as remainder.
proof fn lemma_small_quotient(d: int, l: nat, n: nat)
    requires
        0 <= d < pow10(l),
        l <= n,
    ensures
        d / pow10(n) == 0,
        d % pow10(n) == d,
{
    lemma_pow10_mono(l, n);
    lemma_fundamental_div_mod_converse(d, pow10(n), 0, d);
}


/// The parts of a decimal number as written.
struct DecimalParts {
    pub negative: bool,
    /// The digits before and after the point.
    pub digits: Vec<char>,
    /// How many of them come after the point.
    pub frac_len: usize,
    pub exp_negative: bool,
    /// The size of the exponent, up to `EXP_CAP`.
    pub exp_abs: u128,
}

/// Where the parts of `t[from..to]` start and end: the digits after the sign at `start`, the
/// exponent mark at `e` (`to` without one), the point at `dot` (`e` without one).
fn split_number(t: &Vec<char>, from: usize, to: usize) -> (r: (usize, usize, usize, bool))
    requires
        from <= to <= t@.len(),
    ensures
        ({
            let s = t@.subrange(from as int, to as int);
            let (start, e, dot, negative) = r;
            &&& from <= start <= dot <= e <= to
            &&& negative == is_negative(s)
            &&& unsigned_part(s) == t@.subrange(start as int, to as int)
            &&& exp_mark(unsigned_part(s)) == e - start
            &&& int_digits(s) == t@.subrange(start as int, dot as int)
            &&& frac_digits(s) == (if dot < e {
                t@.subrange(dot + 1, e as int)
            } else {
                Seq::<char>::empty()
            })
        }),
{
    let ghost s = t@.subrange(from as int, to as int);
    let mut start = from;
    let mut negative = false;
    if start < to && (t[start] == '-' || t[start] == '+') {
        negative = t[start] == '-';
        start += 1;
    }
    let ghost u = t@.subrange(start as int, to as int);
    proof {
        assert(sign_len(s) == start - from);
        assert(is_negative(s) == negative);
        assert(unsigned_part(s) =~= u);
    }
    let e = scan_exp_mark(t, start, to);
    proof {
        assert forall|j: int| 0 <= j < e - start implies !is_exp_mark(#[trigger] u[j]) by {
            assert(u[j] == t@[j + start]);
        }
        if e < to {
            assert(u[e - start] == t@[e as int]);
        }
        lemma_exp_mark(u, e - start);
    }
    let ghost mant = t@.subrange(start as int, e as int);
    proof {
        assert(mantissa(s) =~= mant);
    }
    let dot = scan_dot(t, start, e);
    proof {
        assert forall|j: int| 0 <= j < dot - start implies #[trigger] mant[j] != '.' by {
            assert(mant[j] == t@[j + start]);
        }
        if dot < e {
            assert(mant[dot - start] == t@[dot as int]);
        }
        lemma_first_char(mant, '.', dot - start);
        assert(int_digits(s) =~= t@.subrange(start as int, dot as int));
        if dot < e {
            assert(frac_digits(s) =~= t@.subrange(dot + 1, e as int));
        } else {
            assert(frac_digits(s) =~= Seq::<char>::empty());
        }
    }
    (start, e, dot, negative)
}

/// Splits `t[from..to]` into its parts; `None` when it is not a decimal number.
fn read_parts(t: &Vec<char>, from: usize, to: usize) -> (r: Option<DecimalParts>)
    requires
        from <= to <= t@.len(),
    ensures
        ({
            let s = t@.subrange(from as int, to as int);
            let well_formed = int_digits(s).len() > 0 && all_digits(int_digits(s)) && all_digits(
                frac_digits(s),
            ) && exponent(s) is Some;
            match r {
                None => !well_formed,
                Some(p) => {
                    &&& well_formed
                    &&& p.negative == is_negative(s)
                    &&& p.digits@ == int_digits(s) + frac_digits(s)
                    &&& all_digits(p.digits@)
                    &&& p.digits@.len() <= t@.len()
                    &&& p.frac_len == frac_digits(s).len()
                    &&& p.exp_abs <= EXP_CAP
                    &&& (p.exp_abs < EXP_CAP ==> exponent(s) == Some(
                        if p.exp_negative {
                            -(p.exp_abs as int)
                        } else {
                            p.exp_abs as int
                        },
                    ))
                    &&& (p.exp_abs == EXP_CAP ==> if p.exp_negative {
                        exponent(s)->Some_0 <= -(EXP_CAP as int)
                    } else {
                        exponent(s)->Some_0 >= EXP_CAP
                    })
                },
            }
        }),
{
    let ghost s = t@.subrange(from as int, to as int);
    let (start, e, dot, negative) = split_number(t, from, to);
    let ghost u = t@.subrange(start as int, to as int);
    let ghost ip = int_digits(s);
    let ghost fp = frac_digits(s);
    if dot == start {
        return None;
    }
    let mut digits: Vec<char> = Vec::new();
    if !push_digits(t, start, dot, &mut digits) {
        return None;
    }
    let frac_end = if dot < e { dot + 1 } else { e };
    proof {
        assert(t@.subrange(frac_end as int, e as int) =~= fp);
    }
    if !push_digits(t, frac_end, e, &mut digits) {
        return None;
    }
    let frac_len: usize = e - frac_end;
    proof {
        assert(digits@ =~= ip + fp);
        assert forall|i: int| 0 <= i < digits@.len() implies is_digit(#[trigger] digits@[i]) by {
            if i < ip.len() {
                assert(digits@[i] == ip[i]);
            } else {
                assert(digits@[i] == fp[i - ip.len()]);
            }
        }
    }
    let mut exp_negative = false;
    let mut exp_abs: u128 = 0;
    if e < to {
        let mut k = e + 1;
        if k < to && (t[k] == '-' || t[k] == '+') {
            exp_negative = t[k] == '-';
            k += 1;
        }
        let ghost x = t@.subrange(e + 1, to as int);
        proof {
            assert(u.skip(e - start + 1) =~= x);
            assert(sign_len(x) == k - e - 1);
            assert(is_negative(x) == exp_negative);
            assert(x.skip(sign_len(x)) =~= t@.subrange(k as int, to as int));
        }
        match capped_exponent(t, k, to) {
            Some(v) => {
                exp_abs = v;
            },
            None => {
                return None;
            },
        }
    }
    Some(DecimalParts { negative, digits, frac_len, exp_negative, exp_abs })
}


/// The exponent that the parts record, exactly when it is below the cap.
spec fn exponent_of(p: DecimalParts, ex: int) -> bool {
    &&& p.exp_abs <= EXP_CAP
    &&& (p.exp_abs < EXP_CAP ==> ex == if p.exp_negative {
        -(p.exp_abs as int)
    } else {
        p.exp_abs as int
    })
    &&& (p.exp_abs == EXP_CAP ==> if p.exp_negative {
        ex <= -(EXP_CAP as int)
    } else {
        ex >= EXP_CAP
    })
}

/// The magnitude in millionths of the number with parts `p` and exponent `ex` (see
/// [`scaled`]) and whether it is exact; `None` when it is `MICROS_CAP` or more.
fn magnitude(p: &DecimalParts, Ghost(ex): Ghost<int>) -> (r: Option<(u64, bool)>)
    requires
        all_digits(p.digits@),
        p.frac_len <= p.digits@.len() <= usize::MAX,
        exponent_of(*p, ex),
    ensures
        ({
            let (tm, te) = scaled(digits_val(p.digits@), ex - p.frac_len + 6);
            match r {
                Some((m, e)) => tm == m && te == e,
                None => tm >= MICROS_CAP,
            }
        }),
{
    let ghost dd = p.digits@;
    let ghost d = digits_val(dd);
    let ghost q: int = ex - p.frac_len + 6;
    let len = p.digits.len();
    let dzero = zeros_from(&p.digits, 0);
    proof {
        assert(dd.skip(0) =~= dd);
        lemma_digits_zero(dd);
        lemma_digits_bound(dd);
    }
    if dzero {
        proof {
            if q >= 0 {
                assert(d * pow10(q as nat) == 0);
            } else {
                lemma_pow10_pos((-q) as nat);
                lemma_fundamental_div_mod_converse(0, pow10((-q) as nat), 0, 0);
            }
        }
        return Some((0, true));
    }
    if p.exp_abs == EXP_CAP {
        if !p.exp_negative {
            proof {
                lemma_big_magnitude(d, q as nat);
                lemma_pow10_values();
            }
            return None;
        }
        proof {
            lemma_small_quotient(d, len as nat, (-q) as nat);
        }
        return Some((0, false));
    }
    let ev: i128 = if p.exp_negative { -(p.exp_abs as i128) } else { p.exp_abs as i128 };
    let qq: i128 = ev - p.frac_len as i128 + 6;
    assert(qq == q);
    if qq >= 0 {
        if qq > 12 {
            proof {
                lemma_big_magnitude(d, q as nat);
                lemma_pow10_values();
            }
            return None;
        }
        let dv = capped_value(&p.digits, len);
        proof {
            assert(dd.take(len as int) =~= dd);
            lemma_pow10_pos(q as nat);
        }
        if dv >= MICROS_CAP {
            proof {
                assert(d * pow10(q as nat) >= d) by (nonlinear_arith)
                    requires
                        d >= 0,
                        pow10(q as nat) >= 1,
                ;
            }
            return None;
        }
        let mut pw: u64 = 1;
        let mut i: i128 = 0;
        while i < qq
            invariant
                0 <= i <= qq <= 12,
                pw == pow10(i as nat),
            decreases qq - i,
        {
            proof {
                lemma_pow10_mono(i as nat, 11);
                reveal_with_fuel(pow10, 13);
            }
            pw = pw * 10;
            i += 1;
        }
        proof {
            lemma_pow10_mono(q as nat, 12);
            lemma_pow10_values();
        }
        proof {
            assert(dv * pw <= 1_000_000_000_000 * 1_000_000_000_000) by (nonlinear_arith)
                requires
                    dv <= 1_000_000_000_000,
                    pw <= 1_000_000_000_000,
            ;
        }
        let prod: u128 = dv as u128 * pw as u128;
        if prod >= MICROS_CAP as u128 {
            return None;
        }
        return Some((prod as u64, true));
    }
    let k: i128 = len as i128 + qq;
    if k <= 0 {
        proof {
            lemma_small_quotient(d, len as nat, (-q) as nat);
        }
        return Some((0, false));
    }
    let ku = k as usize;
    let av = capped_value(&p.digits, ku);
    let exact = zeros_from(&p.digits, ku);
    proof {
        let a = dd.take(k as int);
        let b = dd.skip(k as int);
        assert(dd =~= a + b);
        lemma_digits_concat(a, b);
        assert forall|i: int| 0 <= i < b.len() implies is_digit(#[trigger] b[i]) by {
            assert(b[i] == dd[i + k]);
        }
        lemma_digits_bound(b);
        lemma_digits_zero(b);
        assert(b.len() == -q);
        lemma_fundamental_div_mod_converse(d, pow10((-q) as nat), digits_val(a), digits_val(b));
    }
    if av >= MICROS_CAP {
        return None;
    }
    Some((av, exact))
}


/// The number `t[from..to]` in millionths (truncated toward zero), when it is a decimal number
/// that lies in `[lo, hi]` (see [`decimal_in_range`]).
pub fn decimal_value(t: &Vec<char>, from: usize, to: usize, lo: i64, hi: i64) -> (r: Option<i64>)
    requires
        from <= to <= t@.len(),
        0 <= lo <= hi <= 60_000,
    ensures
        match decimal_in_range(t@.subrange(from as int, to as int), lo as int, hi as int) {
            Some(m) => r == Some(m as i64),
            None => r is None,
        },
{
    let ghost s = t@.subrange(from as int, to as int);
    let parts = match read_parts(t, from, to) {
        Some(p) => p,
        None => {
            return None;
        },
    };
    let ghost ex = exponent(s)->Some_0;
    let n = parts.digits.len();
    proof {
        assert(parts.digits@.len() == int_digits(s).len() + frac_digits(s).len());
        assert(parts.frac_len <= n);
    }
    let (mag, exact) = match magnitude(&parts, Ghost(ex)) {
        Some(me) => me,
        None => {
            return None;
        },
    };
    let m: i128 = if parts.negative { -(mag as i128) } else { mag as i128 };
    let lo_m = lo as i128 * 1_000_000;
    let hi_m = hi as i128 * 1_000_000;
    if lo_m <= m && m <= hi_m && !(m == hi_m && !exact && !parts.negative) && !(m == lo_m
        && !exact && parts.negative) {
        Some(m as i64)
    } else {
        None
    }
}

} // verus!
