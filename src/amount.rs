//! Conversion of a human-written decimal quantity into integer base units.

use vstd::prelude::*;
use vstd::arithmetic::div_mod::lemma_fundamental_div_mod_converse;

verus! {

/// `c` is one of the ASCII digits `0` to `9`.
pub open spec fn is_digit(c: char) -> bool {
    48 <= (c as u32) && (c as u32) <= 57
}

/// The number that the ASCII digit `c` stands for.
pub open spec fn digit_value(c: char) -> nat {
    ((c as u32) as int - 48) as nat
}

pub open spec fn all_digits(s: Seq<char>) -> bool {
    forall|i: int| 0 <= i < s.len() ==> is_digit(#[trigger] s[i])
}

/// The number written by the digit string `s`, most significant digit first.
pub open spec fn digits_value(s: Seq<char>) -> nat
    decreases s.len(),
{
    if s.len() == 0 {
        0
    } else {
        digits_value(s.drop_last()) * 10 + digit_value(s.last())
    }
}

pub open spec fn pow10(n: nat) -> nat
    decreases n,
{
    if n == 0 {
        1
    } else {
        10 * pow10((n - 1) as nat)
    }
}

/// `s` has its decimal point at `p`, with digits on both sides of it.
pub open spec fn point_at(s: Seq<char>, p: int) -> bool {
    &&& 0 < p < s.len() - 1
    &&& s[p] == '.'
    &&& all_digits(s.take(p))
    &&& all_digits(s.skip(p + 1))
}

/// `s` is a plain non-negative decimal numeral: digits, optionally followed
/// by a point and more digits (`1000000`, `1000000.0`, `0.25`).
pub open spec fn is_decimal(s: Seq<char>) -> bool {
    (s.len() > 0 && all_digits(s)) || exists|p: int| point_at(s, p)
}

/// Where the decimal point of `s` stands; the length of `s` if it has none.
pub open spec fn point_of(s: Seq<char>) -> int {
    if exists|p: int| point_at(s, p) {
        choose|p: int| point_at(s, p)
    } else {
        s.len() as int
    }
}

/// All the digits of the numeral `s`, the point left out.
pub open spec fn mantissa(s: Seq<char>) -> Seq<char> {
    let p = point_of(s);
    if p < s.len() {
        s.take(p) + s.skip(p + 1)
    } else {
        s
    }
}

/// How many digits of `s` stand after its decimal point.
pub open spec fn fraction_len(s: Seq<char>) -> nat {
    let p = point_of(s);
    if p < s.len() {
        (s.len() - p - 1) as nat
    } else {
        0
    }
}

/// `round(m / 10^k * 10^scale)`, a half rounded away from zero.
pub open spec fn rounded_scaled(m: nat, k: nat, scale: nat) -> nat {
    (((2 * m * pow10(scale) + pow10(k)) as int) / ((2 * pow10(k)) as int)) as nat
}

/// The value of the decimal numeral `s` in units of `10^-scale`, rounded to
/// the nearest integer, halves away from zero.
pub open spec fn base_units(s: Seq<char>, scale: nat) -> nat {
    rounded_scaled(digits_value(mantissa(s)), fraction_len(s), scale)
}

pub open spec fn starts_negative(s: Seq<char>) -> bool {
    s.len() > 0 && s[0] == '-'
}

/// What converting `s` at `scale` gives: the base units, or the error.
pub open spec fn conversion(s: Seq<char>, scale: nat) -> Result<nat, AmountError> {
    if starts_negative(s) {
        Err(AmountError::Negative)
    } else if !is_decimal(s) {
        Err(AmountError::Malformed)
    } else if base_units(s, scale) > u64::MAX {
        Err(AmountError::TooLarge)
    } else {
        Ok(base_units(s, scale))
    }
}

/// Why a quantity could not be converted.
#[derive(Debug, Clone, Copy, PartialEq, Eq, Structural)]
pub enum AmountError {
    /// The quantity starts with a minus sign.
    Negative,
    /// The quantity is not a finite decimal numeral (this covers `inf` and `NaN`).
    Malformed,
    /// The converted value does not fit in 64 bits.
    TooLarge,
}

pub proof fn lemma_pow10_positive(n: nat)
    ensures
        pow10(n) >= 1,
    decreases n,
{
    if n > 0 {
        lemma_pow10_positive((n - 1) as nat);
    }
}

pub proof fn lemma_pow10_add(a: nat, b: nat)
    ensures
        pow10(a + b) == pow10(a) * pow10(b),
    decreases b,
{
    if b > 0 {
        lemma_pow10_add(a, (b - 1) as nat);
        assert((a + b - 1) as nat == a + (b - 1) as nat);
        assert(pow10(a + b) == 10 * pow10((a + b - 1) as nat));
        assert(pow10(a + b) == 10 * (pow10(a) * pow10((b - 1) as nat)));
        assert(pow10(a) * pow10(b) == pow10(a) * (10 * pow10((b - 1) as nat)));
        assert(pow10(a) * (10 * pow10((b - 1) as nat)) == 10 * (pow10(a) * pow10((b - 1) as nat)))
            by (nonlinear_arith);
    } else {
        assert(a + b == a);
        assert(pow10(b) == 1);
        assert(pow10(a) * 1 == pow10(a));
    }
}

pub proof fn lemma_digits_value_bound(s: Seq<char>)
    requires
        all_digits(s),
    ensures
        digits_value(s) < pow10(s.len()),
    decreases s.len(),
{
    if s.len() > 0 {
        let d = s.drop_last();
        assert(all_digits(d)) by {
            assert forall|i: int| 0 <= i < d.len() implies is_digit(#[trigger] d[i]) by {
                assert(d[i] == s[i]);
            }
        }
        lemma_digits_value_bound(d);
        assert(is_digit(s[s.len() - 1]));
        let v = digits_value(d);
        let p = pow10(d.len());
        assert(digit_value(s.last()) <= 9);
        assert(v * 10 + digit_value(s.last()) < 10 * p) by (nonlinear_arith)
            requires
                v < p,
                digit_value(s.last()) <= 9,
        ;
    }
}

pub proof fn lemma_digits_value_concat(a: Seq<char>, b: Seq<char>)
    ensures
        digits_value(a + b) == digits_value(a) * pow10(b.len()) + digits_value(b),
    decreases b.len(),
{
    if b.len() == 0 {
        assert(a + b =~= a);
        assert(pow10(0) == 1);
        assert(digits_value(a) * 1 == digits_value(a));
    } else {
        let b0 = b.drop_last();
        assert((a + b).drop_last() =~= a + b0);
        assert((a + b).last() == b.last());
        lemma_digits_value_concat(a, b0);
        let va = digits_value(a);
        let p = pow10(b0.len());
        let d = digit_value(b.last());
        assert(pow10(b.len()) == 10 * p);
        assert(digits_value(a + b) == digits_value(a + b0) * 10 + d);
        assert(digits_value(b) == digits_value(b0) * 10 + d);
        assert((va * p + digits_value(b0)) * 10 == va * (10 * p) + digits_value(b0) * 10)
            by (nonlinear_arith);
        assert(digits_value(a + b) == (va * p + digits_value(b0)) * 10 + d);
    }
}

/// A prefix of a digit string never writes a larger number.
pub proof fn lemma_prefix_value(s: Seq<char>, j: int)
    requires
        0 <= j <= s.len(),
    ensures
        digits_value(s.take(j)) <= digits_value(s),
{
    assert(s =~= s.take(j) + s.skip(j));
    lemma_digits_value_concat(s.take(j), s.skip(j));
    lemma_pow10_positive(s.skip(j).len());
    let v = digits_value(s.take(j));
    let p = pow10(s.skip(j).len());
    assert(v * p >= v) by (nonlinear_arith)
        requires
            p >= 1,
    ;
}

/// With no more fractional digits than the scale, nothing is rounded.
pub proof fn lemma_rounded_exact(m: nat, k: nat, scale: nat)
    requires
        k <= scale,
    ensures
        rounded_scaled(m, k, scale) == m * pow10((scale - k) as nat),
{
    let e = pow10((scale - k) as nat);
    let pk = pow10(k);
    lemma_pow10_add((scale - k) as nat, k);
    assert((scale - k) as nat + k == scale);
    lemma_pow10_positive(k);
    let x = 2 * m * pow10(scale) + pk;
    assert(x == (m * e) * (2 * pk) + pk) by (nonlinear_arith)
        requires
            x == 2 * m * pow10(scale) + pk,
            pow10(scale) == e * pk,
    ;
    lemma_fundamental_div_mod_converse(x as int, (2 * pk) as int, (m * e) as int, pk as int);
}

/// With more fractional digits than the scale, the digits beyond the scale
/// are dropped, and the first of them rounds up when it is 5 or more.
pub proof fn lemma_rounded_cut(m: Seq<char>, k: nat, scale: nat)
    requires
        all_digits(m),
        scale < k <= m.len(),
    ensures
        ({
            let cut = m.len() - k + scale;
            rounded_scaled(digits_value(m), k, scale) == digits_value(m.take(cut)) + if digit_value(
                m[cut],
            ) >= 5 {
                1nat
            } else {
                0nat
            }
        }),
{
    let cut = m.len() - k + scale;
    let t = (k - scale) as nat;
    let head = m.take(cut);
    let tail = m.skip(cut);
    assert(m =~= head + tail);
    lemma_digits_value_concat(head, tail);
    assert(tail.len() == t);
    let rest = tail.skip(1);
    assert(tail =~= seq![tail[0]] + rest);
    lemma_digits_value_concat(seq![tail[0]], rest);
    assert(seq![tail[0]].drop_last() =~= Seq::<char>::empty());
    assert(seq![tail[0]].last() == tail[0]);
    assert(digits_value(Seq::<char>::empty()) == 0);
    assert(digits_value(seq![tail[0]]) == digit_value(tail[0]));
    assert(all_digits(tail)) by {
        assert forall|i: int| 0 <= i < tail.len() implies is_digit(#[trigger] tail[i]) by {
            assert(tail[i] == m[cut + i]);
        }
    }
    lemma_digits_value_bound(tail);
    assert(all_digits(rest)) by {
        assert forall|i: int| 0 <= i < rest.len() implies is_digit(#[trigger] rest[i]) by {
            assert(rest[i] == m[cut + 1 + i]);
        }
    }
    lemma_digits_value_bound(rest);
    assert(is_digit(m[cut]));
    let r = (t - 1) as nat;
    let pr = pow10(r);
    let pt = pow10(t);
    assert(pt == 10 * pr);
    let ps = pow10(scale);
    lemma_pow10_add(t, scale);
    assert(t + scale == k);
    lemma_pow10_positive(r);
    lemma_pow10_positive(scale);
    let a = digits_value(head);
    let d = digit_value(tail[0]);
    let rv = digits_value(rest);
    let tv = digits_value(tail);
    assert(tv == d * pr + rv);
    assert(d <= 9);
    let c: nat = if d >= 5 { 1 } else { 0 };
    let x = 2 * digits_value(m) * ps + pow10(k);
    assert(digits_value(m) == a * pt + tv);
    assert(pow10(k) == pt * ps);
    assert(2 * tv >= pt <==> d >= 5) by (nonlinear_arith)
        requires
            tv == d * pr + rv,
            rv < pr,
            pt == 10 * pr,
            d <= 9,
    ;
    let rm = x - (a + c) * (2 * pow10(k));
    assert(0 <= rm < 2 * pow10(k) && x == (a + c) * (2 * pow10(k)) + rm) by (nonlinear_arith)
        requires
            x == 2 * (a * pt + tv) * ps + pt * ps,
            pow10(k) == pt * ps,
            rm == x - (a + c) * (2 * pow10(k)),
            ps >= 1,
            tv < pt,
            (c == 1 && 2 * tv >= pt) || (c == 0 && 2 * tv < pt),
    ;
    lemma_fundamental_div_mod_converse(x as int, (2 * pow10(k)) as int, (a + c) as int, rm as int);
}

/// A numeral whose first point is at `p` has its point nowhere else.
proof fn lemma_point_unique(s: Seq<char>, p: int)
    requires
        0 <= p < s.len(),
        s[p] == '.',
        forall|i: int| 0 <= i < p ==> s[i] != '.',
    ensures
        forall|q: int| point_at(s, q) ==> q == p,
{
    assert forall|q: int| point_at(s, q) implies q == p by {
        if q > p {
            assert(s.take(q)[p] == '.');
            assert(!is_digit(s.take(q)[p]));
        }
    }
}

fn char_is_digit(c: char) -> (r: bool)
    ensures
        r == is_digit(c),
{
    let v = c as u32;
    48 <= v && v <= 57
}

/// Finds the decimal point of `quantity` (its length where it has none), or
/// says why `quantity` is no plain non-negative decimal numeral.
fn locate_point(quantity: &str) -> (r: Result<usize, AmountError>)
    ensures
        match r {
            Ok(p) => is_decimal(quantity@) && point_of(quantity@) == p && p <= quantity@.len(),
            Err(AmountError::Negative) => starts_negative(quantity@),
            Err(AmountError::Malformed) => !is_decimal(quantity@) && !starts_negative(quantity@),
            Err(AmountError::TooLarge) => false,
        },
{
    let ghost s = quantity@;
    let n = quantity.unicode_len();
    if n > 0 && quantity.get_char(0) == '-' {
        return Err(AmountError::Negative);
    }
    assert(!starts_negative(s));
    let mut p: usize = 0;
    while p < n && quantity.get_char(p) != '.'
        invariant
            p <= n,
            n == s.len(),
            s == quantity@,
            forall|i: int| 0 <= i < p ==> s[i] != '.',
        decreases n - p,
    {
        p = p + 1;
    }
    proof {
        if p < n {
            lemma_point_unique(s, p as int);
        }
    }
    let mut i: usize = 0;
    while i < n
        invariant
            i <= n,
            p <= n,
            n == s.len(),
            s == quantity@,
            forall|j: int| 0 <= j < i && j != p ==> is_digit(#[trigger] s[j]),
            forall|x: int| 0 <= x < p ==> s[x] != '.',
            p < n ==> s[p as int] == '.',
            p < n ==> forall|q: int| point_at(s, q) ==> q == p,
            !starts_negative(s),
        decreases n - i,
    {
        if i != p && !char_is_digit(quantity.get_char(i)) {
            proof {
                assert(!is_digit(s[i as int]));
                assert(!(s.len() > 0 && all_digits(s)));
                assert forall|q: int| !point_at(s, q) by {
                    if point_at(s, q) {
                        if (i as int) < q {
                            assert(s.take(q)[i as int] == s[i as int]);
                        } else if (i as int) > q {
                            assert(s.skip(q + 1)[i - q - 1] == s[i as int]);
                        }
                    }
                }
            }
            return Err(AmountError::Malformed);
        }
        i = i + 1;
    }
    if n == 0 || p == 0 || (p < n && p == n - 1) {
        proof {
            assert forall|q: int| !point_at(s, q) by {
                if point_at(s, q) {
                    if p == 0 {
                        assert(s.take(q)[0] == '.');
                    }
                }
            }
            if n > 0 {
                assert(!is_digit(s[p as int]));
            }
        }
        return Err(AmountError::Malformed);
    }
    proof {
        if p < n {
            assert(all_digits(s.take(p as int))) by {
                assert forall|j: int| 0 <= j < p implies is_digit(#[trigger] s.take(p as int)[j]) by {
                    assert(s.take(p as int)[j] == s[j]);
                }
            }
            assert(all_digits(s.skip(p + 1))) by {
                assert forall|j: int| 0 <= j < s.skip(p + 1).len() implies is_digit(
                    #[trigger] s.skip(p + 1)[j],
                ) by {
                    assert(s.skip(p + 1)[j] == s[p + 1 + j]);
                }
            }
            assert(point_at(s, p as int));
        } else {
            assert(all_digits(s));
            assert forall|q: int| !point_at(s, q) by {
                if point_at(s, q) {
                    assert(s[q] == '.');
                }
            }
        }
    }
    Ok(p)
}

/// The numeral `quantity`, whose point stands at `p`, in base units.
fn scale_numeral(quantity: &str, p: usize, scale: u8) -> (r: Result<u64, AmountError>)
    requires
        is_decimal(quantity@),
        point_of(quantity@) == p,
        p <= quantity@.len(),
    ensures
        match r {
            Ok(v) => v as nat == base_units(quantity@, scale as nat),
            Err(AmountError::TooLarge) => base_units(quantity@, scale as nat) > u64::MAX,
            Err(_) => false,
        },
{
    let ghost s = quantity@;
    let n = quantity.unicode_len();
    proof {
        if p == n {
            assert(!(exists|q: int| point_at(s, q)));
            assert(all_digits(s));
        } else {
            assert(exists|q: int| point_at(s, q));
            assert(point_at(s, p as int));
        }
    }
    // the digits without the point, and how many of them stand after it
    let ghost m: Seq<char> = if p < n {
        s.take(p as int) + s.skip(p + 1)
    } else {
        s
    };
    let m_len: usize = if p < n {
        n - 1
    } else {
        n
    };
    let ghost k: nat = (m_len - p) as nat;
    proof {
        if p < n {
            assert(all_digits(s.take(p as int)));
            assert(all_digits(s.skip(p + 1)));
            assert forall|j: int| 0 <= j < m.len() implies is_digit(#[trigger] m[j]) by {
                if j < p {
                    assert(s.take(p as int)[j] == m[j]);
                } else {
                    assert(s.skip(p + 1)[j - p] == m[j]);
                }
            }
        }
        assert(mantissa(s) == m);
        assert(fraction_len(s) == k);
        assert forall|j: int| 0 <= j < m.len() implies #[trigger] m[j] == (if j < p {
            s[j]
        } else {
            s[j + 1]
        }) by {}
        assert(all_digits(m));
        assert(is_decimal(s));
    }
    let ghost total = base_units(s, scale as nat);
    // the digits that stand above 10^-scale
    let cut: usize = if m_len - p > scale as usize {
        p + scale as usize
    } else {
        m_len
    };
    proof {
        if k <= scale {
            lemma_rounded_exact(digits_value(m), k, scale as nat);
            lemma_pow10_positive((scale - k) as nat);
            assert(digits_value(m) <= total) by (nonlinear_arith)
                requires
                    total == digits_value(m) * pow10((scale - k) as nat),
                    pow10((scale - k) as nat) >= 1,
            ;
            assert(m.take(cut as int) =~= m);
        } else {
            lemma_rounded_cut(m, k, scale as nat);
        }
        assert(digits_value(m.take(cut as int)) <= total);
    }
    let mut acc: u64 = 0;
    let mut j: usize = 0;
    while j < cut
        invariant
            j <= cut <= m_len,
            m_len == m.len(),
            m_len == (if p < n {
                n - 1
            } else {
                n as int
            }),
            p <= n,
            n == s.len(),
            s == quantity@,
            all_digits(m),
            forall|x: int| 0 <= x < m.len() ==> #[trigger] m[x] == (if x < p {
                s[x]
            } else {
                s[x + 1]
            }),
            acc as nat == digits_value(m.take(j as int)),
            digits_value(m.take(cut as int)) <= total,
            total == base_units(s, scale as nat),
        decreases cut - j,
    {
        let c = if j < p {
            quantity.get_char(j)
        } else {
            quantity.get_char(j + 1)
        };
        assert(c == m[j as int]);
        assert(is_digit(c));
        let d: u64 = (c as u32 - 48) as u64;
        proof {
            assert(m.take(j + 1).drop_last() =~= m.take(j as int));
            assert(m.take(j + 1).last() == c);
            lemma_prefix_value(m.take(cut as int), j + 1);
            assert(m.take(cut as int).take(j + 1) =~= m.take(j + 1));
        }
        if acc > (u64::MAX - d) / 10 {
            proof {
                assert(acc * 10 + d > u64::MAX) by (nonlinear_arith)
                    requires
                        acc > (u64::MAX - d) / 10,
                        d <= 9,
                ;
                assert(digits_value(m.take(j + 1)) == acc * 10 + d);
                assert(total > u64::MAX);
            }
            return Err(AmountError::TooLarge);
        }
        acc = acc * 10 + d;
        j = j + 1;
    }
    assert(acc as nat == digits_value(m.take(cut as int)));
    if cut == m_len {
        // no digit is cut off: pad with zeros up to the scale
        assert(m.take(cut as int) =~= m);
        let pad: usize = scale as usize - (m_len - p);
        proof {
            lemma_rounded_exact(digits_value(m), k, scale as nat);
            assert(pad == (scale - k) as nat);
            assert(pow10(0) == 1);
            assert(digits_value(m) * 1 == digits_value(m));
        }
        let mut e: usize = 0;
        while e < pad
            invariant
                e <= pad,
                pad == (scale - k) as nat,
                acc as nat == digits_value(m) * pow10(e as nat),
                total == digits_value(m) * pow10(pad as nat),
                total == base_units(s, scale as nat),
                s == quantity@,
            decreases pad - e,
        {
            proof {
                lemma_pow10_add((e + 1) as nat, (pad - e - 1) as nat);
                lemma_pow10_positive((pad - e - 1) as nat);
                assert(pow10((e + 1) as nat) == 10 * pow10(e as nat));
                let next = digits_value(m) * pow10((e + 1) as nat);
                assert(next <= total) by (nonlinear_arith)
                    requires
                        total == digits_value(m) * (pow10((e + 1) as nat) * pow10(
                            (pad - e - 1) as nat,
                        )),
                        next == digits_value(m) * pow10((e + 1) as nat),
                        pow10((pad - e - 1) as nat) >= 1,
                ;
                assert(next == acc * 10) by (nonlinear_arith)
                    requires
                        next == digits_value(m) * pow10((e + 1) as nat),
                        acc == digits_value(m) * pow10(e as nat),
                        pow10((e + 1) as nat) == 10 * pow10(e as nat),
                ;
            }
            if acc > u64::MAX / 10 {
                assert(acc * 10 > u64::MAX) by (nonlinear_arith)
                    requires
                        acc > u64::MAX / 10,
                ;
                assert(total >= acc * 10);
                return Err(AmountError::TooLarge);
            }
            acc = acc * 10;
            e = e + 1;
        }
        Ok(acc)
    } else {
        // the first digit cut off decides the rounding
        let c = if cut < p {
            quantity.get_char(cut)
        } else {
            quantity.get_char(cut + 1)
        };
        assert(c == m[cut as int]);
        assert(cut == m.len() - k + scale);
        if c as u32 >= 53 {
            if acc == u64::MAX {
                return Err(AmountError::TooLarge);
            }
            Ok(acc + 1)
        } else {
            Ok(acc)
        }
    }
}


/// Converts the decimal quantity `quantity` to integer base units at `scale`
/// fractional digits: `round(quantity * 10^scale)`, a half rounded away from
/// zero. A negative quantity, one that is no finite decimal numeral, and one
/// whose value does not fit in 64 bits are each refused.
pub fn to_base_units(quantity: &str, scale: u8) -> (r: Result<u64, AmountError>)
    ensures
        match r {
            Ok(v) => is_decimal(quantity@) && v as nat == base_units(quantity@, scale as nat),
            Err(AmountError::Negative) => starts_negative(quantity@),
            Err(AmountError::Malformed) => !is_decimal(quantity@) && !starts_negative(quantity@),
            Err(AmountError::TooLarge) => is_decimal(quantity@) && base_units(quantity@, scale as nat)
                > u64::MAX,
        },
        match r {
            Ok(v) => conversion(quantity@, scale as nat) == Ok::<nat, AmountError>(v as nat),
            Err(e) => conversion(quantity@, scale as nat) == Err::<nat, AmountError>(e),
        },
{
    proof {
        if starts_negative(quantity@) {
            assert(!all_digits(quantity@));
            assert forall|q: int| !point_at(quantity@, q) by {
                if point_at(quantity@, q) {
                    assert(quantity@.take(q)[0] == '-');
                }
            }
        }
    }
    match locate_point(quantity) {
        Ok(p) => scale_numeral(quantity, p, scale),
        Err(e) => Err(e),
    }
}

} // verus!
