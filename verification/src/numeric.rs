//! Fixed-point decimal numbers.
//!
//! Every numeric value in the query engine is a signed decimal with nine
//! fractional digits, stored as a magnitude counted in units of 10^-9.
//! Arithmetic is exact up to that resolution; a result that does not fit
//! the representable range is reported as `None` rather than rounded.

use vstd::prelude::*;

verus! {

/// 10^9: the number of units that make up 1.0.
pub const UNIT: u64 = 1_000_000_000;

/// Exclusive bound (10^19) on a number's magnitude in units.
pub const MAG_LIMIT: u64 = 10_000_000_000_000_000_000;

/// Exclusive bound (10^10) on the integer part of a number.
pub const INT_LIMIT: u64 = 10_000_000_000;

/// 10^e.
pub open spec fn pow10(e: nat) -> int
    decreases e,
{
    if e == 0 {
        1
    } else {
        10 * pow10((e - 1) as nat)
    }
}

/// The absolute value of an integer.
pub open spec fn iabs(x: int) -> int {
    if x < 0 {
        -x
    } else {
        x
    }
}

/// A signed fixed-point decimal; its value is `mag / 10^9`, negated when
/// `neg` is set.
#[derive(Clone, Copy, Debug, PartialEq, Eq, Structural)]
pub struct Number {
    pub neg: bool,
    pub mag: u64,
}

/// The outcome of comparing two numbers.
#[derive(Clone, Copy, Debug, PartialEq, Eq, Structural)]
pub enum NumOrder {
    Less,
    Equal,
    Greater,
}

impl Number {
    /// Well-formed: the magnitude is in range and zero is never negative,
    /// so equal values are structurally equal.
    pub open spec fn wf(self) -> bool {
        &&& self.mag < MAG_LIMIT
        &&& (self.neg ==> self.mag > 0)
    }

    /// The value of the number counted in units of 10^-9.
    pub open spec fn units(self) -> int {
        if self.neg {
            -(self.mag as int)
        } else {
            self.mag as int
        }
    }

    /// Builds the canonical number for a signed magnitude.
    pub fn from_sign_mag(neg: bool, mag: u64) -> (r: Number)
        requires
            mag < MAG_LIMIT,
        ensures
            r.wf(),
            r.units() == if neg {
                -(mag as int)
            } else {
                mag as int
            },
    {
        Number { neg: neg && mag > 0, mag }
    }

    /// The number zero.
    pub fn zero() -> (r: Number)
        ensures
            r.wf(),
            r.units() == 0,
    {
        Number { neg: false, mag: 0 }
    }

    /// The number one.
    pub fn one() -> (r: Number)
        ensures
            r.wf(),
            r.units() == UNIT,
    {
        Number { neg: false, mag: UNIT }
    }

    /// The additive inverse.
    pub fn negated(self) -> (r: Number)
        requires
            self.wf(),
        ensures
            r.wf(),
            r.units() == -self.units(),
    {
        Number { neg: !self.neg && self.mag > 0, mag: self.mag }
    }

    /// Three-way comparison by value.
    pub fn cmp(self, other: Number) -> (r: NumOrder)
        requires
            self.wf(),
            other.wf(),
        ensures
            r == NumOrder::Less <==> self.units() < other.units(),
            r == NumOrder::Equal <==> self.units() == other.units(),
            r == NumOrder::Greater <==> self.units() > other.units(),
    {
        if self.neg && !other.neg {
            NumOrder::Less
        } else if !self.neg && other.neg {
            NumOrder::Greater
        } else if !self.neg {
            if self.mag < other.mag {
                NumOrder::Less
            } else if self.mag == other.mag {
                NumOrder::Equal
            } else {
                NumOrder::Greater
            }
        } else {
            if self.mag > other.mag {
                NumOrder::Less
            } else if self.mag == other.mag {
                NumOrder::Equal
            } else {
                NumOrder::Greater
            }
        }
    }

    /// Exact addition; `None` when the result is out of range.
    pub fn add(self, other: Number) -> (r: Option<Number>)
        requires
            self.wf(),
            other.wf(),
        ensures
            r is Some <==> iabs(self.units() + other.units()) < MAG_LIMIT,
            r is Some ==> r.unwrap().wf() && r.unwrap().units() == self.units() + other.units(),
    {
        if self.neg == other.neg {
            let sum: u128 = (self.mag as u128) + (other.mag as u128);
            if sum < MAG_LIMIT as u128 {
                Some(Number::from_sign_mag(self.neg, sum as u64))
            } else {
                None
            }
        } else if self.mag >= other.mag {
            Some(Number::from_sign_mag(self.neg, self.mag - other.mag))
        } else {
            Some(Number::from_sign_mag(other.neg, other.mag - self.mag))
        }
    }

    /// Exact subtraction; `None` when the result is out of range.
    pub fn sub(self, other: Number) -> (r: Option<Number>)
        requires
            self.wf(),
            other.wf(),
        ensures
            r is Some <==> iabs(self.units() - other.units()) < MAG_LIMIT,
            r is Some ==> r.unwrap().wf() && r.unwrap().units() == self.units() - other.units(),
    {
        self.add(other.negated())
    }

    /// Multiplication, truncated toward zero at the 10^-9 resolution;
    /// `None` when the result is out of range.
    pub fn mul(self, other: Number) -> (r: Option<Number>)
        requires
            self.wf(),
            other.wf(),
        ensures
            r is Some <==> iabs(mul_units(self.units(), other.units())) < MAG_LIMIT,
            r is Some ==> r.unwrap().wf() && r.unwrap().units() == mul_units(
                self.units(),
                other.units(),
            ),
    {
        proof {
            assert((self.mag as int) * (other.mag as int)
                < 100000000000000000000000000000000000000int) by (nonlinear_arith)
                requires
                    self.mag < MAG_LIMIT,
                    other.mag < MAG_LIMIT,
            ;
        }
        let p: u128 = (self.mag as u128) * (other.mag as u128);
        let q: u128 = p / (UNIT as u128);
        if q < MAG_LIMIT as u128 {
            Some(Number::from_sign_mag(self.neg != other.neg, q as u64))
        } else {
            None
        }
    }

    /// Division, truncated toward zero at the 10^-9 resolution; the divisor
    /// must not be zero. `None` when the result is out of range.
    pub fn div(self, other: Number) -> (r: Option<Number>)
        requires
            self.wf(),
            other.wf(),
            other.mag > 0,
        ensures
            r is Some <==> iabs(div_units(self.units(), other.units())) < MAG_LIMIT,
            r is Some ==> r.unwrap().wf() && r.unwrap().units() == div_units(
                self.units(),
                other.units(),
            ),
    {
        proof {
            assert((self.mag as int) * (UNIT as int)
                < 10000000000000000000000000000int) by (nonlinear_arith)
                requires
                    self.mag < MAG_LIMIT,
            ;
        }
        let num: u128 = (self.mag as u128) * (UNIT as u128);
        let q: u128 = num / (other.mag as u128);
        proof {
            assert(num / (other.mag as u128) <= num) by (nonlinear_arith)
                requires
                    other.mag >= 1,
            ;
        }
        if q < MAG_LIMIT as u128 {
            Some(Number::from_sign_mag(self.neg != other.neg, q as u64))
        } else {
            None
        }
    }

    /// Remainder with the sign of the dividend, as truncated division
    /// leaves it; the divisor must not be zero.
    pub fn rem(self, other: Number) -> (r: Number)
        requires
            self.wf(),
            other.wf(),
            other.mag > 0,
        ensures
            r.wf(),
            r.mag == self.mag % other.mag,
            r.units() == if self.neg {
                -((self.mag % other.mag) as int)
            } else {
                (self.mag % other.mag) as int
            },
    {
        let m = self.mag % other.mag;
        Number::from_sign_mag(self.neg, m)
    }

    /// Raises the number to a non-negative integer power by repeated
    /// truncated multiplication; `None` as soon as a step leaves the
    /// representable range.
    pub fn pow(self, e: u64) -> (r: Option<Number>)
        requires
            self.wf(),
        ensures
            r is Some <==> pow_units(self.units(), e as nat) is Some,
            r is Some ==> r.unwrap().wf() && r.unwrap().units() == pow_units(
                self.units(),
                e as nat,
            ).unwrap(),
    {
        let mut acc = Number::one();
        let mut i: u64 = 0;
        while i < e
            invariant
                self.wf(),
                acc.wf(),
                0 <= i <= e,
                pow_units(self.units(), i as nat) == Some(acc.units()),
            decreases e - i,
        {
            match acc.mul(self) {
                Some(next) => {
                    acc = next;
                    i = i + 1;
                },
                None => {
                    proof {
                        lemma_pow_units_none(self.units(), (i + 1) as nat, e as nat);
                    }
                    return None;
                },
            }
        }
        Some(acc)
    }

    /// Rounds the value to the nearest whole number, halves away from zero;
    /// a negative value rounds to zero.
    pub fn round_to_u64(self) -> (r: u64)
        requires
            self.wf(),
        ensures
            self.neg ==> r == 0,
            !self.neg ==> r == ((self.mag + UNIT as int / 2) / UNIT as int),
    {
        if self.neg {
            0
        } else {
            (self.mag + UNIT / 2) / UNIT
        }
    }
}

/// The product of two values in units, truncated toward zero at the 10^-9
/// resolution.
pub open spec fn mul_units(x: int, y: int) -> int {
    let m = (iabs(x) * iabs(y)) / (UNIT as int);
    if (x < 0) != (y < 0) {
        -m
    } else {
        m
    }
}

/// The quotient of two values in units, truncated toward zero at the 10^-9
/// resolution.
pub open spec fn div_units(x: int, y: int) -> int {
    let m = (iabs(x) * (UNIT as int)) / iabs(y);
    if (x < 0) != (y < 0) {
        -m
    } else {
        m
    }
}

/// `x` raised to the power `e` by repeated truncated multiplication;
/// `None` as soon as a step leaves the representable range.
pub open spec fn pow_units(x: int, e: nat) -> Option<int>
    decreases e,
{
    if e == 0 {
        Some(UNIT as int)
    } else {
        match pow_units(x, (e - 1) as nat) {
            Option::None => Option::None,
            Option::Some(p) => {
                let q = mul_units(p, x);
                if iabs(q) < MAG_LIMIT {
                    Some(q)
                } else {
                    Option::None
                }
            },
        }
    }
}

/// Whether a character is a decimal digit.
pub open spec fn is_digit(c: char) -> bool {
    '0' <= c && c <= '9'
}

/// The value of a decimal digit character.
pub open spec fn digit_val(c: char) -> int {
    (c as int) - ('0' as int)
}

/// Whether every character of the sequence is a decimal digit.
pub open spec fn all_digits(s: Seq<char>) -> bool {
    forall|i: int| 0 <= i < s.len() ==> is_digit(#[trigger] s[i])
}

/// The value of a sequence of decimal digits, most significant first.
pub open spec fn digits_val(s: Seq<char>) -> int
    decreases s.len(),
{
    if s.len() == 0 {
        0
    } else {
        digits_val(s.drop_last()) * 10 + digit_val(s.last())
    }
}

/// The digit character for a value below ten.
pub open spec fn digit_char(d: int) -> char {
    if d == 0 {
        '0'
    } else if d == 1 {
        '1'
    } else if d == 2 {
        '2'
    } else if d == 3 {
        '3'
    } else if d == 4 {
        '4'
    } else if d == 5 {
        '5'
    } else if d == 6 {
        '6'
    } else if d == 7 {
        '7'
    } else if d == 8 {
        '8'
    } else {
        '9'
    }
}

/// The decimal digit string of a natural number, without leading zeros.
pub open spec fn dec_str(n: nat) -> Seq<char>
    decreases n,
{
    if n < 10 {
        seq![digit_char(n as int)]
    } else {
        dec_str(n / 10).push(digit_char((n % 10) as int))
    }
}

/// The decimal digit string of `n` padded with leading zeros to width `w`
/// (only the `w` least significant digits).
pub open spec fn pad_str(n: nat, w: nat) -> Seq<char>
    decreases w,
{
    if w == 0 {
        Seq::empty()
    } else {
        pad_str(n / 10, (w - 1) as nat).push(digit_char((n % 10) as int))
    }
}

/// The sequence with its trailing zero digits removed.
pub open spec fn strip_zeros(s: Seq<char>) -> Seq<char>
    decreases s.len(),
{
    if s.len() > 0 && s.last() == '0' {
        strip_zeros(s.drop_last())
    } else {
        s
    }
}

/// Whether splitting the unsigned body `t` at position `k` exhibits a valid
/// numeral: digits, then optionally a dot and more digits, with at least one
/// digit overall. `k == t.len()` means there is no dot.
pub open spec fn num_body_ok(t: Seq<char>, k: int) -> bool {
    &&& 0 <= k <= t.len()
    &&& (k < t.len() ==> t[k] == '.')
    &&& all_digits(t.take(k))
    &&& (k < t.len() ==> all_digits(t.skip(k + 1)))
    &&& (if k < t.len() {
        t.len() >= 2
    } else {
        t.len() >= 1
    })
}

/// Whether the numeral carries a minus sign.
pub open spec fn num_sign(s: Seq<char>) -> bool {
    s.len() > 0 && s[0] == '-'
}

/// The numeral with its sign stripped.
pub open spec fn num_body(s: Seq<char>) -> Seq<char> {
    if s.len() > 0 && (s[0] == '-' || s[0] == '+') {
        s.drop_first()
    } else {
        s
    }
}

/// The units contributed by the fractional digit string, truncated after
/// nine digits.
pub open spec fn frac_units(f: Seq<char>) -> int {
    if f.len() >= 9 {
        digits_val(f.take(9))
    } else {
        digits_val(f) * pow10((9 - f.len()) as nat)
    }
}

/// The number denoted by a lexeme: an optional sign, digits, and at most
/// one dot, with at least one digit. `None` when the text is not such a
/// numeral or its integer part does not fit the representable range.
pub open spec fn spec_parse_num(s: Seq<char>) -> Option<Number> {
    let t = num_body(s);
    if exists|k: int| num_body_ok(t, k) {
        let k = choose|k: int| num_body_ok(t, k);
        let iv = digits_val(t.take(k));
        let fu = if k < t.len() {
            frac_units(t.skip(k + 1))
        } else {
            0
        };
        if iv < INT_LIMIT {
            let units = iv * (UNIT as int) + fu;
            Some(Number { neg: num_sign(s) && units > 0, mag: units as u64 })
        } else {
            Option::None
        }
    } else {
        Option::None
    }
}

/// The decimal text of a number: optional minus sign, integer digits, and
/// the fractional digits with trailing zeros removed when any are set.
pub open spec fn spec_render_num(x: Number) -> Seq<char> {
    let ip = dec_str(((x.mag as int) / (UNIT as int)) as nat);
    let f = (x.mag as int) % (UNIT as int);
    let body = if f == 0 {
        ip
    } else {
        ip + seq!['.'] + strip_zeros(pad_str(f as nat, 9))
    };
    if x.neg {
        seq!['-'] + body
    } else {
        body
    }
}

/// 10^e is positive.
pub proof fn lemma_pow10_pos(e: nat)
    ensures
        pow10(e) >= 1,
    decreases e,
{
    if e > 0 {
        lemma_pow10_pos((e - 1) as nat);
    }
}

/// Powers of ten multiply by adding exponents.
pub proof fn lemma_pow10_add(a: nat, b: nat)
    ensures
        pow10(a) * pow10(b) == pow10(a + b),
    decreases a,
{
    if a == 0 {
        assert(pow10(0) == 1);
    } else {
        lemma_pow10_add((a - 1) as nat, b);
        assert((10 * pow10((a - 1) as nat)) * pow10(b) == 10 * (pow10((a - 1) as nat) * pow10(b)))
            by (nonlinear_arith);
        assert(pow10(a + b) == 10 * pow10((a + b - 1) as nat));
    }
}

/// A digit string's value is non-negative and below 10^length.
pub proof fn lemma_digits_val_bounds(s: Seq<char>)
    requires
        all_digits(s),
    ensures
        0 <= digits_val(s) < pow10(s.len()),
    decreases s.len(),
{
    if s.len() == 0 {
    } else {
        assert(all_digits(s.drop_last()));
        lemma_digits_val_bounds(s.drop_last());
        assert(is_digit(s.last()));
        assert(pow10(s.len()) == 10 * pow10((s.len() - 1) as nat));
    }
}

/// A valid split position is pinned by the first dot (or the end when
/// there is none).
proof fn lemma_body_ok_pins(t: Seq<char>, k: int, k2: int)
    requires
        0 <= k <= t.len(),
        all_digits(t.take(k)),
        k < t.len() ==> t[k] == '.',
        num_body_ok(t, k2),
    ensures
        k2 == k,
{
    if k2 < k {
        assert(is_digit(t.take(k)[k2]));
        assert(!is_digit('.')) by {
            assert('.' as int == 46);
            assert('0' as int == 48);
        }
    } else if k2 > k {
        assert(is_digit(t.take(k2)[k]));
        assert(!is_digit('.')) by {
            assert('.' as int == 46);
            assert('0' as int == 48);
        }
    }
}

/// A character that is neither a digit nor a dot rules every split out.
proof fn lemma_bad_char_no_body(t: Seq<char>, q: int)
    requires
        0 <= q < t.len(),
        !is_digit(t[q]),
        t[q] != '.',
    ensures
        forall|k2: int| !num_body_ok(t, k2),
{
    assert forall|k2: int| !num_body_ok(t, k2) by {
        if num_body_ok(t, k2) {
            if k2 < q {
                assert(is_digit(t.skip(k2 + 1)[q - k2 - 1]));
            } else if k2 == q {
                assert(t[k2] == '.');
            } else {
                assert(is_digit(t.take(k2)[q]));
            }
        }
    }
}

/// Once a power step has left the representable range, every later power
/// is out of range too.
proof fn lemma_pow_units_none(x: int, i: nat, e: nat)
    requires
        i <= e,
        pow_units(x, i) is None,
    ensures
        pow_units(x, e) is None,
    decreases e - i,
{
    if i < e {
        lemma_pow_units_none(x, i + 1, e);
    }
}

/// 10^e as a machine word, for small exponents.
pub fn pow10_u64(e: u64) -> (r: u64)
    requires
        e <= 9,
    ensures
        r == pow10(e as nat),
{
    proof {
        reveal_with_fuel(pow10, 11);
    }
    if e == 0 {
        1
    } else if e == 1 {
        10
    } else if e == 2 {
        100
    } else if e == 3 {
        1_000
    } else if e == 4 {
        10_000
    } else if e == 5 {
        100_000
    } else if e == 6 {
        1_000_000
    } else if e == 7 {
        10_000_000
    } else if e == 8 {
        100_000_000
    } else {
        1_000_000_000
    }
}

/// Parses a lexeme as a number: an optional sign, decimal digits and at
/// most one dot. Fractional digits beyond the ninth are ignored; a numeral
/// whose integer part is 10^10 or more is rejected.
#[verifier::loop_isolation(false)]
#[verifier::rlimit(60)]
pub fn parse_number_str(s: &str) -> (r: Option<Number>)
    ensures
        r == spec_parse_num(s@),
        r is Some ==> r.unwrap().wf(),
{
    let n = s.unicode_len();
    let mut start: usize = 0;
    let mut neg = false;
    if n > 0 {
        let c0 = s.get_char(0);
        if c0 == '-' {
            neg = true;
            start = 1;
        } else if c0 == '+' {
            start = 1;
        }
    }
    let ghost t = s@.skip(start as int);
    proof {
        assert(t =~= num_body(s@));
        assert(neg == num_sign(s@));
    }
    // locate the first dot at or after `start`
    let mut dot: usize = start;
    while dot < n && s.get_char(dot) != '.'
        invariant
            start <= dot <= n,
            forall|p: int| start <= p < dot ==> s@[p] != '.',
        decreases n - dot,
    {
        dot = dot + 1;
    }
    let ghost k = dot - start;
    // integer part digits
    let mut iv: u64 = 0;
    let mut big = false;
    let mut i: usize = start;
    while i < dot
        invariant
            start <= i <= dot,
            all_digits(s@.subrange(start as int, i as int)),
            !big ==> iv < INT_LIMIT && iv == digits_val(s@.subrange(start as int, i as int)),
            big ==> digits_val(s@.subrange(start as int, i as int)) >= INT_LIMIT,
        decreases dot - i,
    {
        let c = s.get_char(i);
        let ghost pre = s@.subrange(start as int, i as int);
        proof {
            assert(s@.subrange(start as int, i + 1) =~= pre.push(s@[i as int]));
            assert(pre.push(s@[i as int]).drop_last() =~= pre);
        }
        if c < '0' || c > '9' {
            proof {
                assert(t[i - start] == s@[i as int]);
                lemma_bad_char_no_body(t, i - start);
            }
            return None;
        }
        let d: u64 = (c as u32 - '0' as u32) as u64;
        proof {
            assert(d == digit_val(s@[i as int]));
            lemma_digits_val_bounds(pre);
            assert(digits_val(pre.push(s@[i as int])) == digits_val(pre) * 10 + d);
        }
        if !big {
            let niv = iv * 10 + d;
            if niv >= INT_LIMIT {
                big = true;
            } else {
                iv = niv;
            }
        }
        i = i + 1;
    }
    proof {
        assert(t.take(k as int) =~= s@.subrange(start as int, dot as int));
    }
    // fractional part digits, truncated after nine
    let mut fv: u64 = 0;
    let mut fd: usize = 0;
    if dot < n {
        let mut i2: usize = dot + 1;
        while i2 < n
            invariant
                dot + 1 <= i2 <= n,
                fd == if i2 - dot - 1 <= 9 {
                    i2 - dot - 1
                } else {
                    9
                },
                fd <= 9,
                all_digits(s@.subrange(dot + 1, i2 as int)),
                fv == digits_val(s@.subrange(dot + 1, dot + 1 + fd)),
                fv < pow10(fd as nat),
            decreases n - i2,
        {
            let c = s.get_char(i2);
            let ghost pre = s@.subrange(dot + 1, i2 as int);
            proof {
                assert(s@.subrange(dot + 1, i2 + 1) =~= pre.push(s@[i2 as int]));
                assert(pre.push(s@[i2 as int]).drop_last() =~= pre);
            }
            if c < '0' || c > '9' {
                // not a digit (possibly a second dot): no split is valid
                proof {
                    assert forall|k2: int| !num_body_ok(t, k2) by {
                        if num_body_ok(t, k2) {
                            lemma_body_ok_pins(t, k as int, k2);
                            assert(t.skip(k + 1)[i2 - dot - 1] == s@[i2 as int]);
                            assert(is_digit(t.skip(k + 1)[i2 - dot - 1]));
                        }
                    }
                }
                return None;
            }
            let d: u64 = (c as u32 - '0' as u32) as u64;
            proof {
                assert(d == digit_val(s@[i2 as int]));
            }
            if fd < 9 {
                let ghost fpre = s@.subrange(dot + 1, dot + 1 + fd);
                proof {
                    assert(fpre == pre);
                    assert(s@.subrange(dot + 1, dot + 1 + (fd + 1)) =~= fpre.push(
                        s@[dot + 1 + fd],
                    ));
                    assert(fpre.push(s@[dot + 1 + fd]).drop_last() =~= fpre);
                    assert(digits_val(fpre.push(s@[dot + 1 + fd])) == digits_val(fpre) * 10 + d);
                    assert(pow10((fd + 1) as nat) == 10 * pow10(fd as nat));
                    lemma_pow10_mono(fd as nat, 8);
                    reveal_with_fuel(pow10, 11);
                    assert(pow10(8) == 100_000_000);
                }
                fv = fv * 10 + d;
                fd = fd + 1;
            }
            i2 = i2 + 1;
        }
    }
    // at least one digit overall
    let int_digits = dot - start;
    let frac_digits = if dot < n {
        n - dot - 1
    } else {
        0
    };
    if int_digits + frac_digits == 0 {
        proof {
            assert forall|k2: int| !num_body_ok(t, k2) by {
                if num_body_ok(t, k2) {
                    lemma_body_ok_pins(t, k as int, k2);
                }
            }
        }
        return None;
    }
    proof {
        if dot < n {
            assert(t.skip(k + 1) =~= s@.subrange(dot + 1, n as int));
        }
        assert(num_body_ok(t, k as int));
        let kc = choose|k2: int| num_body_ok(t, k2);
        lemma_body_ok_pins(t, k as int, kc);
    }
    if big {
        proof {
            assert(digits_val(t.take(k as int)) >= INT_LIMIT);
        }
        return None;
    }
    // assemble the magnitude
    proof {
        lemma_pow10_add(fd as nat, (9 - fd) as nat);
        lemma_pow10_pos((9 - fd) as nat);
        lemma_pow10_mono((9 - fd) as nat, 9);
        reveal_with_fuel(pow10, 11);
        assert(pow10(9) == 1_000_000_000);
        assert(fv * pow10((9 - fd) as nat) <= (pow10(fd as nat) - 1) * pow10((9 - fd) as nat))
            by (nonlinear_arith)
            requires
                fv <= pow10(fd as nat) - 1,
                pow10((9 - fd) as nat) >= 1,
        ;
        assert((pow10(fd as nat) - 1) * pow10((9 - fd) as nat) == pow10(9) - pow10(
            (9 - fd) as nat,
        )) by (nonlinear_arith)
            requires
                pow10(fd as nat) * pow10((9 - fd) as nat) == pow10(9),
        ;
        assert((iv as int) * (UNIT as int) <= 9_999_999_999int * 1_000_000_000int)
            by (nonlinear_arith)
            requires
                0 <= iv <= 9_999_999_999u64,
        ;
    }
    let fu: u64 = fv * pow10_u64(9 - fd as u64);
    let mag: u64 = iv * UNIT + fu;
    proof {
        if (k as int) < t.len() {
            let f = t.skip(k + 1);
            if f.len() >= 9 {
                assert(f.take(9) =~= s@.subrange(dot + 1, dot + 1 + fd));
            } else {
                assert(f =~= s@.subrange(dot + 1, dot + 1 + fd));
            }
        }
    }
    Some(Number::from_sign_mag(neg, mag))
}

/// Powers of ten are monotone in the exponent.
proof fn lemma_pow10_mono(a: nat, b: nat)
    requires
        a <= b,
    ensures
        pow10(a) <= pow10(b),
    decreases b,
{
    if a < b {
        lemma_pow10_mono(a, (b - 1) as nat);
        lemma_pow10_pos((b - 1) as nat);
    }
}

/// A one-character string for a decimal digit value.
fn digit_text(d: u64) -> (r: &'static str)
    requires
        d < 10,
    ensures
        r@ == seq![digit_char(d as int)],
{
    proof {
        reveal_strlit("0");
        reveal_strlit("1");
        reveal_strlit("2");
        reveal_strlit("3");
        reveal_strlit("4");
        reveal_strlit("5");
        reveal_strlit("6");
        reveal_strlit("7");
        reveal_strlit("8");
        reveal_strlit("9");
    }
    let r = if d == 0 {
        "0"
    } else if d == 1 {
        "1"
    } else if d == 2 {
        "2"
    } else if d == 3 {
        "3"
    } else if d == 4 {
        "4"
    } else if d == 5 {
        "5"
    } else if d == 6 {
        "6"
    } else if d == 7 {
        "7"
    } else if d == 8 {
        "8"
    } else {
        "9"
    };
    proof {
        assert(r@ =~= seq![digit_char(d as int)]);
    }
    r
}

/// The decimal digit text of a machine word, without leading zeros.
pub fn render_u64(n: u64) -> (r: String)
    ensures
        r@ == dec_str(n as nat),
    decreases n,
{
    if n < 10 {
        let mut s = String::new();
        s.append(digit_text(n));
        proof {
            assert(s@ =~= dec_str(n as nat));
        }
        s
    } else {
        let mut s = render_u64(n / 10);
        s.append(digit_text(n % 10));
        proof {
            assert(s@ =~= dec_str(n as nat));
        }
        s
    }
}

/// The `w` least significant decimal digits of `n`, zero padded.
fn render_padded(n: u64, w: u64) -> (r: String)
    ensures
        r@ == pad_str(n as nat, w as nat),
    decreases w,
{
    if w == 0 {
        let s = String::new();
        proof {
            assert(s@ =~= pad_str(n as nat, 0));
        }
        s
    } else {
        let mut s = render_padded(n / 10, w - 1);
        s.append(digit_text(n % 10));
        proof {
            assert(s@ =~= pad_str(n as nat, w as nat));
        }
        s
    }
}

impl Number {
    /// The decimal text of the number: optional minus sign, integer digits,
    /// and any fractional digits with trailing zeros removed.
    #[verifier::loop_isolation(false)]
    pub fn render(self) -> (r: String)
        requires
            self.wf(),
        ensures
            r@ == spec_render_num(self),
    {
        let ip = self.mag / UNIT;
        let f = self.mag % UNIT;
        let mut out = String::new();
        if self.neg {
            proof {
                reveal_strlit("-");
            }
            out.append("-");
        }
        let ips = render_u64(ip);
        out.append(ips.as_str());
        if f > 0 {
            proof {
                reveal_strlit(".");
            }
            out.append(".");
            proof {
                reveal_with_fuel(pow10, 11);
                assert(pow10(9) == 1_000_000_000);
                assert(pow10(0) == 1);
                assert((f as int) * pow10(0) == f as int);
            }
            // strip trailing zero digits by shortening the padded field
            let mut v = f;
            let mut w: u64 = 9;
            while v % 10 == 0
                invariant
                    1 <= w <= 9,
                    v > 0,
                    f < UNIT,
                    (v as int) * pow10((9 - w) as nat) == f as int,
                    pow10(9) == 1_000_000_000,
                    strip_zeros(pad_str(f as nat, 9)) == strip_zeros(
                        pad_str(v as nat, w as nat),
                    ),
                decreases v,
            {
                proof {
                    assert(pad_str(v as nat, w as nat).last() == digit_char((v % 10) as int));
                    assert(pad_str(v as nat, w as nat).last() == '0');
                    assert(pad_str(v as nat, w as nat).drop_last() =~= pad_str(
                        (v / 10) as nat,
                        (w - 1) as nat,
                    ));
                    assert(strip_zeros(pad_str(v as nat, w as nat)) == strip_zeros(
                        pad_str((v / 10) as nat, (w - 1) as nat),
                    ));
                    lemma_pow10_pos((9 - w) as nat);
                    assert(((v / 10) as int) * pow10((10 - w) as nat) == f as int)
                        by (nonlinear_arith)
                        requires
                            (v as int) * pow10((9 - w) as nat) == f as int,
                            v % 10 == 0,
                            v > 0,
                            pow10((10 - w) as nat) == 10 * pow10((9 - w) as nat),
                            1 <= w <= 9,
                    ;
                    if w == 1 {
                        assert(((v / 10) as int) * pow10(9) >= pow10(9)) by (nonlinear_arith)
                            requires
                                (v / 10) as int >= 1,
                                pow10(9) >= 1,
                        ;
                    }
                }
                v = v / 10;
                w = w - 1;
            }
            proof {
                assert(pad_str(v as nat, w as nat).last() == digit_char((v % 10) as int));
                assert(digit_char((v % 10) as int) != '0');
                assert(strip_zeros(pad_str(v as nat, w as nat)) == pad_str(v as nat, w as nat));
            }
            let fs = render_padded(v, w);
            out.append(fs.as_str());
        }
        proof {
            assert(out@ =~= spec_render_num(self));
        }
        out
    }
}

} // verus!
