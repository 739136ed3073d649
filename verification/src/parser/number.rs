//! Exact decimal numbers and how they are written in a file.

use vstd::prelude::*;

verus! {

/// An exact decimal number: `mantissa / 10^scale`.
#[derive(Debug, Clone, Copy, PartialEq, Eq, Structural)]
pub struct Decimal {
    pub mantissa: i64,
    pub scale: usize,
}

/// A number as it stands in a text: where it ends, its sign, the value of
/// its digits read as one integer, how many of them follow the point, and
/// the power of ten written behind them.
pub struct NumberToken {
    pub end: int,
    pub negative: bool,
    pub magnitude: int,
    pub scale: int,
    pub exponent: int,
}

pub open spec fn is_digit(c: char) -> bool {
    '0' <= c && c <= '9'
}

pub open spec fn digit_value(c: char) -> int {
    c as int - '0' as int
}

/// The integer written by the digits of `start` followed by `digits`.
pub open spec fn shift_in(start: int, digits: Seq<char>) -> int
    decreases digits.len(),
{
    if digits.len() == 0 {
        start
    } else {
        shift_in(start, digits.drop_last()) * 10 + digit_value(digits.last())
    }
}

/// The first position at or after `pos` that holds no digit.
pub open spec fn digits_end(s: Seq<char>, pos: int) -> int
    decreases s.len() - pos,
{
    if 0 <= pos < s.len() && is_digit(s[pos]) {
        digits_end(s, pos + 1)
    } else {
        pos
    }
}

/// 1 where a sign stands at `pos`, else 0.
pub open spec fn sign_len(s: Seq<char>, pos: int) -> int {
    if 0 <= pos < s.len() && (s[pos] == '-' || s[pos] == '+') {
        1
    } else {
        0
    }
}

/// Whether `c` opens the power of ten of a number.
pub open spec fn is_exponent_mark(c: char) -> bool {
    c == 'e' || c == 'E'
}

/// The number that starts at `pos`: an optional sign, then digits with an
/// optional point and more digits, or a point and digits; behind them,
/// optionally, `e` or `E`, an optional sign and the digits of a power of
/// ten. At least one digit is needed, and behind an `e` at least one
/// more.
pub open spec fn number_at(s: Seq<char>, pos: int) -> Option<NumberToken> {
    let first = pos + sign_len(s, pos);
    let dot = digits_end(s, first);
    let has_point = 0 <= dot < s.len() && s[dot] == '.';
    let last = if has_point {
        digits_end(s, dot + 1)
    } else {
        dot
    };
    let fraction = if has_point {
        s.subrange(dot + 1, last)
    } else {
        Seq::<char>::empty()
    };
    if dot == first && fraction.len() == 0 {
        None
    } else {
        let plain = NumberToken {
            end: last,
            negative: sign_len(s, pos) == 1 && s[pos] == '-',
            magnitude: shift_in(shift_in(0, s.subrange(first, dot)), fraction),
            scale: fraction.len() as int,
            exponent: 0,
        };
        match power_at(s, last) {
            Power::Absent => Some(plain),
            Power::Broken => None,
            Power::Given { end, exponent } => Some(NumberToken { end, exponent, ..plain }),
        }
    }
}

/// The power of ten that may stand behind the digits of a number.
pub enum Power {
    /// No `e` follows the digits.
    Absent,
    /// An `e` follows, but no digit behind it: there is no number then.
    Broken,
    /// The power, and where it ends.
    Given { end: int, exponent: int },
}

/// The power of ten written at `at`.
pub open spec fn power_at(s: Seq<char>, at: int) -> Power {
    if 0 <= at < s.len() && is_exponent_mark(s[at]) {
        let from = at + 1 + sign_len(s, at + 1);
        let to = digits_end(s, from);
        let size = shift_in(0, s.subrange(from, to));
        if to == from {
            Power::Broken
        } else {
            Power::Given {
                end: to,
                exponent: if sign_len(s, at + 1) == 1 && s[at + 1] == '-' {
                    -size
                } else {
                    size
                },
            }
        }
    } else {
        Power::Absent
    }
}

impl NumberToken {
    /// The digits with the sign applied.
    pub open spec fn mantissa(self) -> int {
        if self.negative {
            -self.magnitude
        } else {
            self.magnitude
        }
    }

    /// How many of the digits stand behind the point once the power of
    /// ten is applied; below zero where zeros have to be appended.
    pub open spec fn net(self) -> int {
        self.scale - self.exponent
    }

    /// Whether a [`Decimal`] can hold the number: its digits, its power
    /// of ten, and the digits with the zeros that the power appends.
    pub open spec fn fits(self) -> bool {
        &&& self.magnitude <= i64::MAX
        &&& -i64::MAX <= self.exponent <= i64::MAX
        &&& if self.net() >= 0 {
            self.net() <= usize::MAX
        } else {
            self.magnitude * pow10((-self.net()) as nat) <= i64::MAX
        }
    }

    pub open spec fn decimal(self) -> Decimal {
        if self.net() >= 0 {
            Decimal { mantissa: self.mantissa() as i64, scale: self.net() as usize }
        } else {
            Decimal {
                mantissa: (self.mantissa() * pow10((-self.net()) as nat)) as i64,
                scale: 0,
            }
        }
    }
}

pub proof fn lemma_digits_end_bounds(s: Seq<char>, pos: int)
    requires
        0 <= pos <= s.len(),
    ensures
        pos <= digits_end(s, pos) <= s.len(),
        forall|i: int| pos <= i < digits_end(s, pos) ==> is_digit(#[trigger] s[i]),
        digits_end(s, pos) < s.len() ==> !is_digit(s[digits_end(s, pos)]),
    decreases s.len() - pos,
{
    if pos < s.len() && is_digit(s[pos]) {
        lemma_digits_end_bounds(s, pos + 1);
    }
}

/// A run of digits from `pos` to `end` that stops at `end` is the run that
/// `digits_end` finds.
pub proof fn lemma_digits_end_is(s: Seq<char>, pos: int, end: int)
    requires
        0 <= pos <= end <= s.len(),
        forall|i: int| pos <= i < end ==> is_digit(#[trigger] s[i]),
        end < s.len() ==> !is_digit(s[end]),
    ensures
        digits_end(s, pos) == end,
    decreases end - pos,
{
    if pos < end {
        lemma_digits_end_is(s, pos + 1, end);
    }
}

/// Writing more digits behind a number never makes it smaller.
pub proof fn lemma_shift_in_grows(start: int, digits: Seq<char>, k: int)
    requires
        0 <= start,
        0 <= k <= digits.len(),
        forall|i: int| 0 <= i < digits.len() ==> is_digit(#[trigger] digits[i]),
    ensures
        start <= shift_in(start, digits.take(k)) <= shift_in(start, digits),
    decreases digits.len(),
{
    if digits.len() == 0 {
        assert(digits.take(k) =~= digits);
    } else if k == digits.len() {
        assert(digits.take(k) =~= digits);
        lemma_shift_in_grows(start, digits.drop_last(), k - 1);
        assert(digits.drop_last().take(k - 1) =~= digits.drop_last());
    } else {
        lemma_shift_in_grows(start, digits.drop_last(), k);
        assert(digits.drop_last().take(k) =~= digits.take(k));
    }
}

pub fn is_digit_char(c: char) -> (digit: bool)
    ensures
        digit == is_digit(c),
{
    '0' <= c && c <= '9'
}

/// Skips the digits that stand at `pos`.
pub fn scan_digits(s: &Vec<char>, pos: usize) -> (end: usize)
    requires
        pos <= s@.len(),
    ensures
        end == digits_end(s@, pos as int),
        pos <= end <= s@.len(),
{
    let mut end: usize = pos;
    while end < s.len() && is_digit_char(s[end])
        invariant
            pos <= end <= s@.len(),
            forall|i: int| pos <= i < end ==> is_digit(#[trigger] s@[i]),
        decreases s@.len() - end,
    {
        end += 1;
    }
    proof {
        lemma_digits_end_is(s@, pos as int, end as int);
    }
    end
}

/// Writes the digits `s[from..to]` behind `start`; `None` where the result
/// is more than an `i64` holds.
pub fn accumulate(s: &Vec<char>, from: usize, to: usize, start: i64) -> (value: Option<i64>)
    requires
        from <= to <= s@.len(),
        0 <= start,
        forall|i: int| from <= i < to ==> is_digit(#[trigger] s@[i]),
    ensures
        value is Some <==> shift_in(start as int, s@.subrange(from as int, to as int)) <= i64::MAX,
        value is Some ==> value->0 == shift_in(start as int, s@.subrange(from as int, to as int)),
{
    let ghost digits = s@.subrange(from as int, to as int);
    let mut acc: i64 = start;
    let mut i: usize = from;
    while i < to
        invariant
            from <= i <= to <= s@.len(),
            digits == s@.subrange(from as int, to as int),
            forall|k: int| 0 <= k < digits.len() ==> is_digit(#[trigger] digits[k]),
            0 <= start <= acc,
            acc == shift_in(start as int, digits.take(i - from)),
        decreases to - i,
    {
        let c = s[i];
        assert(digits[i - from] == s@[i as int] && is_digit(digits[i - from]));
        let d: i64 = (c as u32 - '0' as u32) as i64;
        proof {
            assert(d == digit_value(c));
            assert(digits[i - from] == c);
            assert(digits.take(i - from + 1).drop_last() =~= digits.take(i - from));
            assert(digits.take(i - from + 1).last() == c);
            lemma_shift_in_grows(start as int, digits, i - from + 1);
        }
        if acc > (i64::MAX - d) / 10 {
            return None;
        }
        acc = acc * 10 + d;
        i += 1;
    }
    proof {
        assert(digits.take(to - from) =~= digits);
    }
    Some(acc)
}

/// Reads the number that starts at `pos`. `None` where no number stands
/// there, or where its digits are more than a [`Decimal`] holds.
pub fn parse_number(s: &Vec<char>, pos: usize) -> (found: Option<(usize, Decimal)>)
    requires
        pos <= s@.len(),
    ensures
        match found {
            Some((end, value)) => {
                &&& number_at(s@, pos as int) matches Some(token)
                &&& token.fits()
                &&& end == token.end
                &&& pos < end <= s@.len()
                &&& value == token.decimal()
            },
            None => number_at(s@, pos as int) matches Some(token) ==> !token.fits(),
        },
{
    let signed = pos < s.len() && (s[pos] == '-' || s[pos] == '+');
    let negative = signed && s[pos] == '-';
    let first: usize = if signed {
        pos + 1
    } else {
        pos
    };
    let dot = scan_digits(s, first);
    let has_point = dot < s.len() && s[dot] == '.';
    let last = if has_point {
        scan_digits(s, dot + 1)
    } else {
        dot
    };
    let scale: usize = if has_point {
        last - dot - 1
    } else {
        0
    };
    if dot == first && scale == 0 {
        return None;
    }
    proof {
        lemma_digits_end_bounds(s@, first as int);
        if has_point {
            lemma_digits_end_bounds(s@, dot + 1);
        }
    }
    let whole = match accumulate(s, first, dot, 0) {
        Some(v) => v,
        None => {
            proof {
                if has_point {
                    lemma_shift_in_grows(
                        shift_in(0, s@.subrange(first as int, dot as int)),
                        s@.subrange(dot + 1, last as int),
                        0,
                    );
                }
            }
            return None;
        },
    };
    proof {
        lemma_shift_in_grows(0, s@.subrange(first as int, dot as int), 0);
    }
    let magnitude = if has_point {
        match accumulate(s, dot + 1, last, whole) {
            Some(v) => v,
            None => {
                return None;
            },
        }
    } else {
        whole
    };
    proof {
        if has_point {
            lemma_shift_in_grows(whole as int, s@.subrange(dot + 1, last as int), 0);
        }
    }
    let (end, exponent) = match read_power(s, last) {
        PowerRead::Absent => (last, 0i64),
        PowerRead::Broken => {
            return None;
        },
        PowerRead::TooLarge => {
            return None;
        },
        PowerRead::Given(end, exponent) => (end, exponent),
    };
    let net: i128 = scale as i128 - exponent as i128;
    if net >= 0 {
        if net > usize::MAX as i128 {
            return None;
        }
        let mantissa = if negative {
            -magnitude
        } else {
            magnitude
        };
        return Some((end, Decimal { mantissa, scale: net as usize }));
    }
    match scale_up(magnitude, (-net) as i64) {
        None => None,
        Some(grown) => {
            proof {
                let m = magnitude as int;
                let z = pow10((-net) as nat) as int;
                assert((-m) * z == -(m * z)) by (nonlinear_arith);
            }
            let mantissa = if negative {
                -grown
            } else {
                grown
            };
            Some((end, Decimal { mantissa, scale: 0 }))
        },
    }
}

/// What was found where the power of ten of a number may stand.
pub enum PowerRead {
    Absent,
    Broken,
    /// The power is more than can be held.
    TooLarge,
    /// Where the power ends, and the power.
    Given(usize, i64),
}

/// Reads the power of ten at `at`.
pub fn read_power(s: &Vec<char>, at: usize) -> (read: PowerRead)
    requires
        at <= s@.len(),
    ensures
        match read {
            PowerRead::Absent => power_at(s@, at as int) is Absent,
            PowerRead::Broken => power_at(s@, at as int) is Broken,
            PowerRead::TooLarge => power_at(s@, at as int) matches Power::Given { exponent, .. }
                && !(-i64::MAX <= exponent <= i64::MAX),
            PowerRead::Given(end, exponent) => power_at(s@, at as int) == (Power::Given {
                end: end as int,
                exponent: exponent as int,
            }) && at < end <= s@.len() && -i64::MAX <= exponent <= i64::MAX,
        },
{
    if !(at < s.len() && (s[at] == 'e' || s[at] == 'E')) {
        return PowerRead::Absent;
    }
    let mark = at + 1;
    let signed = mark < s.len() && (s[mark] == '-' || s[mark] == '+');
    let negative = signed && s[mark] == '-';
    let from: usize = if signed {
        mark + 1
    } else {
        mark
    };
    let to = scan_digits(s, from);
    if to == from {
        return PowerRead::Broken;
    }
    proof {
        lemma_digits_end_bounds(s@, from as int);
        lemma_shift_in_grows(0, s@.subrange(from as int, to as int), 0);
    }
    match accumulate(s, from, to, 0) {
        None => PowerRead::TooLarge,
        Some(size) => PowerRead::Given(
            to,
            if negative {
                -size
            } else {
                size
            },
        ),
    }
}

/// `magnitude` with `zeros` zeros appended; `None` where that is more
/// than an `i64` holds.
pub fn scale_up(magnitude: i64, zeros: i64) -> (grown: Option<i64>)
    requires
        0 <= magnitude,
        0 <= zeros,
    ensures
        grown is Some <==> magnitude * pow10(zeros as nat) <= i64::MAX,
        grown is Some ==> grown->0 == magnitude * pow10(zeros as nat),
{
    if magnitude == 0 {
        assert(0 * pow10(zeros as nat) == 0) by (nonlinear_arith);
        return Some(0);
    }
    let mut grown: i64 = magnitude;
    let mut left: i64 = zeros;
    while left > 0
        invariant
            0 <= left <= zeros,
            0 < grown,
            grown * pow10(left as nat) == magnitude * pow10(zeros as nat),
        decreases left,
    {
        proof {
            lemma_pow10_add((left - 1) as nat, 0);
            let g = grown as int;
            let r = pow10((left - 1) as nat) as int;
            assert(pow10(left as nat) == 10 * r);
            assert(g * (10 * r) == (g * 10) * r) by (nonlinear_arith);
            if g * 10 > i64::MAX {
                assert((g * 10) * r > i64::MAX) by (nonlinear_arith)
                    requires
                        g * 10 > i64::MAX,
                        r >= 1,
                ;
            }
        }
        if grown > 922337203685477580i64 {
            return None;
        }
        grown = grown * 10;
        left = left - 1;
    }
    assert(grown * pow10(0) == grown) by (nonlinear_arith)
        requires
            pow10(0) == 1,
    ;
    Some(grown)
}

/// `value` without its last `count` digits.
pub open spec fn drop_digits(value: int, count: nat) -> int
    decreases count,
{
    if count == 0 {
        value
    } else {
        drop_digits(value / 10, (count - 1) as nat)
    }
}

proof fn lemma_drop_digits_of_zero(count: nat)
    ensures
        drop_digits(0, count) == 0,
    decreases count,
{
    if count > 0 {
        lemma_drop_digits_of_zero((count - 1) as nat);
    }
}

/// Ten to the power `n`.
pub open spec fn pow10(n: nat) -> nat
    decreases n,
{
    if n == 0 {
        1
    } else {
        10 * pow10((n - 1) as nat)
    }
}

pub proof fn lemma_pow10_add(a: nat, b: nat)
    ensures
        pow10(a + b) == pow10(a) * pow10(b),
        pow10(a) >= 1,
    decreases a,
{
    if a > 0 {
        lemma_pow10_add((a - 1) as nat, b);
        let x = pow10((a - 1) as nat);
        let y = pow10(b);
        assert(pow10(a + b) == 10 * pow10((a - 1 + b) as nat));
        assert(10 * (x * y) == (10 * x) * y) by (nonlinear_arith);
    } else {
        assert(pow10(a + b) == pow10(b));
        assert(1 * pow10(b) == pow10(b));
    }
}

impl Decimal {
    /// The size of the mantissa, sign left out.
    pub open spec fn magnitude(self) -> int {
        if self.mantissa < 0 {
            -(self.mantissa as int)
        } else {
            self.mantissa as int
        }
    }

    /// Whether half of the number can be held.
    pub open spec fn can_halve(self) -> bool {
        &&& i64::MIN <= self.mantissa * 5 <= i64::MAX
        &&& self.scale < usize::MAX
    }

    /// Half of the number: five times as many tenths of the last digit.
    pub open spec fn spec_half(self) -> Decimal {
        Decimal { mantissa: (self.mantissa * 5) as i64, scale: (self.scale + 1) as usize }
    }

    /// Half of the number, exactly. `None` where it cannot be held.
    pub fn half(self) -> (half: Option<Decimal>)
        ensures
            half is Some <==> self.can_halve(),
            half is Some ==> half->0 == self.spec_half(),
    {
        if self.scale == usize::MAX {
            return None;
        }
        if self.mantissa > i64::MAX / 5 || self.mantissa < i64::MIN / 5 {
            return None;
        }
        Some(Decimal { mantissa: self.mantissa * 5, scale: self.scale + 1 })
    }

    /// Whether the two stand for the same number, however they are written.
    pub open spec fn same_value(self, other: Decimal) -> bool {
        self.mantissa * pow10(other.scale as nat) == other.mantissa * pow10(self.scale as nat)
    }

    /// Whether the two stand for the same number: `1.50` and `1.5` do.
    pub fn equals(&self, other: &Decimal) -> (same: bool)
        ensures
            same == self.same_value(*other),
    {
        let (low, high) = if self.scale <= other.scale {
            (*self, *other)
        } else {
            (*other, *self)
        };
        let ghost gap = (high.scale - low.scale) as nat;
        proof {
            lemma_pow10_add(low.scale as nat, gap);
            let a = low.mantissa as int;
            let b = high.mantissa as int;
            let p = pow10(low.scale as nat) as int;
            let q = pow10(gap) as int;
            assert((a * (p * q) == b * p) <==> (a * q == b)) by (nonlinear_arith)
                requires
                    p >= 1,
            ;
            assert(low.same_value(high) <==> a * q == b);
            assert(self.same_value(*other) <==> low.same_value(high));
        }
        let mut scaled: i64 = low.mantissa;
        let mut left: usize = high.scale - low.scale;
        if scaled == 0 {
            assert(0 * pow10(gap) == 0) by (nonlinear_arith);
            return high.mantissa == 0;
        }
        while left > 0
            invariant
                left <= gap,
                scaled != 0,
                scaled * pow10(left as nat) == low.mantissa * pow10(gap),
                self.same_value(*other) <==> low.mantissa * pow10(gap) == high.mantissa,
            decreases left,
        {
            proof {
                lemma_pow10_add((left - 1) as nat, 0);
                let s = scaled as int;
                let r = pow10((left - 1) as nat) as int;
                assert(pow10(left as nat) == 10 * r);
                assert(s * (10 * r) == (s * 10) * r) by (nonlinear_arith);
                assert(low.mantissa * pow10(gap) == (s * 10) * r);
                if s * 10 > i64::MAX {
                    assert((s * 10) * r > i64::MAX) by (nonlinear_arith)
                        requires
                            s * 10 > i64::MAX,
                            r >= 1,
                    ;
                }
                if s * 10 < i64::MIN {
                    assert((s * 10) * r < i64::MIN) by (nonlinear_arith)
                        requires
                            s * 10 < i64::MIN,
                            r >= 1,
                    ;
                }
            }
            if scaled > 922337203685477580i64 || scaled < -922337203685477580i64 {
                return false;
            }
            scaled = scaled * 10;
            left -= 1;
        }
        assert(scaled * pow10(0) == scaled) by (nonlinear_arith)
            requires
                pow10(0) == 1,
        ;
        scaled == high.mantissa
    }

    /// The whole part of the number, rounded towards zero.
    pub open spec fn whole_part(self) -> int {
        if self.mantissa < 0 {
            -drop_digits(self.magnitude(), self.scale as nat)
        } else {
            drop_digits(self.magnitude(), self.scale as nat)
        }
    }

    /// The whole part, rounded towards zero and held to what an `i32` can
    /// take.
    pub fn truncate(self) -> (whole: i32)
        ensures
            whole == if self.whole_part() > i32::MAX {
                i32::MAX as int
            } else if self.whole_part() < i32::MIN {
                i32::MIN as int
            } else {
                self.whole_part()
            },
    {
        let negative = self.mantissa < 0;
        // The size as an unsigned number, so that the least mantissa has one too.
        let mut rest: u64 = if negative {
            (-(self.mantissa + 1)) as u64 + 1
        } else {
            self.mantissa as u64
        };
        let mut left: usize = self.scale;
        while left > 0 && rest != 0
            invariant
                drop_digits(rest as int, left as nat) == drop_digits(
                    self.magnitude(),
                    self.scale as nat,
                ),
            decreases left,
        {
            rest = rest / 10;
            left -= 1;
        }
        proof {
            if rest == 0 {
                lemma_drop_digits_of_zero(left as nat);
            }
        }
        if negative {
            if rest > 2147483648u64 {
                i32::MIN
            } else {
                (-(rest as i64)) as i32
            }
        } else {
            if rest > 2147483647u64 {
                i32::MAX
            } else {
                rest as i32
            }
        }
    }
}

} // verus!
