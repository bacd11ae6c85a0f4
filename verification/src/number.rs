//! JSON numbers: integers, and doubles by their IEEE 754 bits.
//!
//! Numbers are ordered as doubles. The rank of a double is its place in that
//! order, zero having rank zero; an integer takes the rank of the nearest double.
use crate::text;
use vstd::arithmetic::power2::{lemma_pow2_adds, lemma_pow2_pos, lemma_pow2_unfold, pow2};
use vstd::prelude::*;

verus! {

/// The model of a JSON number: an integer, or a double by its bits together
/// with its decimal rendering.
pub enum NumberModel {
    Integer(int),
    Real { bits: u64, text: Seq<char> },
}

/// A JSON number.
#[derive(Debug)]
pub enum Number {
    Unsigned(u64),
    Signed(i64),
    Real { bits: u64, text: String },
}

impl View for Number {
    type V = NumberModel;

    open spec fn view(&self) -> NumberModel {
        match self {
            Number::Unsigned(n) => NumberModel::Integer(*n as int),
            Number::Signed(n) => NumberModel::Integer(*n as int),
            Number::Real { bits, text } => NumberModel::Real { bits: *bits, text: text@ },
        }
    }
}

/// The bits of positive infinity; larger magnitudes are not numbers.
pub const INFINITY_BITS: u64 = 0x7ff0_0000_0000_0000;

/// The sign bit of a double.
pub const SIGN_BIT: u64 = 0x8000_0000_0000_0000;

/// The number of doubles between a power of two and the next.
pub const BINADE: u64 = 0x0010_0000_0000_0000;

/// The rank of the double with the given bits; none for what is not a number.
pub open spec fn real_rank(bits: u64) -> Option<int> {
    let magnitude = bits % SIGN_BIT;
    if magnitude > INFINITY_BITS {
        None
    } else if bits < SIGN_BIT {
        Some(magnitude as int)
    } else {
        Some(-(magnitude as int))
    }
}

/// The place of the highest bit that is set.
pub open spec fn top_bit(m: nat) -> nat
    decreases m,
{
    if m < 2 {
        0
    } else {
        1 + top_bit(m / 2)
    }
}

/// `m / unit` rounded to the nearest integer, to the even one of two equally near.
pub open spec fn rounded_quotient(m: nat, unit: nat) -> nat {
    let whole = m / unit;
    let rest = m % unit;
    if 2 * rest > unit || (2 * rest == unit && whole % 2 == 1) {
        whole + 1
    } else {
        whole
    }
}

/// The rank of the double nearest to a natural number, of the one with an even
/// significand where two are equally near.
pub open spec fn natural_rank(m: nat) -> nat {
    let e = top_bit(m);
    if m == 0 {
        0
    } else if e <= 52 {
        (e + 1022) * (BINADE as nat) + m * pow2((52 - e) as nat)
    } else {
        (e + 1022) * (BINADE as nat) + rounded_quotient(m, pow2((e - 52) as nat))
    }
}

/// The rank of the double nearest to an integer.
pub open spec fn integer_rank(n: int) -> int {
    if n < 0 {
        -(natural_rank((-n) as nat) as int)
    } else {
        natural_rank(n as nat) as int
    }
}

/// The rank of a number as a double.
pub open spec fn number_rank(n: NumberModel) -> Option<int> {
    match n {
        NumberModel::Integer(value) => Some(integer_rank(value)),
        NumberModel::Real { bits, .. } => real_rank(bits),
    }
}

/// Equality of numbers: integers by value, doubles by rank; an integer is never
/// equal to a double.
pub open spec fn number_eq(a: NumberModel, b: NumberModel) -> bool {
    match (a, b) {
        (NumberModel::Integer(x), NumberModel::Integer(y)) => x == y,
        (NumberModel::Real { bits: x, .. }, NumberModel::Real { bits: y, .. }) => real_rank(
            x,
        ) is Some && real_rank(x) == real_rank(y),
        _ => false,
    }
}

/// The decimal rendering of a number.
pub open spec fn number_text(n: NumberModel) -> Seq<char> {
    match n {
        NumberModel::Integer(value) => text::integer_text(value),
        NumberModel::Real { text, .. } => text,
    }
}

/// The place of the highest bit of `m` and the power of two that it stands for.
fn leading(m: u64) -> (r: (u32, u64))
    requires
        m > 0,
    ensures
        r.0 == top_bit(m as nat),
        r.0 <= 63,
        r.1 == pow2(r.0 as nat),
        r.1 <= m,
        m < 2 * r.1,
    decreases m,
{
    if m < 2 {
        proof {
            vstd::arithmetic::power2::lemma2_to64();
        }
        (0, 1)
    } else {
        let (e, p) = leading(m / 2);
        proof {
            lemma_pow2_unfold((e + 1) as nat);
            if e >= 63 {
                lemma_pow2_adds(63, (e - 63) as nat);
                lemma_pow2_pos((e - 63) as nat);
                vstd::arithmetic::power2::lemma2_to64_rest();
                assert(p >= 0x8000_0000_0000_0000) by (nonlinear_arith)
                    requires
                        p == pow2(63) * pow2((e - 63) as nat),
                        pow2((e - 63) as nat) > 0,
                        pow2(63) == 0x8000_0000_0000_0000,
                ;
                assert(false);
            }
        }
        (e + 1, 2 * p)
    }
}

/// Two to the power `n`.
fn power_of_two(n: u32) -> (r: u64)
    requires
        n < 64,
    ensures
        r == pow2(n as nat),
        r > 0,
        n <= 52 ==> r <= BINADE,
    decreases n,
{
    proof {
        vstd::arithmetic::power2::lemma2_to64();
        vstd::arithmetic::power2::lemma2_to64_rest();
    }
    if n == 0 {
        1
    } else {
        let half: u64 = power_of_two(n - 1);
        proof {
            lemma_pow2_unfold(n as nat);
            lemma_pow2_adds((n - 1) as nat, (64 - n) as nat);
            lemma_pow2_pos((64 - n) as nat);
            assert(half * 2 <= pow2(63)) by (nonlinear_arith)
                requires
                    half == pow2((n - 1) as nat),
                    pow2((n - 1) as nat) * pow2((64 - n) as nat) == pow2(63),
                    pow2((64 - n) as nat) >= 2,
            ;
        }
        2 * half
    }
}

/// The rank of the double nearest to a natural number.
fn rank_of_natural(m: u64) -> (r: i128)
    ensures
        r == natural_rank(m as nat),
        0 <= r <= 0x0100_0000_0000_0000_0000_0000_0000_0000,
{
    if m == 0 {
        return 0;
    }
    let (e, _) = leading(m);
    let base: i128 = (e as i128 + 1022) * 0x0010_0000_0000_0000;
    if e <= 52 {
        let scale: u64 = power_of_two(52 - e);
        assert(m * scale <= 0xffff_ffff_ffff_ffff * 0x0010_0000_0000_0000) by (nonlinear_arith)
            requires
                m <= 0xffff_ffff_ffff_ffff,
                scale <= 0x0010_0000_0000_0000,
        ;
        let scaled: i128 = (m as i128) * (scale as i128);
        base + scaled
    } else {
        let unit: u64 = power_of_two(e - 52);
        let whole: u64 = m / unit;
        let rest: u64 = m % unit;
        let twice: u128 = 2 * (rest as u128);
        if twice > unit as u128 || (twice == unit as u128 && whole % 2 == 1) {
            base + (whole as i128) + 1
        } else {
            base + (whole as i128)
        }
    }
}

impl Number {
    /// The rank of the number as a double; none for what is not a number.
    fn rank(&self) -> (r: Option<i128>)
        ensures
            match number_rank(self@) {
                Some(value) => r == Some(value as i128) && value == value as i128,
                None => r is None,
            },
    {
        match self {
            Number::Unsigned(n) => Some(rank_of_natural(*n)),
            Number::Signed(n) => if *n < 0 {
                let magnitude: u64 = (-(*n as i128)) as u64;
                Some(-rank_of_natural(magnitude))
            } else {
                Some(rank_of_natural(*n as u64))
            },
            Number::Real { bits, .. } => {
                let magnitude: u64 = *bits % SIGN_BIT;
                if magnitude > INFINITY_BITS {
                    None
                } else if *bits < SIGN_BIT {
                    Some(magnitude as i128)
                } else {
                    Some(-(magnitude as i128))
                }
            },
        }
    }

    /// Whether two numbers are equal.
    pub fn same(&self, other: &Number) -> (r: bool)
        ensures
            r == number_eq(self@, other@),
    {
        match (self.integer(), other.integer()) {
            (Some(x), Some(y)) => x == y,
            (None, None) => match (self.rank(), other.rank()) {
                (Some(x), Some(y)) => x == y,
                _ => false,
            },
            _ => false,
        }
    }

    /// How two numbers are ordered as doubles; none where one of them is not a number.
    pub fn relate(&self, other: &Number) -> (r: Option<text::Relation>)
        ensures
            r == number_relation(self@, other@),
    {
        match (self.rank(), other.rank()) {
            (Some(x), Some(y)) => Some(
                if x < y {
                    text::Relation::Before
                } else if x == y {
                    text::Relation::Same
                } else {
                    text::Relation::After
                },
            ),
            _ => None,
        }
    }

    /// The value of an integer.
    pub fn integer(&self) -> (r: Option<i128>)
        ensures
            match self@ {
                NumberModel::Integer(value) => r == Some(value as i128) && value == value as i128,
                NumberModel::Real { .. } => r is None,
            },
    {
        match self {
            Number::Unsigned(n) => Some(*n as i128),
            Number::Signed(n) => Some(*n as i128),
            Number::Real { .. } => None,
        }
    }

    /// The value, where it is an integer from zero to the largest `u64`.
    pub fn as_u64(&self) -> (r: Option<u64>)
        ensures
            match self@ {
                NumberModel::Integer(value) => if value >= 0 {
                    r == Some(value as u64) && value == value as u64
                } else {
                    r is None
                },
                NumberModel::Real { .. } => r is None,
            },
    {
        match self {
            Number::Unsigned(n) => Some(*n),
            Number::Signed(n) => if *n >= 0 {
                Some(*n as u64)
            } else {
                None
            },
            Number::Real { .. } => None,
        }
    }

    /// The value, where it is an integer in the range of `i64`.
    pub fn as_i64(&self) -> (r: Option<i64>)
        ensures
            match self@ {
                NumberModel::Integer(value) => if i64::MIN <= value <= i64::MAX {
                    r == Some(value as i64) && value == value as i64
                } else {
                    r is None
                },
                NumberModel::Real { .. } => r is None,
            },
    {
        match self {
            Number::Unsigned(n) => if *n <= 0x7fff_ffff_ffff_ffff {
                Some(*n as i64)
            } else {
                None
            },
            Number::Signed(n) => Some(*n),
            Number::Real { .. } => None,
        }
    }

    /// The integer with the given value, where the range of `i64` or `u64` holds it.
    pub fn from_integer(value: i128) -> (r: Option<Number>)
        ensures
            if i64::MIN <= value <= u64::MAX {
                r is Some && r->0@ == NumberModel::Integer(value as int)
            } else {
                r is None
            },
    {
        if -0x8000_0000_0000_0000 <= value && value < 0 {
            Some(Number::Signed(value as i64))
        } else if 0 <= value && value <= 0xffff_ffff_ffff_ffff {
            Some(Number::Unsigned(value as u64))
        } else {
            None
        }
    }

    /// The decimal rendering.
    pub fn render(&self) -> (r: String)
        ensures
            r@ == number_text(self@),
    {
        match self {
            Number::Unsigned(n) => text::decimal(*n),
            Number::Signed(n) => if *n < 0 {
                let magnitude: u64 = (-(*n as i128)) as u64;
                let digits: String = text::decimal(magnitude);
                let mut s: String = String::new();
                s.push('-');
                assert(s@ =~= seq!['-']);
                text::join2(s.as_str(), digits.as_str())
            } else {
                text::decimal(*n as u64)
            },
            Number::Real { text, .. } => text.clone(),
        }
    }
}

impl Clone for Number {
    fn clone(&self) -> (r: Self)
        ensures
            r@ == self@,
    {
        match self {
            Number::Unsigned(n) => Number::Unsigned(*n),
            Number::Signed(n) => Number::Signed(*n),
            Number::Real { bits, text } => Number::Real { bits: *bits, text: text.clone() },
        }
    }
}

/// How two numbers are ordered as doubles.
pub open spec fn number_relation(a: NumberModel, b: NumberModel) -> Option<text::Relation> {
    match (number_rank(a), number_rank(b)) {
        (Some(x), Some(y)) => Some(
            if x < y {
                text::Relation::Before
            } else if x == y {
                text::Relation::Same
            } else {
                text::Relation::After
            },
        ),
        _ => None,
    }
}

/// A number lies between the power of two of its highest bit and the next.
proof fn lemma_top_bit(m: nat)
    requires
        m > 0,
    ensures
        pow2(top_bit(m)) <= m < 2 * pow2(top_bit(m)),
    decreases m,
{
    vstd::arithmetic::power2::lemma2_to64();
    if m >= 2 {
        lemma_top_bit(m / 2);
        lemma_pow2_unfold(top_bit(m));
    }
}

/// A larger number has its highest bit no lower.
proof fn lemma_top_bit_monotone(a: nat, b: nat)
    requires
        a <= b,
    ensures
        top_bit(a) <= top_bit(b),
    decreases b,
{
    if a >= 2 {
        lemma_top_bit_monotone(a / 2, b / 2);
    }
}

/// Rounding keeps the order.
proof fn lemma_rounding_monotone(a: nat, b: nat, unit: nat)
    requires
        a <= b,
        unit > 0,
    ensures
        rounded_quotient(a, unit) <= rounded_quotient(b, unit),
{
    let (qa, ra) = (a / unit, a % unit);
    let (qb, rb) = (b / unit, b % unit);
    vstd::arithmetic::div_mod::lemma_fundamental_div_mod(a as int, unit as int);
    vstd::arithmetic::div_mod::lemma_fundamental_div_mod(b as int, unit as int);
    vstd::arithmetic::div_mod::lemma_div_is_ordered(a as int, b as int, unit as int);
    if qa == qb {
        assert(ra <= rb);
    }
}

/// The rank of a number lies within the binade of its highest bit, or at its end.
proof fn lemma_rank_range(m: nat)
    requires
        m > 0,
    ensures
        (top_bit(m) + 1023) * BINADE <= natural_rank(m) <= (top_bit(m) + 1024) * BINADE,
{
    let e = top_bit(m);
    lemma_top_bit(m);
    vstd::arithmetic::power2::lemma2_to64();
    vstd::arithmetic::power2::lemma2_to64_rest();
    if e <= 52 {
        let s = pow2((52 - e) as nat);
        lemma_pow2_adds(e, (52 - e) as nat);
        assert(BINADE <= m * s <= 2 * BINADE) by (nonlinear_arith)
            requires
                pow2(e) <= m < 2 * pow2(e),
                pow2(e) * s == BINADE,
        ;
    } else {
        let unit = pow2((e - 52) as nat);
        lemma_pow2_adds(52, (e - 52) as nat);
        lemma_pow2_pos((e - 52) as nat);
        let whole = m / unit;
        let rest = m % unit;
        vstd::arithmetic::div_mod::lemma_fundamental_div_mod(m as int, unit as int);
        assert(BINADE <= whole < 2 * BINADE) by (nonlinear_arith)
            requires
                BINADE * unit <= m < 2 * (BINADE * unit),
                m == unit * whole + rest,
                0 <= rest < unit,
        ;
    }
}

/// The ranks of doubles: positive ones by their bits, negative ones by the bits behind the
/// sign, turned round; none for what is not a number.
pub proof fn lemma_real_rank(bits: u64)
    ensures
        bits <= 0x7ff0_0000_0000_0000 ==> real_rank(bits) == Some(bits as int),
        0x8000_0000_0000_0000 <= bits <= 0xfff0_0000_0000_0000 ==> real_rank(bits) == Some(
            0x8000_0000_0000_0000 - bits,
        ),
        0x7ff0_0000_0000_0000 < bits < 0x8000_0000_0000_0000 || bits > 0xfff0_0000_0000_0000
            ==> real_rank(bits) is None,
{
    if bits < SIGN_BIT {
        vstd::arithmetic::div_mod::lemma_small_mod(bits as nat, SIGN_BIT as nat);
    } else {
        vstd::arithmetic::div_mod::lemma_mod_sub_multiples_vanish(bits as int, SIGN_BIT as int);
        vstd::arithmetic::div_mod::lemma_small_mod((bits - SIGN_BIT) as nat, SIGN_BIT as nat);
    }
}

/// The rank of a natural number between a power of two and the next, as far as doubles tell
/// each of these apart.
pub proof fn lemma_exact_rank(n: nat, power: nat)
    requires
        power <= 52,
        pow2(power) <= n < 2 * pow2(power),
    ensures
        natural_rank(n) == (power + 1023) * 0x10_0000_0000_0000 + (n - pow2(power)) * pow2(
            (52 - power) as nat,
        ),
        natural_rank(n) < 0x7ff0_0000_0000_0000,
{
    lemma_pow2_pos(power);
    lemma_top_bit(n);
    let e = top_bit(n);
    if e < power {
        lemma_pow2_adds((e + 1) as nat, (power - e - 1) as nat);
        lemma_pow2_unfold((e + 1) as nat);
        lemma_pow2_pos((power - e - 1) as nat);
        assert(pow2((e + 1) as nat) <= pow2(power)) by (nonlinear_arith)
            requires
                pow2(power) == pow2((e + 1) as nat) * pow2((power - e - 1) as nat),
                pow2((power - e - 1) as nat) > 0,
        ;
    } else if e > power {
        lemma_pow2_adds((power + 1) as nat, (e - power - 1) as nat);
        lemma_pow2_unfold((power + 1) as nat);
        lemma_pow2_pos((e - power - 1) as nat);
        assert(pow2((power + 1) as nat) <= pow2(e)) by (nonlinear_arith)
            requires
                pow2(e) == pow2((power + 1) as nat) * pow2((e - power - 1) as nat),
                pow2((e - power - 1) as nat) > 0,
        ;
    }
    vstd::arithmetic::power2::lemma2_to64();
    vstd::arithmetic::power2::lemma2_to64_rest();
    lemma_pow2_adds(power, (52 - power) as nat);
    let s = pow2((52 - power) as nat);
    assert((n - pow2(power)) * s == n * s - BINADE) by (nonlinear_arith)
        requires
            pow2(power) * s == BINADE,
    ;
    lemma_rank_range(n);
}

/// Comparing natural numbers as doubles never inverts their order.
pub proof fn lemma_natural_rank_monotone(a: nat, b: nat)
    requires
        a <= b,
    ensures
        natural_rank(a) <= natural_rank(b),
{
    if a > 0 {
        lemma_top_bit_monotone(a, b);
        lemma_rank_range(a);
        lemma_rank_range(b);
        let e = top_bit(a);
        if e == top_bit(b) {
            if e <= 52 {
                let s = pow2((52 - e) as nat);
                assert(a * s <= b * s) by (nonlinear_arith)
                    requires
                        a <= b,
                ;
            } else {
                lemma_pow2_pos((e - 52) as nat);
                lemma_rounding_monotone(a, b, pow2((e - 52) as nat));
            }
        }
    }
}

/// Comparing integers as doubles never inverts their order, and tells apart any
/// two of a magnitude below two to the power of fifty-three.
pub proof fn lemma_integer_order(a: int, b: int)
    requires
        a < b,
    ensures
        integer_rank(a) <= integer_rank(b),
        -0x20_0000_0000_0000 < a && b < 0x20_0000_0000_0000 ==> integer_rank(a) < integer_rank(b),
{
    if a >= 0 {
        lemma_natural_rank_monotone(a as nat, b as nat);
        if b < 0x20_0000_0000_0000 {
            lemma_natural_rank_exact(a as nat, b as nat);
        }
    } else if b <= 0 {
        lemma_natural_rank_monotone((-b) as nat, (-a) as nat);
        if -0x20_0000_0000_0000 < a {
            lemma_natural_rank_exact((-b) as nat, (-a) as nat);
        }
    } else {
        lemma_natural_rank_monotone(0, (-a) as nat);
        lemma_rank_range(b as nat);
    }
}

/// Below two to the power of fifty-three distinct natural numbers have distinct ranks.
proof fn lemma_natural_rank_exact(a: nat, b: nat)
    requires
        a < b < 0x20_0000_0000_0000,
    ensures
        natural_rank(a) < natural_rank(b),
{
    vstd::arithmetic::power2::lemma2_to64();
    vstd::arithmetic::power2::lemma2_to64_rest();
    lemma_top_bit(b);
    lemma_rank_range(b);
    if top_bit(b) > 52 {
        lemma_pow2_adds(53, (top_bit(b) - 53) as nat);
        lemma_pow2_pos((top_bit(b) - 53) as nat);
        assert(pow2(top_bit(b)) >= pow2(53)) by (nonlinear_arith)
            requires
                pow2(top_bit(b)) == pow2(53) * pow2((top_bit(b) - 53) as nat),
                pow2((top_bit(b) - 53) as nat) > 0,
        ;
    }
    if a > 0 {
        lemma_top_bit_monotone(a, b);
        lemma_top_bit(a);
        lemma_rank_range(a);
        let e = top_bit(a);
        let s = pow2((52 - e) as nat);
        lemma_pow2_pos((52 - e) as nat);
        lemma_pow2_adds(e, (52 - e) as nat);
        if e == top_bit(b) {
            assert(a * s < b * s) by (nonlinear_arith)
                requires
                    a < b,
                    s > 0,
            ;
        } else {
            assert(a * s < 2 * BINADE) by (nonlinear_arith)
                requires
                    a < 2 * pow2(e),
                    pow2(e) * s == BINADE,
                    s > 0,
            ;
        }
    }
}

} // verus!
