use vstd::prelude::*;
use vstd::arithmetic::div_mod::{lemma_fundamental_div_mod, lemma_mod_bound};

verus! {

/// A two-dimensional integer vector used for cell positions and region
/// sizes on the character grid. Pure value type with componentwise
/// arithmetic.
#[derive(Clone, Copy, Debug, PartialEq, Eq, Structural)]
pub struct Vec2 {
    pub x: i32,
    pub y: i32,
}

/// The quotient as the machine's signed division computes it: the
/// magnitudes are divided and the signs combined, so it truncates toward
/// zero.
pub open spec fn div_trunc(x: int, d: int) -> int
    recommends
        d != 0,
{
    if x == 0 {
        0
    } else if x > 0 && d > 0 {
        x / d
    } else if x < 0 && d < 0 {
        (x * -1) / (d * -1)
    } else if x < 0 {
        ((x * -1) / d) * -1
    } else {
        (x / (d * -1)) * -1
    }
}

/// The remainder that belongs to `div_trunc`: it carries the sign of the
/// dividend.
pub open spec fn rem_trunc(x: int, d: int) -> int
    recommends
        d != 0,
{
    if x == 0 {
        0
    } else if x > 0 && d > 0 {
        x % d
    } else if x < 0 && d < 0 {
        ((x * -1) % (d * -1)) * -1
    } else if x < 0 {
        ((x * -1) % d) * -1
    } else {
        x % (d * -1)
    }
}

proof fn lemma_div_pos(a: int, b: int)
    requires
        0 <= a,
        1 <= b,
    ensures
        0 <= a / b <= a,
        0 <= a % b < b,
        b * (a / b) + a % b == a,
        b == 1 ==> a / b == a,
        b >= 2 ==> 2 * (a / b) <= a,
{
    lemma_fundamental_div_mod(a, b);
    lemma_mod_bound(a, b);
    assert(0 <= a / b <= a && (b == 1 ==> a / b == a) && (b >= 2 ==> 2 * (a / b) <= a))
        by (nonlinear_arith)
        requires
            a == b * (a / b) + (a % b),
            0 <= a % b < b,
            1 <= b,
            0 <= a,
    ;
}

/// Truncating quotient and remainder stay in the machine range as long
/// as the one overflowing pair is kept out, and together they recover
/// the dividend exactly.
proof fn lemma_trunc_div_rem(x: int, d: int)
    requires
        i32::MIN <= x <= i32::MAX,
        i32::MIN <= d <= i32::MAX,
        d != 0,
        !(x == i32::MIN && d == -1),
    ensures
        i32::MIN <= div_trunc(x, d) <= i32::MAX,
        i32::MIN <= rem_trunc(x, d) <= i32::MAX,
        div_trunc(x, d) * d + rem_trunc(x, d) == x,
{
    if x == 0 {
    } else if x > 0 && d > 0 {
        lemma_div_pos(x, d);
        assert((x / d) * d + x % d == x) by (nonlinear_arith)
            requires
                d * (x / d) + x % d == x,
        ;
    } else if x < 0 && d < 0 {
        let a = x * -1;
        let b = d * -1;
        lemma_div_pos(a, b);
        if x == i32::MIN {
            assert(b >= 2);
            assert(2 * (a / b) <= a);
        }
        assert(div_trunc(x, d) <= i32::MAX);
        assert(div_trunc(x, d) * d + rem_trunc(x, d) == x) by (nonlinear_arith)
            requires
                a == x * -1,
                b == d * -1,
                b * (a / b) + a % b == a,
                div_trunc(x, d) == a / b,
                rem_trunc(x, d) == (a % b) * -1,
        ;
    } else if x < 0 {
        let a = x * -1;
        lemma_div_pos(a, d);
        assert(div_trunc(x, d) * d + rem_trunc(x, d) == x) by (nonlinear_arith)
            requires
                a == x * -1,
                d * (a / d) + a % d == a,
                div_trunc(x, d) == (a / d) * -1,
                rem_trunc(x, d) == (a % d) * -1,
        ;
    } else {
        let b = d * -1;
        lemma_div_pos(x, b);
        assert(div_trunc(x, d) * d + rem_trunc(x, d) == x) by (nonlinear_arith)
            requires
                b == d * -1,
                b * (x / b) + x % b == x,
                div_trunc(x, d) == (x / b) * -1,
                rem_trunc(x, d) == x % b,
        ;
    }
}

impl Vec2 {
    pub fn new(x: i32, y: i32) -> (r: Self)
        ensures
            r.x == x,
            r.y == y,
    {
        Self { x, y }
    }

    /// Componentwise sum.
    pub fn add(self, rhs: Self) -> (r: Self)
        requires
            i32::MIN <= self.x + rhs.x <= i32::MAX,
            i32::MIN <= self.y + rhs.y <= i32::MAX,
        ensures
            r.x == self.x + rhs.x,
            r.y == self.y + rhs.y,
    {
        Self { x: self.x + rhs.x, y: self.y + rhs.y }
    }

    /// Componentwise difference.
    pub fn sub(self, rhs: Self) -> (r: Self)
        requires
            i32::MIN <= self.x - rhs.x <= i32::MAX,
            i32::MIN <= self.y - rhs.y <= i32::MAX,
        ensures
            r.x == self.x - rhs.x,
            r.y == self.y - rhs.y,
    {
        Self { x: self.x - rhs.x, y: self.y - rhs.y }
    }

    /// Componentwise product.
    pub fn mul(self, rhs: Self) -> (r: Self)
        requires
            i32::MIN <= self.x * rhs.x <= i32::MAX,
            i32::MIN <= self.y * rhs.y <= i32::MAX,
        ensures
            r.x == self.x * rhs.x,
            r.y == self.y * rhs.y,
    {
        Self { x: self.x * rhs.x, y: self.y * rhs.y }
    }

    /// Componentwise quotient, truncating toward zero as signed machine
    /// division does. Division by zero is a caller bug and stays out by
    /// precondition, as does the one quotient the machine cannot hold.
    pub fn div(self, rhs: Self) -> (r: Self)
        requires
            rhs.x != 0,
            rhs.y != 0,
            !(self.x == i32::MIN && rhs.x == -1),
            !(self.y == i32::MIN && rhs.y == -1),
        ensures
            r.x == div_trunc(self.x as int, rhs.x as int),
            r.y == div_trunc(self.y as int, rhs.y as int),
    {
        proof {
            lemma_trunc_div_rem(self.x as int, rhs.x as int);
            lemma_trunc_div_rem(self.y as int, rhs.y as int);
        }
        Self {
            x: self.x.checked_div(rhs.x).unwrap(),
            y: self.y.checked_div(rhs.y).unwrap(),
        }
    }

    /// Componentwise quotient and remainder in one step. The two pieces
    /// lose nothing: quotient times divisor plus remainder recovers each
    /// component exactly.
    pub fn div_rem(self, rhs: Self) -> (r: (Self, Self))
        requires
            rhs.x != 0,
            rhs.y != 0,
            !(self.x == i32::MIN && rhs.x == -1),
            !(self.y == i32::MIN && rhs.y == -1),
        ensures
            r.0.x == div_trunc(self.x as int, rhs.x as int),
            r.0.y == div_trunc(self.y as int, rhs.y as int),
            r.1.x == rem_trunc(self.x as int, rhs.x as int),
            r.1.y == rem_trunc(self.y as int, rhs.y as int),
            r.0.x * rhs.x + r.1.x == self.x,
            r.0.y * rhs.y + r.1.y == self.y,
    {
        proof {
            lemma_trunc_div_rem(self.x as int, rhs.x as int);
            lemma_trunc_div_rem(self.y as int, rhs.y as int);
        }
        (
            Self {
                x: self.x.checked_div(rhs.x).unwrap(),
                y: self.y.checked_div(rhs.y).unwrap(),
            },
            Self {
                x: self.x.checked_rem(rhs.x).unwrap(),
                y: self.y.checked_rem(rhs.y).unwrap(),
            },
        )
    }
}

impl Default for Vec2 {
    /// The origin vector.
    fn default() -> (r: Self)
        ensures
            r.x == 0,
            r.y == 0,
    {
        Self { x: 0, y: 0 }
    }
}

/// On non-negative dividends and positive divisors the truncating
/// quotient and remainder agree with the mathematical (Euclidean) ones.
pub proof fn lemma_trunc_matches_euclid(x: int, d: int)
    requires
        0 <= x,
        0 < d,
    ensures
        div_trunc(x, d) == x / d,
        rem_trunc(x, d) == x % d,
{
    lemma_div_pos(x, d);
    if x == 0 {
        lemma_fundamental_div_mod(x, d);
        lemma_mod_bound(x, d);
        assert(x / d == 0 && x % d == 0) by (nonlinear_arith)
            requires
                x == 0,
                x == d * (x / d) + (x % d),
                0 <= x % d < d,
                0 <= x / d <= x,
        ;
    }
}

} // verus!
