use vstd::prelude::*;
use crate::ast::{wf_value, VariableValue};
use crate::error::{RunFault, RuntimeError};
use crate::tokens::{lowest_terms, lowest_terms_keeps_value, reduce, ArithmeticOp, Real};

verus! {

pub open spec fn in_i64(n: int) -> bool {
    i64::MIN <= n <= i64::MAX
}

/// A value read as a fraction: an integer `n` is `n / 1`.
pub open spec fn fraction(v: VariableValue) -> (int, int) {
    match v {
        VariableValue::Integer(n) => (n as int, 1),
        VariableValue::Real(x) => (x.num as int, x.den as int),
        VariableValue::Absent => (0, 1),
    }
}

pub open spec fn abs(n: int) -> int {
    if n < 0 {
        -n
    } else {
        n
    }
}

/// Division of integers rounded toward zero.
pub open spec fn trunc_div(a: int, b: int) -> int {
    let q = abs(a) / abs(b);
    if (a < 0) != (b < 0) {
        -q
    } else {
        q
    }
}

/// The integer part of a value, rounded toward zero.
pub open spec fn truncate(v: VariableValue) -> int {
    let (n, d) = fraction(v);
    trunc_div(n, d)
}

/// The integer `n`, where it fits.
pub open spec fn integer_result(op: ArithmeticOp, n: int) -> Result<VariableValue, RunFault> {
    if in_i64(n) {
        Ok(VariableValue::Integer(n as i64))
    } else {
        Err(RunFault::Overflow { op })
    }
}

/// The real `n / d` (`d` nonzero) in lowest terms with a positive denominator,
/// where both parts fit.
pub open spec fn real_result(op: ArithmeticOp, n: int, d: int) -> Result<VariableValue, RunFault> {
    let (n2, d2) = if d < 0 {
        (-n, -d)
    } else {
        (n, d)
    };
    let (n3, d3) = lowest_terms(n2, d2);
    if in_i64(n3) && in_i64(d3) {
        Ok(VariableValue::Real(Real { num: n3 as i64, den: d3 as i64 }))
    } else {
        Err(RunFault::Overflow { op })
    }
}

/// `l op r`: integers stay integers under `+ - *`; a real operand widens the
/// other; `/` always gives a real; `DIV` truncates both operands and then
/// divides, rounding toward zero. An absent operand gives an absent result.
pub open spec fn binary(op: ArithmeticOp, l: VariableValue, r: VariableValue) -> Result<VariableValue, RunFault> {
    if l is Absent || r is Absent {
        Ok(VariableValue::Absent)
    } else {
        let (a, b) = fraction(l);
        let (c, d) = fraction(r);
        let both_int = l is Integer && r is Integer;
        match op {
            ArithmeticOp::Plus => if both_int {
                integer_result(op, a + c)
            } else {
                real_result(op, a * d + c * b, b * d)
            },
            ArithmeticOp::Minus => if both_int {
                integer_result(op, a - c)
            } else {
                real_result(op, a * d - c * b, b * d)
            },
            ArithmeticOp::Mul => if both_int {
                integer_result(op, a * c)
            } else {
                real_result(op, a * c, b * d)
            },
            ArithmeticOp::RealDiv => if c == 0 {
                Err(RunFault::DivisionByZero { op })
            } else {
                real_result(op, a * d, b * c)
            },
            ArithmeticOp::IntDiv => {
                let x = truncate(l);
                let y = truncate(r);
                if y == 0 {
                    Err(RunFault::DivisionByZero { op })
                } else {
                    integer_result(op, trunc_div(x, y))
                }
            },
        }
    }
}

/// `op x` for a unary `+` or `-`: the type is kept.
pub open spec fn unary(op: ArithmeticOp, x: VariableValue) -> Result<VariableValue, RunFault> {
    if op == ArithmeticOp::Minus {
        match x {
            VariableValue::Integer(n) => integer_result(op, -n),
            VariableValue::Real(q) => if in_i64(-q.num) {
                Ok(VariableValue::Real(Real { num: (-q.num) as i64, den: q.den }))
            } else {
                Err(RunFault::Overflow { op })
            },
            VariableValue::Absent => Ok(VariableValue::Absent),
        }
    } else {
        Ok(x)
    }
}

/// The value stored by an assignment of `v` over `old`: `v` is coerced into
/// the type of the value already stored, an integer widened to a real and a
/// real truncated toward zero to an integer. On a first assignment (`old` is
/// `None`) `v` is stored as it is, and its type becomes the variable's.
pub open spec fn coerce(old: Option<VariableValue>, v: VariableValue) -> VariableValue {
    match (old, v) {
        (Some(VariableValue::Real(_)), VariableValue::Integer(n)) => VariableValue::Real(
            Real { num: n, den: 1 },
        ),
        (Some(VariableValue::Integer(_)), VariableValue::Real(_)) => VariableValue::Integer(
            truncate(v) as i64,
        ),
        _ => v,
    }
}

fn magnitude(n: i128) -> (r: u128)
    requires
        n > i128::MIN,
    ensures
        r == abs(n as int),
{
    if n < 0 {
        (-n) as u128
    } else {
        n as u128
    }
}

/// Division of integers rounded toward zero.
fn trunc_div_exec(a: i128, b: i128) -> (r: i128)
    requires
        b != 0,
        -0x1_0000_0000_0000_0000i128 <= a <= 0x1_0000_0000_0000_0000i128,
        -0x1_0000_0000_0000_0000i128 <= b <= 0x1_0000_0000_0000_0000i128,
    ensures
        r == trunc_div(a as int, b as int),
        b >= 1 && a >= 0 ==> 0 <= r <= a,
        b >= 1 && a < 0 ==> a <= r <= 0,
{
    let q = magnitude(a) / magnitude(b);
    assert(q <= abs(a as int)) by (nonlinear_arith)
        requires
            q == abs(a as int) / abs(b as int),
            abs(b as int) >= 1,
            abs(a as int) >= 0,
    ;
    if (a < 0) != (b < 0) {
        -(q as i128)
    } else {
        q as i128
    }
}

fn integer_result_exec(op: ArithmeticOp, n: i128) -> (r: Result<VariableValue, RuntimeError>)
    ensures
        match integer_result(op, n as int) {
            Ok(v) => r == Ok::<VariableValue, RuntimeError>(v),
            Err(f) => r matches Err(e) && e@ == f,
        },
{
    if i64::MIN as i128 <= n && n <= i64::MAX as i128 {
        Ok(VariableValue::Integer(n as i64))
    } else {
        Err(RuntimeError::Overflow { op })
    }
}

fn real_result_exec(op: ArithmeticOp, n: i128, d: i128) -> (r: Result<VariableValue, RuntimeError>)
    requires
        d != 0,
        n > i128::MIN,
        d > i128::MIN,
    ensures
        match real_result(op, n as int, d as int) {
            Ok(v) => r == Ok::<VariableValue, RuntimeError>(v),
            Err(f) => r matches Err(e) && e@ == f,
        },
        r matches Ok(v) ==> wf_value(v),
{
    let (n2, d2) = if d < 0 {
        (-n, -d)
    } else {
        (n, d)
    };
    let (n3, d3) = reduce(n2, d2);
    if i64::MIN as i128 <= n3 && n3 <= i64::MAX as i128 && i64::MIN as i128 <= d3 && d3
        <= i64::MAX as i128 {
        Ok(VariableValue::Real(Real { num: n3 as i64, den: d3 as i64 }))
    } else {
        Err(RuntimeError::Overflow { op })
    }
}

/// `/` gives a real wherever it succeeds, also on two integers.
pub proof fn real_division_yields_real(l: VariableValue, r: VariableValue)
    requires
        !(l is Absent),
        !(r is Absent),
    ensures
        binary(ArithmeticOp::RealDiv, l, r) matches Ok(v) ==> v is Real,
{
}

/// A division whose right operand is zero (after truncation, for `DIV`)
/// fails when it is evaluated, with `DivisionByZero`.
pub proof fn division_by_zero_fails_when_evaluated(op: ArithmeticOp, l: VariableValue, r: VariableValue)
    requires
        !(l is Absent),
        !(r is Absent),
        (op == ArithmeticOp::RealDiv && fraction(r).0 == 0) || (op == ArithmeticOp::IntDiv
            && truncate(r) == 0),
    ensures
        binary(op, l, r) == Err::<VariableValue, RunFault>(RunFault::DivisionByZero { op }),
{
}

/// The fraction, not reduced, that `op` makes of `a / b` and `c / d`.
pub open spec fn exact(op: ArithmeticOp, a: int, b: int, c: int, d: int) -> (int, int) {
    match op {
        ArithmeticOp::Plus => (a * d + c * b, b * d),
        ArithmeticOp::Minus => (a * d - c * b, b * d),
        ArithmeticOp::Mul => (a * c, b * d),
        _ => (a * d, b * c),
    }
}

/// Arithmetic on reals is exact: where `+`, `-`, `*` with a real operand, or
/// `/`, succeeds, its result is the exact sum, difference, product or
/// quotient of the two operands.
pub proof fn real_arithmetic_is_exact(op: ArithmeticOp, l: VariableValue, r: VariableValue)
    requires
        wf_value(l),
        wf_value(r),
        !(l is Absent),
        !(r is Absent),
        op == ArithmeticOp::RealDiv || (op != ArithmeticOp::IntDiv && !(l is Integer
            && r is Integer)),
    ensures
        binary(op, l, r) matches Ok(v) ==> (v matches VariableValue::Real(x) && x.den > 0
            && x.num * exact(op, fraction(l).0, fraction(l).1, fraction(r).0, fraction(r).1).1
            == exact(op, fraction(l).0, fraction(l).1, fraction(r).0, fraction(r).1).0 * x.den),
{
    let (a, b) = fraction(l);
    let (c, d) = fraction(r);
    let (n, m) = exact(op, a, b, c, d);
    if binary(op, l, r) is Ok {
        if op == ArithmeticOp::RealDiv {
            assert(c != 0);
            assert(b * c != 0) by (nonlinear_arith)
                requires
                    b > 0,
                    c != 0,
            ;
        } else {
            assert(b * d != 0) by (nonlinear_arith)
                requires
                    b > 0,
                    d > 0,
            ;
        }
        let (n2, m2) = if m < 0 {
            (-n, -m)
        } else {
            (n, m)
        };
        lowest_terms_keeps_value(n2, m2);
        let (n3, m3) = lowest_terms(n2, m2);
        assert(n3 * m == n * m3) by (nonlinear_arith)
            requires
                n2 * m3 == n3 * m2,
                (n2 == n && m2 == m) || (n2 == -n && m2 == -m),
        ;
    }
}

impl VariableValue {
    /// This value as an integer: a real is truncated toward zero.
    pub fn as_integer(&self) -> (r: VariableValue)
        requires
            wf_value(*self),
        ensures
            *self is Absent ==> r is Absent,
            !(*self is Absent) ==> in_i64(truncate(*self)) && r == VariableValue::Integer(
                truncate(*self) as i64,
            ),
    {
        match *self {
            VariableValue::Integer(n) => {
                assert(trunc_div(n as int, 1) == n) by (nonlinear_arith);
                VariableValue::Integer(n)
            },
            VariableValue::Real(x) => {
                let t = trunc_div_exec(x.num as i128, x.den as i128);
                VariableValue::Integer(t as i64)
            },
            VariableValue::Absent => VariableValue::Absent,
        }
    }

    /// This value as a real: an integer `n` becomes `n / 1`.
    pub fn as_real(&self) -> (r: VariableValue)
        ensures
            *self matches VariableValue::Integer(n) ==> r == VariableValue::Real(
                Real { num: n, den: 1 },
            ),
            !(*self is Integer) ==> r == *self,
    {
        match *self {
            VariableValue::Integer(n) => VariableValue::Real(Real { num: n, den: 1 }),
            _ => *self,
        }
    }

    /// Stores `rhs` in place of this value, coerced into this value's type:
    /// an integer is widened to a real, a real truncated toward zero to an
    /// integer. The stored value is returned.
    pub fn assign(&mut self, rhs: VariableValue) -> (r: VariableValue)
        requires
            wf_value(rhs),
        ensures
            *final(self) == coerce(Some(*old(self)), rhs),
            r == *final(self),
            wf_value(r),
    {
        *self = match (*self, rhs) {
            (VariableValue::Real(_), VariableValue::Integer(_)) => rhs.as_real(),
            (VariableValue::Integer(_), VariableValue::Real(_)) => rhs.as_integer(),
            _ => rhs,
        };
        *self
    }
}

/// A value as a fraction, through `as_real`.
fn fraction_exec(v: VariableValue) -> (r: (i128, i128))
    requires
        !(v is Absent),
    ensures
        r.0 == fraction(v).0,
        r.1 == fraction(v).1,
{
    match v.as_real() {
        VariableValue::Real(x) => (x.num as i128, x.den as i128),
        _ => (0, 1),
    }
}

/// `l op r`: see the spec function `binary`.
pub fn binary_op(op: ArithmeticOp, l: VariableValue, r: VariableValue) -> (res: Result<VariableValue, RuntimeError>)
    requires
        wf_value(l),
        wf_value(r),
    ensures
        match binary(op, l, r) {
            Ok(v) => res == Ok::<VariableValue, RuntimeError>(v),
            Err(f) => res matches Err(e) && e@ == f,
        },
        res matches Ok(v) ==> wf_value(v),
{
    match (l, r) {
        (VariableValue::Absent, _) => {
            return Ok(VariableValue::Absent);
        },
        (_, VariableValue::Absent) => {
            return Ok(VariableValue::Absent);
        },
        _ => {},
    }
    let (a, b) = fraction_exec(l);
    let (c, d) = fraction_exec(r);
    let both_int = match (l, r) {
        (VariableValue::Integer(_), VariableValue::Integer(_)) => true,
        _ => false,
    };
    let lim: i128 = 0x8000_0000_0000_0000;
    assert(-lim <= a < lim && -lim <= c < lim && 1 <= b < lim && 1 <= d < lim);
    assert(-lim * (lim - 1) <= a * d <= lim * (lim - 1)) by (nonlinear_arith)
        requires
            -lim <= a < lim,
            1 <= d < lim,
    ;
    assert(-lim * (lim - 1) <= c * b <= lim * (lim - 1)) by (nonlinear_arith)
        requires
            -lim <= c < lim,
            1 <= b < lim,
    ;
    assert(-lim * lim <= a * c <= lim * lim) by (nonlinear_arith)
        requires
            -lim <= a < lim,
            -lim <= c < lim,
    ;
    assert(1 <= b * d <= lim * lim) by (nonlinear_arith)
        requires
            1 <= b < lim,
            1 <= d < lim,
    ;
    assert(-lim * (lim - 1) <= b * c <= lim * (lim - 1)) by (nonlinear_arith)
        requires
            -lim <= c < lim,
            1 <= b < lim,
    ;
    match op {
        ArithmeticOp::Plus => if both_int {
            integer_result_exec(op, a + c)
        } else {
            real_result_exec(op, a * d + c * b, b * d)
        },
        ArithmeticOp::Minus => if both_int {
            integer_result_exec(op, a - c)
        } else {
            real_result_exec(op, a * d - c * b, b * d)
        },
        ArithmeticOp::Mul => if both_int {
            integer_result_exec(op, a * c)
        } else {
            real_result_exec(op, a * c, b * d)
        },
        ArithmeticOp::RealDiv => if c == 0 {
            Err(RuntimeError::DivisionByZero { op })
        } else {
            assert(b * c != 0) by (nonlinear_arith)
                requires
                    b >= 1,
                    c != 0,
            ;
            real_result_exec(op, a * d, b * c)
        },
        ArithmeticOp::IntDiv => {
            let x: i128 = match l.as_integer() {
                VariableValue::Integer(n) => n as i128,
                _ => 0,
            };
            let y: i128 = match r.as_integer() {
                VariableValue::Integer(n) => n as i128,
                _ => 0,
            };
            if y == 0 {
                Err(RuntimeError::DivisionByZero { op })
            } else {
                integer_result_exec(op, trunc_div_exec(x, y))
            }
        },
    }
}

/// `op x`: see the spec function `unary`.
pub fn unary_op(op: ArithmeticOp, x: VariableValue) -> (res: Result<VariableValue, RuntimeError>)
    requires
        wf_value(x),
    ensures
        match unary(op, x) {
            Ok(v) => res == Ok::<VariableValue, RuntimeError>(v),
            Err(f) => res matches Err(e) && e@ == f,
        },
        res matches Ok(v) ==> wf_value(v),
{
    match op {
        ArithmeticOp::Minus => match x {
            VariableValue::Integer(n) => integer_result_exec(op, -(n as i128)),
            VariableValue::Real(q) => if q.num == i64::MIN {
                Err(RuntimeError::Overflow { op })
            } else {
                Ok(VariableValue::Real(Real { num: -q.num, den: q.den }))
            },
            VariableValue::Absent => Ok(VariableValue::Absent),
        },
        _ => Ok(x),
    }
}

} // verus!
