//! The primitive procedures: functions from evaluated arguments to a value.

use crate::error::{result_model, EvalError, Fault};
use crate::expression::{share, values_of, Builtin, Expr, Value};
use std::rc::Rc;
use vstd::arithmetic::div_mod::lemma_fundamental_div_mod;
use vstd::prelude::*;

verus! {

/// Whether `n` fits the number type.
pub open spec fn in_range(n: int) -> bool {
    i64::MIN <= n <= i64::MAX
}

/// The quotient of `a` by `b`, rounded toward zero (`b` is not zero).
pub open spec fn quotient(a: int, b: int) -> int {
    if a >= 0 && b > 0 {
        a / b
    } else if a < 0 && b < 0 {
        (-a) / (-b)
    } else if a < 0 {
        -((-a) / b)
    } else {
        -(a / (-b))
    }
}

/// What division toward zero leaves over: it has the sign of `a`.
pub open spec fn remainder(a: int, b: int) -> int {
    a - b * quotient(a, b)
}

/// The result `n` of the arithmetic primitive `b`, if it fits.
pub open spec fn number_or_overflow(b: Builtin, n: int) -> Result<Value, Fault> {
    if in_range(n) {
        Ok(Value::Number(n as i64))
    } else {
        Err(Fault::Overflow(b))
    }
}

/// The result of a primitive on two numbers.
pub open spec fn arithmetic_model(b: Builtin, x: i64, y: i64) -> Result<Value, Fault> {
    match b {
        Builtin::Add => number_or_overflow(b, x + y),
        Builtin::Sub => number_or_overflow(b, x - y),
        Builtin::Mul => number_or_overflow(b, x * y),
        Builtin::Div => if y == 0 {
            Err(Fault::DivisionByZero)
        } else {
            number_or_overflow(b, quotient(x as int, y as int))
        },
        Builtin::Rem => if y == 0 {
            Err(Fault::DivisionByZero)
        } else {
            Ok(Value::Number(remainder(x as int, y as int) as i64))
        },
        Builtin::NumEq => Ok(Value::Boolean(x == y)),
        _ => Err(Fault::Type(b)),
    }
}

/// Whether `b` is one of the primitives on two numbers.
pub open spec fn is_numeric(b: Builtin) -> bool {
    b == Builtin::Add || b == Builtin::Sub || b == Builtin::Mul || b == Builtin::Div || b
        == Builtin::Rem || b == Builtin::NumEq
}

/// The number of arguments that a primitive takes.
pub open spec fn arity(b: Builtin) -> nat {
    match b {
        Builtin::Head | Builtin::Tail | Builtin::IsNil => 1,
        _ => 2,
    }
}

/// The result of a primitive on evaluated arguments: an arity error where their
/// number is wrong, a type error where one is of the wrong variant.
pub open spec fn builtin_model(b: Builtin, args: Seq<Value>) -> Result<Value, Fault> {
    if args.len() != arity(b) {
        Err(Fault::Arity(b))
    } else if is_numeric(b) {
        match (args[0], args[1]) {
            (Value::Number(x), Value::Number(y)) => arithmetic_model(b, x, y),
            _ => Err(Fault::Type(b)),
        }
    } else {
        match b {
            Builtin::Cons => Ok(Value::Pair(Box::new(args[0]), Box::new(args[1]))),
            Builtin::Head => match args[0] {
                Value::Pair(first, _) => Ok(*first),
                _ => Err(Fault::Type(b)),
            },
            Builtin::Tail => match args[0] {
                Value::Pair(_, second) => Ok(*second),
                _ => Err(Fault::Type(b)),
            },
            _ => Ok(Value::Boolean(args[0] is Nil)),
        }
    }
}

/// The remainder is smaller in magnitude than the divisor, so it always fits.
pub proof fn lemma_remainder_fits(x: i64, y: i64)
    requires
        y != 0,
    ensures
        in_range(remainder(x as int, y as int)),
        x >= 0 ==> 0 <= remainder(x as int, y as int) <= x,
        x <= 0 ==> x <= remainder(x as int, y as int) <= 0,
{
    let a = x as int;
    let b = y as int;
    if a >= 0 && b > 0 {
        lemma_fundamental_div_mod(a, b);
        assert(remainder(a, b) == a % b);
    } else if a < 0 && b < 0 {
        lemma_fundamental_div_mod(-a, -b);
        assert(b * ((-a) / (-b)) == -((-b) * ((-a) / (-b)))) by (nonlinear_arith);
        assert(remainder(a, b) == -((-a) % (-b)));
    } else if a < 0 {
        lemma_fundamental_div_mod(-a, b);
        assert(b * (-((-a) / b)) == -(b * ((-a) / b))) by (nonlinear_arith);
        assert(remainder(a, b) == -((-a) % b));
    } else {
        lemma_fundamental_div_mod(a, -b);
        assert(b * (-(a / (-b))) == (-b) * (a / (-b))) by (nonlinear_arith);
        assert(remainder(a, b) == a % (-b));
    }
}

fn arithmetic(b: Builtin, x: i64, y: i64) -> (r: Result<Rc<Expr>, EvalError>)
    requires
        is_numeric(b),
    ensures
        result_model(r) == arithmetic_model(b, x, y),
{
    let number = match b {
        Builtin::Add => x.checked_add(y),
        Builtin::Sub => x.checked_sub(y),
        Builtin::Mul => x.checked_mul(y),
        Builtin::Div => {
            if y == 0 {
                return Err(EvalError::DivisionByZero);
            }
            proof {
                assert(x as int * -1 == -(x as int));
                assert(y as int * -1 == -(y as int));
                if x == 0 {
                    lemma_zero_quotient(y as int);
                }
            }
            x.checked_div(y)
        },
        Builtin::Rem => {
            if y == 0 {
                return Err(EvalError::DivisionByZero);
            }
            proof {
                lemma_remainder_fits(x, y);
            }
            if y == -1 {
                proof {
                    assert(remainder(x as int, -1) == 0) by (nonlinear_arith)
                        requires
                            quotient(x as int, -1) == -(x as int),
                    ;
                }
                Some(0)
            } else {
                proof {
                    lemma_rem_agrees(x, y);
                }
                x.checked_rem(y)
            }
        },
        _ => {
            return Ok(Rc::new(Expr::Boolean(x == y)));
        },
    };
    match number {
        Some(n) => Ok(Rc::new(Expr::Number(n))),
        None => Err(EvalError::Overflow(b)),
    }
}

proof fn lemma_zero_quotient(b: int)
    requires
        b != 0,
    ensures
        quotient(0, b) == 0,
        b > 0 ==> 0int / b == 0,
        b < 0 ==> 0int / (-b) == 0,
{
    if b > 0 {
        assert(0int / b == 0) by (nonlinear_arith)
            requires
                b > 0,
        ;
    } else {
        assert(0int / (-b) == 0) by (nonlinear_arith)
            requires
                -b > 0,
        ;
    }
}

/// The remainder as defined here is the one that the machine computes.
proof fn lemma_rem_agrees(x: i64, y: i64)
    requires
        y != 0,
        y != -1,
    ensures
        x.checked_rem(y) == Some(remainder(x as int, y as int) as i64),
{
    let a = x as int;
    let b = y as int;
    lemma_remainder_fits(x, y);
    assert(a * -1 == -a);
    assert(b * -1 == -b);
    if a == 0 {
        lemma_zero_quotient(b);
        assert(b * 0 == 0);
    } else if a > 0 && b > 0 {
        lemma_fundamental_div_mod(a, b);
    } else if a < 0 && b < 0 {
        lemma_fundamental_div_mod(-a, -b);
        assert(b * ((-a) / (-b)) == -((-b) * ((-a) / (-b)))) by (nonlinear_arith);
    } else if a < 0 {
        lemma_fundamental_div_mod(-a, b);
        assert(b * (-((-a) / b)) == -(b * ((-a) / b))) by (nonlinear_arith);
    } else {
        lemma_fundamental_div_mod(a, -b);
        assert(b * (-(a / (-b))) == (-b) * (a / (-b))) by (nonlinear_arith);
    }
}

/// Applies the primitive `b` to evaluated arguments.
pub fn apply_builtin(b: Builtin, args: &Vec<Rc<Expr>>) -> (r: Result<Rc<Expr>, EvalError>)
    ensures
        result_model(r) == builtin_model(b, values_of(args@)),
{
    match b {
        Builtin::Head | Builtin::Tail | Builtin::IsNil => {
            if args.len() != 1 {
                return Err(EvalError::Arity(b));
            }
            match (b, &*args[0]) {
                (Builtin::Head, Expr::Pair(first, _)) => Ok(share(first)),
                (Builtin::Tail, Expr::Pair(_, second)) => Ok(share(second)),
                (Builtin::IsNil, Expr::Nil) => Ok(Rc::new(Expr::Boolean(true))),
                (Builtin::IsNil, _) => Ok(Rc::new(Expr::Boolean(false))),
                _ => Err(EvalError::Type(b)),
            }
        },
        Builtin::Cons => {
            if args.len() != 2 {
                return Err(EvalError::Arity(b));
            }
            Ok(Rc::new(Expr::Pair(share(&args[0]), share(&args[1]))))
        },
        _ => {
            if args.len() != 2 {
                return Err(EvalError::Arity(b));
            }
            match (&*args[0], &*args[1]) {
                (Expr::Number(x), Expr::Number(y)) => arithmetic(b, *x, *y),
                _ => Err(EvalError::Type(b)),
            }
        },
    }
}

} // verus!
