use vstd::prelude::*;
use crate::float::{
    float_add, float_add_bits, float_div, float_div_bits, float_eq, float_eq_bits, float_le,
    float_le_bits, float_lt, float_lt_bits, float_mul, float_mul_bits, float_pow, float_pow_bits,
    float_rem, float_rem_bits, float_sub, float_sub_bits,
};
use crate::value::{RunError, Value, ValueV};

verus! {

/// A binary operator tag.
#[derive(Clone, Copy)]
pub enum BinOp {
    Add,
    Sub,
    Mul,
    Div,
    Mod,
    Pow,
    Eq,
    Ne,
    Gt,
    Ge,
    Lt,
    Le,
    And,
    Or,
}

/// A normalized operand: one of the literal kinds an operator can dispatch
/// on, or `Opaque` for every other normalized form, which no operator accepts.
pub enum Opnd {
    Int(i32),
    Bool(bool),
    Float(u32),
    Str(String),
    Opaque,
}

pub enum OpndV {
    Int(int),
    Bool(bool),
    Float(u32),
    Str(Seq<char>),
    Opaque,
}

impl View for Opnd {
    type V = OpndV;

    open spec fn view(&self) -> OpndV {
        match self {
            Opnd::Int(i) => OpndV::Int(*i as int),
            Opnd::Bool(b) => OpndV::Bool(*b),
            Opnd::Float(f) => OpndV::Float(*f),
            Opnd::Str(s) => OpndV::Str(s@),
            Opnd::Opaque => OpndV::Opaque,
        }
    }
}

pub open spec fn res_v(r: Result<Value, RunError>) -> Result<ValueV, RunError> {
    match r {
        Ok(v) => Ok(v@),
        Err(e) => Err(e),
    }
}

/// Truncated (round toward zero) quotient, as machine division computes it.
pub open spec fn div_trunc(l: int, r: int) -> int {
    let q = abs_i(l) / abs_i(r);
    if (l < 0) == (r < 0) {
        q
    } else {
        -q
    }
}

/// Remainder with the sign of the dividend, as machine remainder computes it.
pub open spec fn rem_trunc(l: int, r: int) -> int {
    let m = abs_i(l) % abs_i(r);
    if l < 0 {
        -m
    } else {
        m
    }
}

pub open spec fn abs_i(v: int) -> int {
    if v < 0 {
        -v
    } else {
        v
    }
}

pub open spec fn in_i32(v: int) -> bool {
    i32::MIN <= v <= i32::MAX
}

/// Iterated product with a 32-bit range check after every step.
pub open spec fn ipow_checked(base: int, e: nat) -> Result<int, RunError>
    decreases e,
{
    if e == 0 {
        Ok(1)
    } else {
        match ipow_checked(base, (e - 1) as nat) {
            Ok(a) => {
                let p = a * base;
                if in_i32(p) {
                    Ok(p)
                } else {
                    Err(RunError::ArithmeticError)
                }
            },
            Err(er) => Err(er),
        }
    }
}

/// Lexicographic order on character sequences.
pub open spec fn str_lt(a: Seq<char>, b: Seq<char>) -> bool
    decreases a.len(),
{
    if b.len() == 0 {
        false
    } else if a.len() == 0 {
        true
    } else if (a[0] as u32) < (b[0] as u32) {
        true
    } else if (a[0] as u32) > (b[0] as u32) {
        false
    } else {
        str_lt(a.drop_first(), b.drop_first())
    }
}

/// What each operator yields on a pair of normalized operands: arithmetic on
/// matching numeric kinds (`add` also concatenates strings), comparisons on
/// matching ordered kinds, boolean connectives on booleans, and a type
/// mismatch on every other combination.
pub open spec fn apply_binop_s(op: BinOp, l: OpndV, r: OpndV) -> Result<ValueV, RunError> {
    match op {
        BinOp::Add => match (l, r) {
            (OpndV::Int(a), OpndV::Int(b)) => if in_i32(a + b) {
                Ok(ValueV::Int(a + b))
            } else {
                Err(RunError::ArithmeticError)
            },
            (OpndV::Float(a), OpndV::Float(b)) => Ok(ValueV::Float(float_add(a, b))),
            (OpndV::Str(a), OpndV::Str(b)) => Ok(ValueV::Str(a + b)),
            _ => Err(RunError::TypeMismatch),
        },
        BinOp::Sub => match (l, r) {
            (OpndV::Int(a), OpndV::Int(b)) => if in_i32(a - b) {
                Ok(ValueV::Int(a - b))
            } else {
                Err(RunError::ArithmeticError)
            },
            (OpndV::Float(a), OpndV::Float(b)) => Ok(ValueV::Float(float_sub(a, b))),
            _ => Err(RunError::TypeMismatch),
        },
        BinOp::Mul => match (l, r) {
            (OpndV::Int(a), OpndV::Int(b)) => if in_i32(a * b) {
                Ok(ValueV::Int(a * b))
            } else {
                Err(RunError::ArithmeticError)
            },
            (OpndV::Float(a), OpndV::Float(b)) => Ok(ValueV::Float(float_mul(a, b))),
            _ => Err(RunError::TypeMismatch),
        },
        BinOp::Div => match (l, r) {
            (OpndV::Int(a), OpndV::Int(b)) => if b == 0 || !in_i32(div_trunc(a, b)) {
                Err(RunError::ArithmeticError)
            } else {
                Ok(ValueV::Int(div_trunc(a, b)))
            },
            (OpndV::Float(a), OpndV::Float(b)) => Ok(ValueV::Float(float_div(a, b))),
            _ => Err(RunError::TypeMismatch),
        },
        BinOp::Mod => match (l, r) {
            (OpndV::Int(a), OpndV::Int(b)) => if b == 0 {
                Err(RunError::ArithmeticError)
            } else {
                Ok(ValueV::Int(rem_trunc(a, b)))
            },
            (OpndV::Float(a), OpndV::Float(b)) => Ok(ValueV::Float(float_rem(a, b))),
            _ => Err(RunError::TypeMismatch),
        },
        BinOp::Pow => match (l, r) {
            (OpndV::Int(a), OpndV::Int(b)) => if b < 0 {
                Err(RunError::ArithmeticError)
            } else {
                match ipow_checked(a, b as nat) {
                    Ok(p) => Ok(ValueV::Int(p)),
                    Err(er) => Err(er),
                }
            },
            (OpndV::Float(a), OpndV::Float(b)) => Ok(ValueV::Float(float_pow(a, b))),
            _ => Err(RunError::TypeMismatch),
        },
        BinOp::Eq => match (l, r) {
            (OpndV::Int(a), OpndV::Int(b)) => Ok(ValueV::Bool(a == b)),
            (OpndV::Float(a), OpndV::Float(b)) => Ok(ValueV::Bool(float_eq(a, b))),
            (OpndV::Str(a), OpndV::Str(b)) => Ok(ValueV::Bool(a == b)),
            _ => Err(RunError::TypeMismatch),
        },
        BinOp::Ne => match (l, r) {
            (OpndV::Int(a), OpndV::Int(b)) => Ok(ValueV::Bool(a != b)),
            (OpndV::Float(a), OpndV::Float(b)) => Ok(ValueV::Bool(!float_eq(a, b))),
            (OpndV::Str(a), OpndV::Str(b)) => Ok(ValueV::Bool(a != b)),
            _ => Err(RunError::TypeMismatch),
        },
        BinOp::Gt => match (l, r) {
            (OpndV::Int(a), OpndV::Int(b)) => Ok(ValueV::Bool(a > b)),
            (OpndV::Float(a), OpndV::Float(b)) => Ok(ValueV::Bool(float_lt(b, a))),
            (OpndV::Str(a), OpndV::Str(b)) => Ok(ValueV::Bool(str_lt(b, a))),
            _ => Err(RunError::TypeMismatch),
        },
        BinOp::Ge => match (l, r) {
            (OpndV::Int(a), OpndV::Int(b)) => Ok(ValueV::Bool(a >= b)),
            (OpndV::Float(a), OpndV::Float(b)) => Ok(ValueV::Bool(float_le(b, a))),
            (OpndV::Str(a), OpndV::Str(b)) => Ok(ValueV::Bool(!str_lt(a, b))),
            _ => Err(RunError::TypeMismatch),
        },
        BinOp::Lt => match (l, r) {
            (OpndV::Int(a), OpndV::Int(b)) => Ok(ValueV::Bool(a < b)),
            (OpndV::Float(a), OpndV::Float(b)) => Ok(ValueV::Bool(float_lt(a, b))),
            (OpndV::Str(a), OpndV::Str(b)) => Ok(ValueV::Bool(str_lt(a, b))),
            _ => Err(RunError::TypeMismatch),
        },
        BinOp::Le => match (l, r) {
            (OpndV::Int(a), OpndV::Int(b)) => Ok(ValueV::Bool(a <= b)),
            (OpndV::Float(a), OpndV::Float(b)) => Ok(ValueV::Bool(float_le(a, b))),
            (OpndV::Str(a), OpndV::Str(b)) => Ok(ValueV::Bool(!str_lt(b, a))),
            _ => Err(RunError::TypeMismatch),
        },
        BinOp::And => match (l, r) {
            (OpndV::Bool(a), OpndV::Bool(b)) => Ok(ValueV::Bool(a && b)),
            _ => Err(RunError::TypeMismatch),
        },
        BinOp::Or => match (l, r) {
            (OpndV::Bool(a), OpndV::Bool(b)) => Ok(ValueV::Bool(a || b)),
            _ => Err(RunError::TypeMismatch),
        },
    }
}

/// Logical negation on a boolean operand; a type mismatch on everything else.
pub open spec fn apply_not_s(v: OpndV) -> Result<ValueV, RunError> {
    match v {
        OpndV::Bool(b) => Ok(ValueV::Bool(!b)),
        _ => Err(RunError::TypeMismatch),
    }
}

fn add_i32(l: i32, r: i32) -> (res: Result<i32, RunError>)
    ensures
        match res {
            Ok(v) => in_i32(l + r) && v == l + r,
            Err(e) => !in_i32(l + r) && e == RunError::ArithmeticError,
        },
{
    let s: i64 = l as i64 + r as i64;
    if s < i32::MIN as i64 || s > i32::MAX as i64 {
        Err(RunError::ArithmeticError)
    } else {
        Ok(s as i32)
    }
}

fn sub_i32(l: i32, r: i32) -> (res: Result<i32, RunError>)
    ensures
        match res {
            Ok(v) => in_i32(l - r) && v == l - r,
            Err(e) => !in_i32(l - r) && e == RunError::ArithmeticError,
        },
{
    let s: i64 = l as i64 - r as i64;
    if s < i32::MIN as i64 || s > i32::MAX as i64 {
        Err(RunError::ArithmeticError)
    } else {
        Ok(s as i32)
    }
}

fn mul_i32(l: i32, r: i32) -> (res: Result<i32, RunError>)
    ensures
        match res {
            Ok(v) => in_i32(l * r) && v == l * r,
            Err(e) => !in_i32(l * r) && e == RunError::ArithmeticError,
        },
{
    proof {
        assert((l as int) * (r as int) <= 0x4000_0000_0000_0000 && (l as int) * (r as int)
            >= -0x4000_0000_0000_0000) by (nonlinear_arith)
            requires
                -0x8000_0000 <= l as int <= 0x7FFF_FFFF,
                -0x8000_0000 <= r as int <= 0x7FFF_FFFF,
        ;
    }
    let s: i64 = l as i64 * r as i64;
    if s < i32::MIN as i64 || s > i32::MAX as i64 {
        Err(RunError::ArithmeticError)
    } else {
        Ok(s as i32)
    }
}

fn abs_u64(v: i32) -> (r: u64)
    ensures
        r == abs_i(v as int),
{
    if v < 0 {
        (-(v as i64)) as u64
    } else {
        v as u64
    }
}

fn div_i32(l: i32, r: i32) -> (res: Result<i32, RunError>)
    requires
        r != 0,
    ensures
        match res {
            Ok(v) => in_i32(div_trunc(l as int, r as int)) && v == div_trunc(l as int, r as int),
            Err(e) => !in_i32(div_trunc(l as int, r as int)) && e == RunError::ArithmeticError,
        },
{
    let la = abs_u64(l);
    let ra = abs_u64(r);
    let q = la / ra;
    let neg: bool = (l < 0) != (r < 0);
    if neg {
        if q > (i32::MAX as u64) + 1 {
            Err(RunError::ArithmeticError)
        } else if q == (i32::MAX as u64) + 1 {
            Ok(i32::MIN)
        } else {
            Ok(-(q as i32))
        }
    } else {
        if q > i32::MAX as u64 {
            Err(RunError::ArithmeticError)
        } else {
            Ok(q as i32)
        }
    }
}

fn rem_i32(l: i32, r: i32) -> (res: Result<i32, RunError>)
    requires
        r != 0,
    ensures
        res matches Ok(v) && v == rem_trunc(l as int, r as int),
{
    let la = abs_u64(l);
    let ra = abs_u64(r);
    let m = la % ra;
    proof {
        assert(m < ra) by {
            vstd::arithmetic::div_mod::lemma_mod_bound(la as int, ra as int);
        }
    }
    if l < 0 {
        Ok(-(m as i64) as i32)
    } else {
        Ok(m as i32)
    }
}

fn pow_i32(l: i32, r: i32) -> (res: Result<i32, RunError>)
    ensures
        match res {
            Ok(v) => r >= 0 && ipow_checked(l as int, r as nat) == Ok::<int, RunError>(v as int),
            Err(e) => e == RunError::ArithmeticError && (r < 0 || ipow_checked(l as int, r as nat)
                == Err::<int, RunError>(RunError::ArithmeticError)),
        },
{
    if r < 0 {
        return Err(RunError::ArithmeticError);
    }
    let e: u32 = r as u32;
    let mut acc: i32 = 1;
    let mut k: u32 = 0;
    while k < e
        invariant
            k <= e,
            r >= 0,
            e as int == r as int,
            ipow_checked(l as int, k as nat) == Ok::<int, RunError>(acc as int),
        decreases e - k,
    {
        proof {
            assert((acc as int) * (l as int) <= 0x4000_0000_0000_0000 && (acc as int) * (l as int)
                >= -0x4000_0000_0000_0000) by (nonlinear_arith)
                requires
                    -0x8000_0000 <= acc as int <= 0x7FFF_FFFF,
                    -0x8000_0000 <= l as int <= 0x7FFF_FFFF,
            ;
        }
        let p: i64 = acc as i64 * l as i64;
        if p < i32::MIN as i64 || p > i32::MAX as i64 {
            proof {
                lemma_ipow_err(l as int, k as nat + 1, r as nat);
            }
            return Err(RunError::ArithmeticError);
        }
        acc = p as i32;
        k = k + 1;
    }
    Ok(acc)
}

proof fn lemma_ipow_err(base: int, e: nat, bigger: nat)
    requires
        ipow_checked(base, e) is Err,
        e <= bigger,
    ensures
        ipow_checked(base, bigger) == ipow_checked(base, e),
    decreases bigger,
{
    if bigger > e {
        lemma_ipow_err(base, e, (bigger - 1) as nat);
    }
}

/// Lexicographic comparison of two strings, by unicode scalar value.
fn str_less(a: &String, b: &String) -> (r: bool)
    ensures
        r == str_lt(a@, b@),
{
    let la = a.as_str().unicode_len();
    let lb = b.as_str().unicode_len();
    let mut i: usize = 0;
    proof {
        assert(a@.skip(0) =~= a@);
        assert(b@.skip(0) =~= b@);
    }
    while i < la && i < lb
        invariant
            la == a@.len(),
            lb == b@.len(),
            i <= la,
            i <= lb,
            str_lt(a@, b@) == str_lt(a@.skip(i as int), b@.skip(i as int)),
        decreases la - i,
    {
        let ca = a.as_str().get_char(i);
        let cb = b.as_str().get_char(i);
        if (ca as u32) < (cb as u32) {
            proof {
                assert(a@.skip(i as int)[0] == a@[i as int]);
            }
            return true;
        }
        if (ca as u32) > (cb as u32) {
            return false;
        }
        proof {
            assert(a@.skip(i as int).drop_first() =~= a@.skip(i as int + 1));
            assert(b@.skip(i as int).drop_first() =~= b@.skip(i as int + 1));
        }
        i = i + 1;
    }
    i < lb
}

/// The operator's result on two normalized operands.
pub fn apply_binop(op: BinOp, l: Opnd, r: Opnd) -> (res: Result<Value, RunError>)
    ensures
        res_v(res) == apply_binop_s(op, l@, r@),
{
    match op {
        BinOp::Add => match (l, r) {
            (Opnd::Int(a), Opnd::Int(b)) => match add_i32(a, b) {
                Ok(v) => Ok(Value::Int(v)),
                Err(e) => Err(e),
            },
            (Opnd::Float(a), Opnd::Float(b)) => Ok(Value::Float(float_add_bits(a, b))),
            (Opnd::Str(a), Opnd::Str(b)) => Ok(Value::String(a.concat(b.as_str()))),
            _ => Err(RunError::TypeMismatch),
        },
        BinOp::Sub => match (l, r) {
            (Opnd::Int(a), Opnd::Int(b)) => match sub_i32(a, b) {
                Ok(v) => Ok(Value::Int(v)),
                Err(e) => Err(e),
            },
            (Opnd::Float(a), Opnd::Float(b)) => Ok(Value::Float(float_sub_bits(a, b))),
            _ => Err(RunError::TypeMismatch),
        },
        BinOp::Mul => match (l, r) {
            (Opnd::Int(a), Opnd::Int(b)) => match mul_i32(a, b) {
                Ok(v) => Ok(Value::Int(v)),
                Err(e) => Err(e),
            },
            (Opnd::Float(a), Opnd::Float(b)) => Ok(Value::Float(float_mul_bits(a, b))),
            _ => Err(RunError::TypeMismatch),
        },
        BinOp::Div => match (l, r) {
            (Opnd::Int(a), Opnd::Int(b)) => {
                if b == 0 {
                    Err(RunError::ArithmeticError)
                } else {
                    match div_i32(a, b) {
                        Ok(v) => Ok(Value::Int(v)),
                        Err(e) => Err(e),
                    }
                }
            },
            (Opnd::Float(a), Opnd::Float(b)) => Ok(Value::Float(float_div_bits(a, b))),
            _ => Err(RunError::TypeMismatch),
        },
        BinOp::Mod => match (l, r) {
            (Opnd::Int(a), Opnd::Int(b)) => {
                if b == 0 {
                    Err(RunError::ArithmeticError)
                } else {
                    match rem_i32(a, b) {
                        Ok(v) => Ok(Value::Int(v)),
                        Err(e) => Err(e),
                    }
                }
            },
            (Opnd::Float(a), Opnd::Float(b)) => Ok(Value::Float(float_rem_bits(a, b))),
            _ => Err(RunError::TypeMismatch),
        },
        BinOp::Pow => match (l, r) {
            (Opnd::Int(a), Opnd::Int(b)) => match pow_i32(a, b) {
                Ok(v) => Ok(Value::Int(v)),
                Err(e) => Err(e),
            },
            (Opnd::Float(a), Opnd::Float(b)) => Ok(Value::Float(float_pow_bits(a, b))),
            _ => Err(RunError::TypeMismatch),
        },
        BinOp::Eq => match (l, r) {
            (Opnd::Int(a), Opnd::Int(b)) => Ok(Value::Bool(a == b)),
            (Opnd::Float(a), Opnd::Float(b)) => Ok(Value::Bool(float_eq_bits(a, b))),
            (Opnd::Str(a), Opnd::Str(b)) => Ok(Value::Bool(a.eq(&b))),
            _ => Err(RunError::TypeMismatch),
        },
        BinOp::Ne => match (l, r) {
            (Opnd::Int(a), Opnd::Int(b)) => Ok(Value::Bool(a != b)),
            (Opnd::Float(a), Opnd::Float(b)) => Ok(Value::Bool(!float_eq_bits(a, b))),
            (Opnd::Str(a), Opnd::Str(b)) => Ok(Value::Bool(!a.eq(&b))),
            _ => Err(RunError::TypeMismatch),
        },
        BinOp::Gt => match (l, r) {
            (Opnd::Int(a), Opnd::Int(b)) => Ok(Value::Bool(a > b)),
            (Opnd::Float(a), Opnd::Float(b)) => Ok(Value::Bool(float_lt_bits(b, a))),
            (Opnd::Str(a), Opnd::Str(b)) => Ok(Value::Bool(str_less(&b, &a))),
            _ => Err(RunError::TypeMismatch),
        },
        BinOp::Ge => match (l, r) {
            (Opnd::Int(a), Opnd::Int(b)) => Ok(Value::Bool(a >= b)),
            (Opnd::Float(a), Opnd::Float(b)) => Ok(Value::Bool(float_le_bits(b, a))),
            (Opnd::Str(a), Opnd::Str(b)) => Ok(Value::Bool(!str_less(&a, &b))),
            _ => Err(RunError::TypeMismatch),
        },
        BinOp::Lt => match (l, r) {
            (Opnd::Int(a), Opnd::Int(b)) => Ok(Value::Bool(a < b)),
            (Opnd::Float(a), Opnd::Float(b)) => Ok(Value::Bool(float_lt_bits(a, b))),
            (Opnd::Str(a), Opnd::Str(b)) => Ok(Value::Bool(str_less(&a, &b))),
            _ => Err(RunError::TypeMismatch),
        },
        BinOp::Le => match (l, r) {
            (Opnd::Int(a), Opnd::Int(b)) => Ok(Value::Bool(a <= b)),
            (Opnd::Float(a), Opnd::Float(b)) => Ok(Value::Bool(float_le_bits(a, b))),
            (Opnd::Str(a), Opnd::Str(b)) => Ok(Value::Bool(!str_less(&b, &a))),
            _ => Err(RunError::TypeMismatch),
        },
        BinOp::And => match (l, r) {
            (Opnd::Bool(a), Opnd::Bool(b)) => Ok(Value::Bool(a && b)),
            _ => Err(RunError::TypeMismatch),
        },
        BinOp::Or => match (l, r) {
            (Opnd::Bool(a), Opnd::Bool(b)) => Ok(Value::Bool(a || b)),
            _ => Err(RunError::TypeMismatch),
        },
    }
}

/// The negation operator's result on a normalized operand.
pub fn apply_not(v: Opnd) -> (res: Result<Value, RunError>)
    ensures
        res_v(res) == apply_not_s(v@),
{
    match v {
        Opnd::Bool(b) => Ok(Value::Bool(!b)),
        _ => Err(RunError::TypeMismatch),
    }
}

} // verus!
