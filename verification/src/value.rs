use vstd::prelude::*;
use crate::ast::Eval;

verus! {

/// A concrete runtime value. Real numbers are carried as their IEEE 754
/// single-precision bit pattern; an object reference is a bare heap address
/// with no ownership semantics of its own.
pub enum Value {
    Int(i32),
    Bool(bool),
    Float(u32),
    String(String),
    Array(Vec<Value>),
    Object(usize),
}

/// The mathematical shape of a runtime value.
pub enum ValueV {
    Int(int),
    Bool(bool),
    Float(u32),
    Str(Seq<char>),
    Arr(Seq<ValueV>),
    Obj(int),
}

pub open spec fn value_view(v: Value) -> ValueV
    decreases v,
{
    match v {
        Value::Int(i) => ValueV::Int(i as int),
        Value::Bool(b) => ValueV::Bool(b),
        Value::Float(bits) => ValueV::Float(bits),
        Value::String(s) => ValueV::Str(s@),
        Value::Array(items) => ValueV::Arr(values_view(items@)),
        Value::Object(a) => ValueV::Obj(a as int),
    }
}

pub open spec fn values_view(s: Seq<Value>) -> Seq<ValueV>
    decreases s,
{
    if s.len() == 0 {
        Seq::empty()
    } else {
        values_view(s.drop_last()).push(value_view(s.last()))
    }
}

pub proof fn lemma_values_view(s: Seq<Value>)
    ensures
        values_view(s).len() == s.len(),
        forall|i: int| 0 <= i < s.len() ==> values_view(s)[i] == value_view(s[i]),
    decreases s,
{
    if s.len() > 0 {
        lemma_values_view(s.drop_last());
    }
}

impl View for Value {
    type V = ValueV;

    open spec fn view(&self) -> ValueV {
        value_view(*self)
    }
}

/// Every object reference inside the value designates an address that fits
/// in a non-negative 32-bit integer, as the create-object statement
/// guarantees for every value the runtime stores.
pub open spec fn value_ok(v: ValueV) -> bool
    decreases v,
{
    match v {
        ValueV::Obj(a) => 0 <= a <= i32::MAX,
        ValueV::Arr(items) => values_ok(items),
        _ => true,
    }
}

pub open spec fn values_ok(s: Seq<ValueV>) -> bool
    decreases s,
{
    if s.len() == 0 {
        true
    } else {
        values_ok(s.drop_last()) && value_ok(s.last())
    }
}

pub proof fn lemma_values_ok(s: Seq<ValueV>)
    ensures
        values_ok(s) <==> (forall|i: int| 0 <= i < s.len() ==> value_ok(s[i])),
    decreases s,
{
    if s.len() > 0 {
        lemma_values_ok(s.drop_last());
        if forall|i: int| 0 <= i < s.len() ==> value_ok(s[i]) {
            assert forall|i: int| 0 <= i < s.drop_last().len() implies value_ok(
                s.drop_last()[i],
            ) by {
                assert(s.drop_last()[i] == s[i]);
            }
            assert(value_ok(s.last()));
        }
        if values_ok(s) {
            assert forall|i: int| 0 <= i < s.len() implies value_ok(s[i]) by {
                if i < s.len() - 1 {
                    assert(s.drop_last()[i] == s[i]);
                } else {
                    assert(s.last() == s[i]);
                }
            }
        }
    }
}

/// Whether the expression node is the literal form of the given value, as
/// produced when a stored value is substituted back into an expression.
pub open spec fn is_literal_of(e: Eval, v: ValueV) -> bool
    decreases e,
{
    match e {
        Eval::Int(i) => v == ValueV::Int(i as int),
        Eval::Bool(b) => v == ValueV::Bool(b),
        Eval::Float(f) => v == ValueV::Float(f),
        Eval::String(s) => v == ValueV::Str(s@),
        Eval::Array(items) => v matches ValueV::Arr(vs) && are_literals_of(items@, vs),
        Eval::Object(b) => (*b) matches Eval::Int(id) && id >= 0 && v == ValueV::Obj(id as int),
        _ => false,
    }
}

pub open spec fn are_literals_of(items: Seq<Eval>, vs: Seq<ValueV>) -> bool
    decreases items,
{
    if items.len() != vs.len() {
        false
    } else if items.len() == 0 {
        true
    } else {
        are_literals_of(items.drop_last(), vs.drop_last()) && is_literal_of(
            items.last(),
            vs.last(),
        )
    }
}

/// The literal expression form of a stored value, as the original runtime
/// substitutes it during operand normalization.
pub fn value_to_eval(v: &Value) -> (r: Eval)
    requires
        value_ok(v@),
    ensures
        is_literal_of(r, v@),
    decreases *v,
{
    match v {
        Value::Int(i) => Eval::Int(*i),
        Value::Bool(b) => Eval::Bool(*b),
        Value::Float(bits) => Eval::Float(*bits),
        Value::String(s) => Eval::String(s.clone()),
        Value::Object(a) => Eval::Object(Box::new(Eval::Int(*a as i32))),
        Value::Array(items) => {
            let mut out: Vec<Eval> = Vec::new();
            let n = items.len();
            proof {
                lemma_values_view(items@);
                lemma_values_ok(values_view(items@));
            }
            for idx in 0..n
                invariant
                    n == items@.len(),
                    out@.len() == idx,
                    value_ok(v@),
                    v matches Value::Array(its) && its@ == items@,
                    forall|j: int| 0 <= j < items@.len() ==> value_ok(values_view(items@)[j]),
                    forall|j: int|
                        0 <= j < idx ==> is_literal_of(out@[j], values_view(items@)[j]),
                    values_view(items@).len() == items@.len(),
                    forall|j: int|
                        0 <= j < items@.len() ==> values_view(items@)[j] == value_view(
                            items@[j],
                        ),
            {
                proof {
                    assert(values_view(items@)[idx as int] == value_view(items@[idx as int]));
                }
                let e = value_to_eval(&items[idx]);
                out.push(e);
            }
            proof {
                lemma_are_literals_of(out@, values_view(items@));
            }
            Eval::Array(out)
        },
    }
}

pub proof fn lemma_are_literals_of_index(items: Seq<Eval>, vs: Seq<ValueV>)
    requires
        are_literals_of(items, vs),
    ensures
        items.len() == vs.len(),
        forall|i: int| 0 <= i < items.len() ==> is_literal_of(items[i], vs[i]),
    decreases items,
{
    if items.len() > 0 {
        lemma_are_literals_of_index(items.drop_last(), vs.drop_last());
        assert forall|i: int| 0 <= i < items.len() implies is_literal_of(items[i], vs[i]) by {
            if i < items.len() - 1 {
                assert(items.drop_last()[i] == items[i]);
                assert(vs.drop_last()[i] == vs[i]);
            } else {
                assert(items.last() == items[i]);
                assert(vs.last() == vs[i]);
            }
        }
    }
}

pub proof fn lemma_are_literals_of(items: Seq<Eval>, vs: Seq<ValueV>)
    requires
        items.len() == vs.len(),
        forall|i: int| 0 <= i < items.len() ==> is_literal_of(items[i], vs[i]),
    ensures
        are_literals_of(items, vs),
    decreases items,
{
    if items.len() > 0 {
        lemma_are_literals_of(items.drop_last(), vs.drop_last());
    }
}

impl Clone for Value {
    /// A deep copy; the copy has the same mathematical shape as the original.
    fn clone(&self) -> (res: Self)
        ensures
            res@ == self@,
        decreases *self,
    {
        match self {
            Value::Int(i) => Value::Int(*i),
            Value::Bool(b) => Value::Bool(*b),
            Value::Float(bits) => Value::Float(*bits),
            Value::String(s) => Value::String(s.clone()),
            Value::Object(a) => Value::Object(*a),
            Value::Array(items) => {
                let mut out: Vec<Value> = Vec::new();
                let n = items.len();
                proof {
                    lemma_values_view(items@);
                }
                for idx in 0..n
                    invariant
                        n == items@.len(),
                        out@.len() == idx,
                        self matches Value::Array(its) && its@ == items@,
                        forall|j: int| 0 <= j < idx ==> out@[j]@ == items@[j]@,
                {
                    let e = items[idx].clone();
                    out.push(e);
                }
                proof {
                    lemma_values_view(out@);
                    lemma_values_view(items@);
                    assert(values_view(out@) =~= values_view(items@));
                }
                Value::Array(out)
            },
        }
    }
}

/// Why a run stopped. The first group is reachable by the executed program;
/// the variants from `InvalidJump` on report an internal invariant violation
/// or exhaustion of the host's resources.
#[derive(Clone, Copy, PartialEq, Eq, Debug)]
pub enum RunError {
    UnknownVariable,
    UnknownFunction,
    UnknownObject,
    UnknownField,
    DuplicateObject,
    GlobalShadow,
    ArityMismatch,
    TypeMismatch,
    NoReturnValue,
    ArithmeticError,
    NegativeAddress,
    InputExhausted,
    InvalidJump,
    UntrackedReference,
    FrameMissing,
    Unsupported,
    OutOfSteps,
}

impl RunError {
    /// Whether the error reports an internal invariant violation or resource
    /// exhaustion rather than a fault of the executed program.
    pub fn is_internal(&self) -> (r: bool)
        ensures
            r == (*self == RunError::InvalidJump || *self == RunError::UntrackedReference
                || *self == RunError::FrameMissing || *self == RunError::Unsupported || *self
                == RunError::OutOfSteps),
    {
        match self {
            RunError::InvalidJump => true,
            RunError::UntrackedReference => true,
            RunError::FrameMissing => true,
            RunError::Unsupported => true,
            RunError::OutOfSteps => true,
            _ => false,
        }
    }
}

} // verus!
