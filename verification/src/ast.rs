use vstd::prelude::*;
use crate::assoc::assoc_get;
use crate::maps::{StrMap, UintMap};
use crate::value::{is_literal_of, value_ok, value_to_eval, Value, ValueV};
use crate::vm::Object;

verus! {

/// An expression node: literal forms, dereferencing forms, a call form, and
/// the binary/unary operator forms, each owning its operand sub-expressions.
pub enum Eval {
    Int(i32),
    Bool(bool),
    Float(u32),
    String(String),
    Array(Vec<Eval>),
    Object(Box<Eval>),
    GetMember(Box<Eval>, String),
    VarRef(String),
    FnCall(String, Vec<Eval>),
    Add(Box<Eval>, Box<Eval>),
    Sub(Box<Eval>, Box<Eval>),
    Mul(Box<Eval>, Box<Eval>),
    Div(Box<Eval>, Box<Eval>),
    Mod(Box<Eval>, Box<Eval>),
    Pow(Box<Eval>, Box<Eval>),
    Eq(Box<Eval>, Box<Eval>),
    Ne(Box<Eval>, Box<Eval>),
    Gt(Box<Eval>, Box<Eval>),
    Ge(Box<Eval>, Box<Eval>),
    Lt(Box<Eval>, Box<Eval>),
    Le(Box<Eval>, Box<Eval>),
    And(Box<Eval>, Box<Eval>),
    Or(Box<Eval>, Box<Eval>),
    Not(Box<Eval>),
}

/// A statement node.
pub enum Node {
    Assign(String, Eval),
    Unassign(String),
    SetMember(Eval, String, Eval),
    CreateObject(Eval, Vec<(String, Eval)>),
    DeleteObject(Eval),
    Conditional(Vec<(Eval, Vec<Node>)>, Vec<Node>),
    Loop(Vec<Node>),
    WhileLoop(Eval, Vec<Node>),
    For(String, Eval, Vec<Node>),
    Break,
    Continue,
    FnDef(String, Vec<String>, Vec<Node>),
    Return(Eval),
    FnCall(String, Vec<Eval>),
}

pub open spec fn is_operator(e: Eval) -> bool {
    match e {
        Eval::Add(_, _) => true,
        Eval::Sub(_, _) => true,
        Eval::Mul(_, _) => true,
        Eval::Div(_, _) => true,
        Eval::Mod(_, _) => true,
        Eval::Pow(_, _) => true,
        Eval::Eq(_, _) => true,
        Eval::Ne(_, _) => true,
        Eval::Gt(_, _) => true,
        Eval::Ge(_, _) => true,
        Eval::Lt(_, _) => true,
        Eval::Le(_, _) => true,
        Eval::And(_, _) => true,
        Eval::Or(_, _) => true,
        Eval::Not(_) => true,
        _ => false,
    }
}

impl Eval {
    pub fn as_int(&self) -> (r: i32)
        requires
            self is Int,
        ensures
            self matches Eval::Int(v) && r == v,
    {
        match self {
            Eval::Int(val) => *val,
            _ => unreached(),
        }
    }

    pub fn as_bool(&self) -> (r: bool)
        requires
            self is Bool,
        ensures
            self matches Eval::Bool(v) && r == v,
    {
        match self {
            Eval::Bool(val) => *val,
            _ => unreached(),
        }
    }

    /// The bit pattern of a real-number literal.
    pub fn as_float(&self) -> (r: u32)
        requires
            self is Float,
        ensures
            self matches Eval::Float(v) && r == v,
    {
        match self {
            Eval::Float(val) => *val,
            _ => unreached(),
        }
    }

    pub fn as_string(&self) -> (r: String)
        requires
            self is String,
        ensures
            self matches Eval::String(v) && r@ == v@,
    {
        match self {
            Eval::String(val) => val.clone(),
            _ => unreached(),
        }
    }

    pub fn as_array<'a>(&'a self) -> (r: &'a Vec<Eval>)
        requires
            self is Array,
        ensures
            self matches Eval::Array(v) && r@ == v@,
    {
        match self {
            Eval::Array(val) => val,
            _ => unreached(),
        }
    }

    pub fn is_an_operator(&self) -> (r: bool)
        ensures
            r == is_operator(*self),
    {
        match self {
            Eval::Add(_, _) => true,
            Eval::Sub(_, _) => true,
            Eval::Mul(_, _) => true,
            Eval::Div(_, _) => true,
            Eval::Mod(_, _) => true,
            Eval::Pow(_, _) => true,
            Eval::Eq(_, _) => true,
            Eval::Ne(_, _) => true,
            Eval::Gt(_, _) => true,
            Eval::Ge(_, _) => true,
            Eval::Lt(_, _) => true,
            Eval::Le(_, _) => true,
            Eval::And(_, _) => true,
            Eval::Or(_, _) => true,
            Eval::Not(_) => true,
            _ => false,
        }
    }

    /// Replaces a variable-reference node with the literal form of the value
    /// the variable holds; any other node is left unchanged.
    pub fn deref_var_ref(&mut self, map: &StrMap<Value>)
        requires
            *old(self) matches Eval::VarRef(name) ==> (assoc_get(map@, name@) matches Some(v)
                && value_ok(v)),
        ensures
            match *old(self) {
                Eval::VarRef(name) => is_literal_of(*final(self), assoc_get(map@, name@).unwrap()),
                _ => *final(self) == *old(self),
            },
    {
        let replacement = match self {
            Eval::VarRef(name) => {
                let val = match map.get(name) {
                    Some(v) => v,
                    None => unreached(),
                };
                Some(value_to_eval(val))
            },
            _ => None,
        };
        if let Some(e) = replacement {
            *self = e;
        }
    }

    /// Replaces a member-access node whose target is an address literal, or a
    /// string literal naming a variable that holds an object reference, with
    /// the literal form of the addressed field; any other node is unchanged.
    pub fn deref_object_member(&mut self, objects: &UintMap<Object>, variables: &StrMap<Value>)
        requires
            *old(self) matches Eval::GetMember(target, field) ==> ({
                &&& member_target_addr(*target, variables@) matches Some(addr)
                &&& assoc_get(objects@, addr) matches Some(fields)
                &&& assoc_get(fields, field@) matches Some(v)
                &&& value_ok(v)
            }),
        ensures
            match *old(self) {
                Eval::GetMember(target, field) => is_literal_of(
                    *final(self),
                    assoc_get(
                        assoc_get(objects@, member_target_addr(*target, variables@).unwrap()).unwrap(),
                        field@,
                    ).unwrap(),
                ),
                _ => *final(self) == *old(self),
            },
    {
        let replacement = match self {
            Eval::GetMember(target, field) => {
                let addr: usize = match &**target {
                    Eval::Int(id) => *id as usize,
                    Eval::String(var_name) => {
                        match variables.get(var_name) {
                            Some(Value::Object(id)) => *id,
                            _ => unreached(),
                        }
                    },
                    _ => unreached(),
                };
                let obj = match objects.get(addr) {
                    Some(o) => o,
                    None => unreached(),
                };
                let val = match obj.fields.get(field) {
                    Some(v) => v,
                    None => unreached(),
                };
                Some(value_to_eval(val))
            },
            _ => None,
        };
        if let Some(e) = replacement {
            *self = e;
        }
    }
}

/// The heap address that a member-access target designates: either a
/// non-negative integer literal, or a string literal naming a variable that
/// holds an object reference.
pub open spec fn member_target_addr(target: Eval, variables: Seq<(Seq<char>, ValueV)>) -> Option<
    usize,
> {
    match target {
        Eval::Int(id) => if id >= 0 {
            Some(id as usize)
        } else {
            None
        },
        Eval::String(var_name) => match assoc_get(variables, var_name@) {
            Some(ValueV::Obj(id)) => if 0 <= id <= usize::MAX {
                Some(id as usize)
            } else {
                None
            },
            _ => None,
        },
        _ => None,
    }
}

} // verus!
