use vstd::prelude::*;
use crate::assoc::{assoc_get, assoc_remove, assoc_set};
use crate::ast::{Eval, Node};
use crate::maps::{StrMap, UintMap};
use crate::ops::{apply_binop, apply_not, res_v, BinOp, Opnd};
use crate::sem::{
    add_defined_s, add_native_s, bind_params_s, binop_s, body_s, call_proto_s, call_s,
    collect_name_s, collect_names_s, cond_s, create_fields_s, dec_fields_s, dec_use_s,
    eval_list_s, eval_s, exec_node_s, inc_use_s, lemma_objects_get_ok, lemma_objects_ok_mix,
    lemma_scope_get_ok, lemma_scope_ok_mix, lemma_scope_ok_sub, lemma_zero_ids_push, loop_pass_s,
    loop_s, member_lookup_s, multi_run_s, names_view, native_s, norm_member_s, norm_op_s,
    norm_var_s, notop_s, opt_name_v, opt_val_v, remove_all, run_gc_s, run_seq_s, scope_ok, st_wf,
    target_addr_s, to_opnd_s, while_pass_s, while_s, zero_ids, FieldsV, OutEventV, St,
};
use crate::value::{value_ok, values_view, RunError, Value, ValueV};

verus! {

/// A heap record: named fields addressed by a caller-chosen integer.
pub struct Object {
    pub fields: StrMap<Value>,
}

impl View for Object {
    type V = FieldsV;

    open spec fn view(&self) -> FieldsV {
        self.fields@
    }
}

impl Object {
    pub fn new(fields: StrMap<Value>) -> (r: Self)
        ensures
            r@ == fields@,
    {
        Object { fields }
    }
}

/// The collection policy, chosen once when the runtime is built. With
/// `Custom`, every collection point records the names bound in the finished
/// scope for a caller-run collector to process after the run.
#[derive(Clone, Copy, Debug)]
pub enum GcApproach {
    Disabled,
    ReferenceCounting,
    Custom,
}

/// What a native printing routine appended to the output stream: a group of
/// values to be shown space-separated, or a line break.
pub enum OutputEvent {
    Show(Vec<Value>),
    Newline,
}

impl View for OutputEvent {
    type V = OutEventV;

    open spec fn view(&self) -> OutEventV {
        match self {
            OutputEvent::Show(vals) => OutEventV::Show(crate::value::values_view(vals@)),
            OutputEvent::Newline => OutEventV::Newline,
        }
    }
}

/// The behaviour of a native function: showing its evaluated arguments
/// (optionally followed by a line break), or taking the next queued input
/// line (optionally showing the arguments first as a prompt).
#[derive(Clone, Copy, Debug)]
pub enum NativeKind {
    Show { newline: bool },
    ReadLine { prompt: bool },
}

/// A user-defined function: ordered parameter names, a body, and a flag for
/// a trailing variadic collector.
pub struct DefinedFunction {
    pub name: String,
    pub args: Vec<String>,
    pub body: Vec<Node>,
    pub has_variadic: bool,
}

pub open spec fn spec_min_args(declared: int, variadic: bool) -> int {
    if variadic {
        if declared == 0 {
            0
        } else {
            declared - 1
        }
    } else {
        declared
    }
}

impl DefinedFunction {
    pub fn new(name: String, args: Vec<String>, body: Vec<Node>, has_variadic: bool) -> (r: Self)
        ensures
            r.name@ == name@,
            r.args@ == args@,
            r.body@ == body@,
            r.has_variadic == has_variadic,
    {
        DefinedFunction { name, args, body, has_variadic }
    }

    pub fn args_len(&self) -> (r: usize)
        ensures
            r == self.args@.len(),
    {
        self.args.len()
    }

    pub fn minimum_args_len(&self) -> (r: usize)
        ensures
            r == spec_min_args(self.args@.len() as int, self.has_variadic),
    {
        if self.has_variadic {
            if self.args.len() == 0 {
                0
            } else {
                self.args.len() - 1
            }
        } else {
            self.args.len()
        }
    }

    pub fn is_variadic(&self) -> (r: bool)
        ensures
            r == self.has_variadic,
    {
        self.has_variadic
    }
}

/// A native function: a name, a declared arity, a variadic flag, and one of
/// the native behaviours the runtime knows how to perform.
pub struct BuiltInFunction {
    pub name: String,
    pub args_len: usize,
    pub is_variadic: bool,
    pub kind: NativeKind,
}

impl BuiltInFunction {
    pub fn new(name: String, args_len: usize, is_variadic: bool, kind: NativeKind) -> (r: Self)
        ensures
            r.name@ == name@,
            r.args_len == args_len,
            r.is_variadic == is_variadic,
            r.kind == kind,
    {
        BuiltInFunction { name, args_len, is_variadic, kind }
    }
}

/// A callable of the registry: user-defined or native.
pub enum Function {
    Defined(DefinedFunction),
    Native(BuiltInFunction),
}

impl View for Function {
    type V = Function;

    open spec fn view(&self) -> Function {
        *self
    }
}

impl Function {
    pub open spec fn spec_args_len(&self) -> int {
        match self {
            Function::Defined(d) => d.args@.len() as int,
            Function::Native(n) => n.args_len as int,
        }
    }

    pub open spec fn spec_is_variadic(&self) -> bool {
        match self {
            Function::Defined(d) => d.has_variadic,
            Function::Native(n) => n.is_variadic,
        }
    }

    pub fn args_len(&self) -> (r: usize)
        ensures
            r == self.spec_args_len(),
    {
        match self {
            Function::Defined(d) => d.args_len(),
            Function::Native(n) => n.args_len,
        }
    }

    pub fn minimum_args_len(&self) -> (r: usize)
        ensures
            r == match self {
                Function::Defined(d) => spec_min_args(d.args@.len() as int, d.has_variadic),
                Function::Native(n) => n.args_len as int,
            },
    {
        match self {
            Function::Defined(d) => d.minimum_args_len(),
            Function::Native(n) => n.args_len,
        }
    }

    pub fn is_variadic(&self) -> (r: bool)
        ensures
            r == self.spec_is_variadic(),
    {
        match self {
            Function::Defined(d) => d.is_variadic(),
            Function::Native(n) => n.is_variadic,
        }
    }
}

/// The native set the runtime seeds: space-separated printing with and
/// without a trailing line break, reading a line of input, and a prompted
/// read.
pub fn builtin_functions() -> (r: Vec<BuiltInFunction>)
    ensures
        r@.len() == 4,
        r@[0].name@ == "print"@ && r@[0].args_len == 0 && r@[0].is_variadic && r@[0].kind == (
        NativeKind::Show { newline: false }),
        r@[1].name@ == "println"@ && r@[1].args_len == 0 && r@[1].is_variadic && r@[1].kind == (
        NativeKind::Show { newline: true }),
        r@[2].name@ == "input"@ && r@[2].args_len == 0 && !r@[2].is_variadic && r@[2].kind == (
        NativeKind::ReadLine { prompt: false }),
        r@[3].name@ == "input_print"@ && r@[3].args_len == 0 && r@[3].is_variadic && r@[3].kind
            == (NativeKind::ReadLine { prompt: true }),
{
    let mut out: Vec<BuiltInFunction> = Vec::new();
    out.push(
        BuiltInFunction::new("print".to_owned(), 0, true, NativeKind::Show { newline: false }),
    );
    out.push(
        BuiltInFunction::new("println".to_owned(), 0, true, NativeKind::Show { newline: true }),
    );
    out.push(
        BuiltInFunction::new("input".to_owned(), 0, false, NativeKind::ReadLine { prompt: false }),
    );
    out.push(
        BuiltInFunction::new(
            "input_print".to_owned(),
            0,
            true,
            NativeKind::ReadLine { prompt: true },
        ),
    );
    out
}

impl Value {
    /// The literal expression form of this value.
    pub fn as_eval(&self) -> (r: Eval)
        requires
            value_ok(self@),
        ensures
            crate::value::is_literal_of(r, self@),
    {
        crate::value::value_to_eval(self)
    }

    pub fn as_int(&self) -> (r: i32)
        requires
            self is Int,
        ensures
            self matches Value::Int(v) && r == v,
    {
        match self {
            Value::Int(val) => *val,
            _ => unreached(),
        }
    }

    pub fn as_bool(&self) -> (r: bool)
        requires
            self is Bool,
        ensures
            self matches Value::Bool(v) && r == v,
    {
        match self {
            Value::Bool(val) => *val,
            _ => unreached(),
        }
    }

    /// The bit pattern of a real-number value.
    pub fn as_float(&self) -> (r: u32)
        requires
            self is Float,
        ensures
            self matches Value::Float(v) && r == v,
    {
        match self {
            Value::Float(val) => *val,
            _ => unreached(),
        }
    }

    pub fn as_string(&self) -> (r: String)
        requires
            self is String,
        ensures
            self matches Value::String(v) && r@ == v@,
    {
        match self {
            Value::String(val) => val.clone(),
            _ => unreached(),
        }
    }
}

/// The runtime: the heap, the use-count table, the callable registry, the
/// global scope, the suspended and current local frames, the collection
/// policy, and the modelled boundary streams.
pub struct VirtualMachine {
    pub objects: UintMap<Object>,
    pub objects_in_use: UintMap<u64>,
    pub functions: StrMap<Function>,
    pub global_variables: StrMap<Value>,
    pub locals: Vec<StrMap<Value>>,
    pub local: Option<StrMap<Value>>,
    pub gc_approach: GcApproach,
    pub output: Vec<OutputEvent>,
    pub input: Vec<String>,
    pub pending_collections: Vec<Vec<String>>,
}

impl View for VirtualMachine {
    type V = St;

    open spec fn view(&self) -> St {
        St {
            objects: self.objects@,
            counts: self.objects_in_use@,
            funcs: self.functions@,
            globals: self.global_variables@,
            locals: Seq::new(self.locals@.len(), |i: int| self.locals@[i]@),
            local: match self.local {
                Some(frame) => Some(frame@),
                None => None,
            },
            gc: self.gc_approach,
            output: Seq::new(self.output@.len(), |i: int| self.output@[i]@),
            input: Seq::new(self.input@.len(), |i: int| self.input@[i]@),
            pending: Seq::new(
                self.pending_collections@.len(),
                |i: int|
                    Seq::new(
                        self.pending_collections@[i]@.len(),
                        |j: int| self.pending_collections@[i]@[j]@,
                    ),
            ),
        }
    }
}

/// The stream views of two runtimes agree wherever the underlying fields do.
pub proof fn lemma_streams_view(a: VirtualMachine, b: VirtualMachine)
    ensures
        a.locals == b.locals ==> a@.locals == b@.locals,
        a.output == b.output ==> a@.output == b@.output,
        a.input == b.input ==> a@.input == b@.input,
        a.pending_collections == b.pending_collections ==> a@.pending == b@.pending,
{
    if a.locals == b.locals {
        assert(a@.locals =~= b@.locals);
    }
    if a.output == b.output {
        assert(a@.output =~= b@.output);
    }
    if a.input == b.input {
        assert(a@.input =~= b@.input);
    }
    if a.pending_collections == b.pending_collections {
        assert(a@.pending =~~= b@.pending);
    }
}

impl VirtualMachine {
    pub open spec fn wf(&self) -> bool {
        st_wf(self@)
    }

    /// A fresh runtime under the given collection policy, with the built-in
    /// natives registered and nothing queued on either stream.
    pub fn new(gc_approach: GcApproach) -> (r: Self)
        ensures
            r.wf(),
            r@.objects == Seq::<(usize, FieldsV)>::empty(),
            r@.counts == Seq::<(usize, u64)>::empty(),
            r@.globals == Seq::<(Seq<char>, ValueV)>::empty(),
            r@.locals == Seq::<FieldsV>::empty(),
            r@.local is None,
            r@.gc == gc_approach,
            r@.output == Seq::<OutEventV>::empty(),
            r@.input == Seq::<Seq<char>>::empty(),
            r@.pending == Seq::<Seq<Seq<char>>>::empty(),
            r@.funcs.len() == 4,
            r@.funcs[0].0 == "print"@,
            r@.funcs[0].1 matches Function::Native(b) && b.name@ == "print"@ && b.args_len == 0
                && b.is_variadic && b.kind == (NativeKind::Show { newline: false }),
            r@.funcs[1].0 == "println"@,
            r@.funcs[1].1 matches Function::Native(b) && b.name@ == "println"@ && b.args_len == 0
                && b.is_variadic && b.kind == (NativeKind::Show { newline: true }),
            r@.funcs[2].0 == "input"@,
            r@.funcs[2].1 matches Function::Native(b) && b.name@ == "input"@ && b.args_len == 0
                && !b.is_variadic && b.kind == (NativeKind::ReadLine { prompt: false }),
            r@.funcs[3].0 == "input_print"@,
            r@.funcs[3].1 matches Function::Native(b) && b.name@ == "input_print"@ && b.args_len
                == 0 && b.is_variadic && b.kind == (NativeKind::ReadLine { prompt: true }),
    {
        proof {
            reveal_strlit("print");
            reveal_strlit("println");
            reveal_strlit("input");
            reveal_strlit("input_print");
        }
        let mut functions: StrMap<Function> = StrMap::empty();
        let mut builtins = builtin_functions();
        let f0 = builtins.remove(0);
        let n0 = f0.name.clone();
        functions.set(n0, Function::Native(f0));
        proof {
            reveal_strlit("print");
            reveal_strlit("println");
            assert(functions@.len() == 1 && functions@[0].0 == "print"@);
        }
        let f1 = builtins.remove(0);
        let n1 = f1.name.clone();
        proof {
            reveal_strlit("print");
            reveal_strlit("println");
            assert(forall|j: int| 0 <= j < functions@.len() ==> functions@[j].0 != "println"@);
            crate::assoc::lemma_assoc_set_absent(functions@, "println"@, Function::Native(f1));
        }
        functions.set(n1, Function::Native(f1));
        proof {
            assert(functions@.len() == 2 && functions@[1].0 == "println"@);
        }
        let f2 = builtins.remove(0);
        let n2 = f2.name.clone();
        proof {
            reveal_strlit("print");
            reveal_strlit("println");
            reveal_strlit("input");
            assert("print"@[0] == 'p' && "input"@[0] == 'i' && "println"@.len() == 7);
            assert(forall|j: int| 0 <= j < functions@.len() ==> functions@[j].0 != "input"@);
            crate::assoc::lemma_assoc_set_absent(functions@, "input"@, Function::Native(f2));
        }
        functions.set(n2, Function::Native(f2));
        proof {
            assert(functions@.len() == 3 && functions@[2].0 == "input"@);
        }
        let f3 = builtins.remove(0);
        let n3 = f3.name.clone();
        proof {
            reveal_strlit("print");
            reveal_strlit("println");
            reveal_strlit("input");
            reveal_strlit("input_print");
            assert(forall|j: int| 0 <= j < functions@.len() ==> functions@[j].0 != "input_print"@);
            crate::assoc::lemma_assoc_set_absent(functions@, "input_print"@, Function::Native(f3));
        }
        functions.set(n3, Function::Native(f3));
        proof {
            assert(functions@.len() == 4 && functions@[3].0 == "input_print"@);
        }
        let r = VirtualMachine {
            objects: UintMap::empty(),
            objects_in_use: UintMap::empty(),
            functions,
            global_variables: StrMap::empty(),
            locals: Vec::new(),
            local: None,
            gc_approach,
            output: Vec::new(),
            input: Vec::new(),
            pending_collections: Vec::new(),
        };
        proof {
            assert(r@.locals =~= Seq::<FieldsV>::empty());
            assert(r@.output =~= Seq::<OutEventV>::empty());
            assert(r@.input =~= Seq::<Seq<char>>::empty());
            assert(r@.pending =~= Seq::<Seq<Seq<char>>>::empty());
        }
        r
    }

    /// Registers user-defined functions, each under its own name.
    pub fn add_defined_functions(&mut self, functions: Vec<DefinedFunction>)
        requires
            old(self).wf(),
        ensures
            final(self).wf(),
            final(self)@ == (St { funcs: add_defined_s(old(self)@.funcs, functions@), ..old(self)@ }),
    {
        let mut rest = functions;
        let ghost all: Seq<DefinedFunction> = rest@;
        while rest.len() > 0
            invariant
                self.wf(),
                add_defined_s(old(self)@.funcs, all) == add_defined_s(self@.funcs, rest@),
                self@ == (St { funcs: self@.funcs, ..old(self)@ }),
            decreases rest@.len(),
        {
            let ghost prev = rest@;
            let ghost atstart: VirtualMachine = *self;
            let f = rest.remove(0);
            let name = f.name.clone();
            self.functions.set(name, Function::Defined(f));
            proof {
                assert(rest@ =~= prev.drop_first());
                lemma_streams_view(*self, atstart);
            }
        }
    }

    /// Registers further native functions, each under its own name.
    pub fn add_rust_functions(&mut self, functions: Vec<BuiltInFunction>)
        requires
            old(self).wf(),
        ensures
            final(self).wf(),
            final(self)@ == (St { funcs: add_native_s(old(self)@.funcs, functions@), ..old(self)@ }),
    {
        let mut rest = functions;
        let ghost all: Seq<BuiltInFunction> = rest@;
        while rest.len() > 0
            invariant
                self.wf(),
                add_native_s(old(self)@.funcs, all) == add_native_s(self@.funcs, rest@),
                self@ == (St { funcs: self@.funcs, ..old(self)@ }),
            decreases rest@.len(),
        {
            let ghost prev = rest@;
            let ghost atstart: VirtualMachine = *self;
            let f = rest.remove(0);
            let name = f.name.clone();
            self.functions.set(name, Function::Native(f));
            proof {
                assert(rest@ =~= prev.drop_first());
                lemma_streams_view(*self, atstart);
            }
        }
    }

    /// Raises the use count of the value's object, if it is one; a fresh
    /// entry goes in at its place in the id-ordered table.
    pub fn inc_use_count(&mut self, val: &Value)
        requires
            old(self).wf(),
        ensures
            final(self).wf(),
            final(self)@ == (St { counts: inc_use_s(old(self)@.counts, val@), ..old(self)@ }),
    {
        match val {
            Value::Object(id) => {
                let id = *id;
                let current: Option<u64> = match self.objects_in_use.get(id) {
                    Some(c) => Some(*c),
                    None => None,
                };
                match current {
                    Some(c) => {
                        let c2: u64 = if c == u64::MAX {
                            c
                        } else {
                            c + 1
                        };
                        proof {
                            crate::sem::lemma_sorted_set(self@.counts, id, c2);
                        }
                        self.objects_in_use.set(id, c2);
                    },
                    None => {
                        proof {
                            crate::assoc::lemma_assoc_get_none_keys(self@.counts, id);
                        }
                        let n = self.objects_in_use.entries.len();
                        let mut pos: usize = 0;
                        while pos < n && self.objects_in_use.entries[pos].0 <= id
                            invariant
                                n == self.objects_in_use.entries@.len(),
                                pos <= n,
                                forall|m: int| 0 <= m < pos ==> self@.counts[m].0 <= id,
                            decreases n - pos,
                        {
                            pos = pos + 1;
                        }
                        let ghost counts0: Seq<(usize, u64)> = self@.counts;
                        proof {
                            crate::sem::lemma_sorted_insert_at(counts0, id, 1u64, pos as int);
                        }
                        self.objects_in_use.entries.insert(pos, (id, 1u64));
                        proof {
                            assert(self@.counts =~= counts0.insert(pos as int, (id, 1u64)));
                            assert forall|x: int, y: int|
                                0 <= x < y < self@.counts.len() implies self@.counts[x].0
                                < self@.counts[y].0 by {
                                let px = pos as int;
                                if x < px && y > px {
                                    assert(self@.counts[x] == counts0[x]);
                                    assert(self@.counts[y] == counts0[y - 1]);
                                    assert(counts0[x].0 <= id);
                                    assert(counts0[x].0 != id);
                                    assert(counts0[y - 1].0 > id) by {
                                        assert(counts0[px].0 > id);
                                        if y - 1 > px {
                                            assert(counts0[px].0 < counts0[y - 1].0);
                                        }
                                    }
                                } else if y == px {
                                    assert(self@.counts[x] == counts0[x]);
                                    assert(counts0[x].0 <= id && counts0[x].0 != id);
                                } else if x == px {
                                    assert(self@.counts[y] == counts0[y - 1]);
                                    assert(counts0[y - 1].0 > id) by {
                                        assert(counts0[px].0 > id);
                                        if y - 1 > px {
                                            assert(counts0[px].0 < counts0[y - 1].0);
                                        }
                                    }
                                } else if y < px {
                                    assert(self@.counts[x] == counts0[x]);
                                    assert(self@.counts[y] == counts0[y]);
                                } else {
                                    assert(self@.counts[x] == counts0[x - 1]);
                                    assert(self@.counts[y] == counts0[y - 1]);
                                }
                            }
                            assert(crate::sem::sorted_ids(self@.counts));
                            assert forall|x: int, y: int|
                                0 <= x < y < self@.counts.len() implies self@.counts[x].0
                                != self@.counts[y].0 by {
                                assert(self@.counts[x].0 < self@.counts[y].0);
                            }
                        }
                    },
                }
            },
            _ => {},
        }
        proof {
            lemma_streams_view(*self, *old(self));
        }
    }

    /// Lowers the use count of the value's object, if it is one; an untracked
    /// or exhausted count is an internal invariant violation.
    pub fn dec_use_count(&mut self, val: &Value) -> (r: Result<(), RunError>)
        requires
            old(self).wf(),
        ensures
            final(self).wf(),
            match r {
                Ok(_) => dec_use_s(old(self)@.counts, val@) matches Ok(c2) && final(self)@ == (St {
                    counts: c2,
                    ..old(self)@
                }),
                Err(e) => dec_use_s(old(self)@.counts, val@) == Err::<Seq<(usize, u64)>, RunError>(
                    e,
                ) && final(self)@ == old(self)@,
            },
    {
        match val {
            Value::Object(id) => {
                let id = *id;
                let current: Option<u64> = match self.objects_in_use.get(id) {
                    Some(c) => Some(*c),
                    None => None,
                };
                match current {
                    Some(c) => {
                        if c == 0 {
                            Err(RunError::UntrackedReference)
                        } else {
                            proof {
                                crate::sem::lemma_sorted_set(self@.counts, id, (c - 1) as u64);
                            }
                            self.objects_in_use.set(id, c - 1);
                            proof {
                                lemma_streams_view(*self, *old(self));
                            }
                            Ok(())
                        }
                    },
                    None => Err(RunError::UntrackedReference),
                }
            },
            _ => Ok(()),
        }
    }

    /// Collects one name of a finished scope under the reference-counting
    /// policy: unbinds it and reclaims its object when the count reaches zero.
    pub fn reference_count(&mut self, variable_name: &String) -> (r: Result<(), RunError>)
        requires
            old(self).wf(),
        ensures
            final(self).wf(),
            match r {
                Ok(_) => collect_name_s(old(self)@, variable_name@) matches Ok(st2) && final(self)@
                    == st2,
                Err(e) => collect_name_s(old(self)@, variable_name@) == Err::<St, RunError>(e)
                    && final(self)@ == old(self)@,
            },
    {
        let found: Option<Option<usize>> = match self.global_variables.get(variable_name) {
            None => None,
            Some(Value::Object(id)) => Some(Some(*id)),
            Some(_) => Some(None),
        };
        match found {
            None => Err(RunError::UnknownVariable),
            Some(None) => {
                self.global_variables.remove(variable_name);
                proof {
                    lemma_streams_view(*self, *old(self));
                    crate::sem::lemma_scope_ok_sub(old(self)@.globals, self@.globals);
                }
                Ok(())
            },
            Some(Some(id)) => {
                let current: Option<u64> = match self.objects_in_use.get(id) {
                    Some(c) => Some(*c),
                    None => None,
                };
                match current {
                    None => Err(RunError::UntrackedReference),
                    Some(c) => {
                        if c == 0 {
                            Err(RunError::UntrackedReference)
                        } else if c == 1 {
                            proof {
                                crate::sem::lemma_sorted_remove(self@.counts, id);
                            }
                            self.objects.remove(id);
                            self.objects_in_use.remove(id);
                            self.global_variables.remove(variable_name);
                            proof {
                                lemma_streams_view(*self, *old(self));
                                crate::sem::lemma_scope_ok_sub(old(self)@.globals, self@.globals);
                                crate::sem::lemma_objects_ok_sub(
                                    old(self)@.objects,
                                    self@.objects,
                                );
                            }
                            Ok(())
                        } else {
                            proof {
                                crate::sem::lemma_sorted_set(self@.counts, id, (c - 1) as u64);
                            }
                            self.objects_in_use.set(id, c - 1);
                            self.global_variables.remove(variable_name);
                            proof {
                                lemma_streams_view(*self, *old(self));
                                crate::sem::lemma_scope_ok_sub(old(self)@.globals, self@.globals);
                            }
                            Ok(())
                        }
                    },
                }
            },
        }
    }

    /// Collects a batch of names, then sweeps every object whose tracked
    /// count stands at zero out of the heap, reclaiming its table entry
    /// with it.
    pub fn reference_count_vec(&mut self, variable_names: &Vec<String>) -> (r: Result<
        (),
        RunError,
    >)
        requires
            old(self).wf(),
        ensures
            final(self).wf(),
            match r {
                Ok(_) => crate::sem::reference_count_vec_s(old(self)@, names_view(variable_names@))
                    matches Ok(st2) && final(self)@ == st2,
                Err(e) => crate::sem::reference_count_vec_s(
                    old(self)@,
                    names_view(variable_names@),
                ) == Err::<St, RunError>(e),
            },
    {
        let ghost nv: Seq<Seq<char>> = names_view(variable_names@);
        let n = variable_names.len();
        let mut i: usize = 0;
        proof {
            assert(nv.skip(0) =~= nv);
        }
        while i < n
            invariant
                self.wf(),
                n == variable_names@.len(),
                i <= n,
                nv == names_view(variable_names@),
                collect_names_s(old(self)@, nv) == collect_names_s(self@, nv.skip(i as int)),
            decreases n - i,
        {
            proof {
                assert(nv.skip(i as int)[0] == nv[i as int]);
                assert(nv.skip(i as int).drop_first() =~= nv.skip(i as int + 1));
            }
            match self.reference_count(&variable_names[i]) {
                Ok(_) => {},
                Err(e) => {
                    return Err(e);
                },
            }
            i = i + 1;
        }
        proof {
            assert(nv.skip(n as int) =~= Seq::<Seq<char>>::empty());
        }
        // The cleanup pass: gather the exhausted entries, then drop their
        // objects.
        let mut ids: Vec<usize> = Vec::new();
        let m = self.objects_in_use.entries.len();
        let mut k: usize = 0;
        proof {
            assert(self@.counts.take(0) =~= Seq::<(usize, u64)>::empty());
        }
        while k < m
            invariant
                self.wf(),
                m == self.objects_in_use.entries@.len(),
                k <= m,
                ids@ == zero_ids(self@.counts.take(k as int)),
            decreases m - k,
        {
            proof {
                assert(self@.counts.take(k as int + 1) =~= self@.counts.take(k as int).push(
                    self@.counts[k as int],
                ));
                lemma_zero_ids_push(self@.counts.take(k as int), self@.counts[k as int]);
            }
            if self.objects_in_use.entries[k].1 == 0 {
                ids.push(self.objects_in_use.entries[k].0);
            }
            k = k + 1;
        }
        proof {
            assert(self@.counts.take(m as int) =~= self@.counts);
        }
        let ghost midvm: VirtualMachine = *self;
        let p = ids.len();
        let mut t: usize = 0;
        proof {
            assert(ids@.skip(0) =~= ids@);
        }
        while t < p
            invariant
                self.wf(),
                p == ids@.len(),
                t <= p,
                remove_all(midvm@.objects, ids@) == remove_all(
                    self@.objects,
                    ids@.skip(t as int),
                ),
                remove_all(midvm@.counts, ids@) == remove_all(
                    self@.counts,
                    ids@.skip(t as int),
                ),
                self@ == (St { objects: self@.objects, counts: self@.counts, ..midvm@ }),
            decreases p - t,
        {
            proof {
                assert(ids@.skip(t as int)[0] == ids@[t as int]);
                assert(ids@.skip(t as int).drop_first() =~= ids@.skip(t as int + 1));
            }
            let ghost prevvm: VirtualMachine = *self;
            self.objects.remove(ids[t]);
            self.objects_in_use.remove(ids[t]);
            proof {
                lemma_streams_view(*self, prevvm);
                crate::sem::lemma_objects_ok_sub(prevvm@.objects, self@.objects);
                crate::sem::lemma_sorted_remove(prevvm@.counts, ids@[t as int]);
            }
            t = t + 1;
        }
        proof {
            assert(ids@.skip(p as int) =~= Seq::<usize>::empty());
            crate::sem::lemma_sweep_counts(midvm@.counts);
        }
        Ok(())
    }

    /// A collection point under the configured policy.
    pub fn run_gc(&mut self, var_names: Vec<String>) -> (r: Result<(), RunError>)
        requires
            old(self).wf(),
        ensures
            final(self).wf(),
            match r {
                Ok(_) => run_gc_s(old(self)@, names_view(var_names@)) matches Ok(st2)
                    && final(self)@ == st2,
                Err(e) => run_gc_s(old(self)@, names_view(var_names@)) == Err::<St, RunError>(e),
            },
    {
        match self.gc_approach {
            GcApproach::Disabled => Ok(()),
            GcApproach::ReferenceCounting => self.reference_count_vec(&var_names),
            GcApproach::Custom => {
                let ghost nv: Seq<Seq<char>> = names_view(var_names@);
                self.pending_collections.push(var_names);
                proof {
                    assert(self@.pending =~~= old(self)@.pending.push(nv));
                }
                Ok(())
            },
        }
    }
}


impl VirtualMachine {
    /// The first normalization stage on one operand.
    fn norm_var(&self, e: &Eval) -> (r: Result<Option<Value>, RunError>)
        requires
            self.wf(),
        ensures
            match r {
                Ok(o) => norm_var_s(self@, *e) == Ok::<Option<ValueV>, RunError>(opt_val_v(o)),
                Err(er) => norm_var_s(self@, *e) == Err::<Option<ValueV>, RunError>(er),
            },
    {
        match e {
            Eval::VarRef(name) => match self.global_variables.get(name) {
                Some(v) => Ok(Some(v.clone())),
                None => Err(RunError::UnknownVariable),
            },
            _ => Ok(None),
        }
    }

    /// The second normalization stage on one operand.
    fn norm_member(&self, e: &Eval, acc: Option<Value>) -> (r: Result<Option<Value>, RunError>)
        requires
            self.wf(),
        ensures
            match r {
                Ok(o) => norm_member_s(self@, *e, opt_val_v(acc)) == Ok::<
                    Option<ValueV>,
                    RunError,
                >(opt_val_v(o)),
                Err(er) => norm_member_s(self@, *e, opt_val_v(acc)) == Err::<
                    Option<ValueV>,
                    RunError,
                >(er),
            },
    {
        if acc.is_some() {
            return Ok(acc);
        }
        match e {
            Eval::GetMember(target, field) => {
                let addr: usize = match &**target {
                    Eval::Int(id) => {
                        if *id < 0 {
                            return Err(RunError::NegativeAddress);
                        }
                        *id as usize
                    },
                    Eval::String(vn) => match self.global_variables.get(vn) {
                        None => {
                            return Err(RunError::UnknownVariable);
                        },
                        Some(Value::Object(oid)) => *oid,
                        Some(_) => {
                            return Err(RunError::TypeMismatch);
                        },
                    },
                    _ => {
                        return Err(RunError::TypeMismatch);
                    },
                };
                match self.objects.get(addr) {
                    None => Err(RunError::UnknownObject),
                    Some(o) => match o.fields.get(field) {
                        None => Err(RunError::UnknownField),
                        Some(v) => Ok(Some(v.clone())),
                    },
                }
            },
            _ => Ok(None),
        }
    }

    /// The third normalization stage on one operand.
    fn norm_op(&mut self, e: &Eval, acc: Option<Value>, fuel: u64) -> (r: Result<
        Option<Value>,
        RunError,
    >)
        requires
            old(self).wf(),
        ensures
            final(self).wf(),
            match r {
                Ok(o) => norm_op_s(old(self)@, *e, opt_val_v(acc), fuel) == Ok::<
                    (St, Option<ValueV>),
                    RunError,
                >((final(self)@, opt_val_v(o))),
                Err(er) => norm_op_s(old(self)@, *e, opt_val_v(acc), fuel) == Err::<
                    (St, Option<ValueV>),
                    RunError,
                >(er),
            },
        decreases fuel, 0int,
    {
        if fuel == 0 {
            return Err(RunError::OutOfSteps);
        }
        if acc.is_some() {
            return Ok(acc);
        }
        if e.is_an_operator() {
            match self.eval(e, fuel - 1) {
                Ok(v) => Ok(Some(v)),
                Err(er) => Err(er),
            }
        } else {
            Ok(None)
        }
    }

    /// A binary operator expression.
    fn eval_binop(&mut self, op: BinOp, lhs: &Eval, rhs: &Eval, fuel: u64) -> (r: Result<
        Value,
        RunError,
    >)
        requires
            old(self).wf(),
        ensures
            final(self).wf(),
            match r {
                Ok(v) => binop_s(old(self)@, op, *lhs, *rhs, fuel) == Ok::<
                    (St, ValueV),
                    RunError,
                >((final(self)@, v@)) && value_ok(v@),
                Err(er) => binop_s(old(self)@, op, *lhs, *rhs, fuel) == Err::<
                    (St, ValueV),
                    RunError,
                >(er),
            },
        decreases fuel, 0int,
    {
        if fuel == 0 {
            return Err(RunError::OutOfSteps);
        }
        let f2 = fuel - 1;
        let la = match self.norm_var(lhs) {
            Ok(o) => o,
            Err(er) => {
                return Err(er);
            },
        };
        let ra = match self.norm_var(rhs) {
            Ok(o) => o,
            Err(er) => {
                return Err(er);
            },
        };
        let lb = match self.norm_member(lhs, la) {
            Ok(o) => o,
            Err(er) => {
                return Err(er);
            },
        };
        let rb = match self.norm_member(rhs, ra) {
            Ok(o) => o,
            Err(er) => {
                return Err(er);
            },
        };
        let lc = match self.norm_op(lhs, lb, f2) {
            Ok(o) => o,
            Err(er) => {
                return Err(er);
            },
        };
        let rc = match self.norm_op(rhs, rb, f2) {
            Ok(o) => o,
            Err(er) => {
                return Err(er);
            },
        };
        let lo = to_opnd(lhs, lc);
        let ro = to_opnd(rhs, rc);
        apply_binop(op, lo, ro)
    }

    /// The negation expression.
    fn eval_not(&mut self, operand: &Eval, fuel: u64) -> (r: Result<Value, RunError>)
        requires
            old(self).wf(),
        ensures
            final(self).wf(),
            match r {
                Ok(v) => notop_s(old(self)@, *operand, fuel) == Ok::<(St, ValueV), RunError>(
                    (final(self)@, v@),
                ) && value_ok(v@),
                Err(er) => notop_s(old(self)@, *operand, fuel) == Err::<(St, ValueV), RunError>(
                    er,
                ),
            },
        decreases fuel, 0int,
    {
        if fuel == 0 {
            return Err(RunError::OutOfSteps);
        }
        let f2 = fuel - 1;
        let a = match self.norm_var(operand) {
            Ok(o) => o,
            Err(er) => {
                return Err(er);
            },
        };
        let b = match self.norm_member(operand, a) {
            Ok(o) => o,
            Err(er) => {
                return Err(er);
            },
        };
        let c = match self.norm_op(operand, b, f2) {
            Ok(o) => o,
            Err(er) => {
                return Err(er);
            },
        };
        apply_not(to_opnd(operand, c))
    }

    /// Evaluating the expressions of a list from the given position on.
    fn eval_list_from(&mut self, items: &Vec<Eval>, from: usize, fuel: u64) -> (r: Result<
        Vec<Value>,
        RunError,
    >)
        requires
            old(self).wf(),
            from <= items@.len(),
        ensures
            final(self).wf(),
            match r {
                Ok(vs) => eval_list_s(old(self)@, items@.skip(from as int), fuel) == Ok::<
                    (St, Seq<ValueV>),
                    RunError,
                >((final(self)@, values_view(vs@))) && crate::value::values_ok(values_view(vs@)),
                Err(er) => eval_list_s(old(self)@, items@.skip(from as int), fuel) == Err::<
                    (St, Seq<ValueV>),
                    RunError,
                >(er),
            },
        decreases fuel, 0int,
    {
        if fuel == 0 {
            return Err(RunError::OutOfSteps);
        }
        let f2 = fuel - 1;
        if from == items.len() {
            proof {
                assert(items@.skip(from as int) =~= Seq::<Eval>::empty());
                assert(values_view(Seq::<Value>::empty()) =~= Seq::<ValueV>::empty());
            }
            let out: Vec<Value> = Vec::new();
            return Ok(out);
        }
        proof {
            assert(items@.skip(from as int)[0] == items@[from as int]);
            assert(items@.skip(from as int).drop_first() =~= items@.skip(from as int + 1));
        }
        let v = match self.eval(&items[from], f2) {
            Ok(v) => v,
            Err(er) => {
                return Err(er);
            },
        };
        match self.eval_list_from(items, from + 1, f2) {
            Ok(mut rest) => {
                let ghost prev: Seq<Value> = rest@;
                rest.insert(0, v);
                proof {
                    crate::value::lemma_values_view(rest@);
                    crate::value::lemma_values_view(prev);
                    assert(values_view(rest@) =~= seq![v@] + values_view(prev));
                    crate::value::lemma_values_ok(values_view(rest@));
                    crate::value::lemma_values_ok(values_view(prev));
                }
                Ok(rest)
            },
            Err(er) => Err(er),
        }
    }

}

/// The operand kind a normalized operand presents to the dispatcher.
fn to_opnd(e: &Eval, acc: Option<Value>) -> (r: Opnd)
    ensures
        r@ == to_opnd_s(*e, opt_val_v(acc)),
{
    match acc {
        Some(v) => match v {
            Value::Int(i) => Opnd::Int(i),
            Value::Bool(b) => Opnd::Bool(b),
            Value::Float(f) => Opnd::Float(f),
            Value::String(s) => Opnd::Str(s),
            _ => Opnd::Opaque,
        },
        None => match e {
            Eval::Int(i) => Opnd::Int(*i),
            Eval::Bool(b) => Opnd::Bool(*b),
            Eval::Float(f) => Opnd::Float(*f),
            Eval::String(s) => Opnd::Str(s.clone()),
            _ => Opnd::Opaque,
        },
    }
}

impl VirtualMachine {
    /// Binding the declared parameters from the given position on, each
    /// argument evaluated against the already-current fresh frame.
    fn bind_params_from(
        &mut self,
        d: &DefinedFunction,
        args: &Vec<Eval>,
        from: usize,
        fuel: u64,
    ) -> (r: Result<(), RunError>)
        requires
            old(self).wf(),
            from <= d.args@.len(),
            d.args@.len() <= args@.len(),
        ensures
            final(self).wf(),
            match r {
                Ok(_) => bind_params_s(
                    old(self)@,
                    names_view(d.args@).skip(from as int),
                    args@.take(d.args@.len() as int).skip(from as int),
                    fuel,
                ) == Ok::<St, RunError>(final(self)@),
                Err(er) => bind_params_s(
                    old(self)@,
                    names_view(d.args@).skip(from as int),
                    args@.take(d.args@.len() as int).skip(from as int),
                    fuel,
                ) == Err::<St, RunError>(er),
            },
        decreases fuel, 0int,
    {
        let ghost ps: Seq<Seq<char>> = names_view(d.args@).skip(from as int);
        let ghost aas: Seq<Eval> = args@.take(d.args@.len() as int).skip(from as int);
        if fuel == 0 {
            return Err(RunError::OutOfSteps);
        }
        let f2 = fuel - 1;
        if from == d.args.len() {
            proof {
                assert(ps.len() == 0);
            }
            return Ok(());
        }
        proof {
            assert(ps[0] == d.args@[from as int]@);
            assert(aas[0] == args@[from as int]);
            assert(ps.drop_first() =~= names_view(d.args@).skip(from as int + 1));
            assert(aas.drop_first() =~= args@.take(d.args@.len() as int).skip(from as int + 1));
        }
        let v = match self.eval(&args[from], f2) {
            Ok(v) => v,
            Err(er) => {
                return Err(er);
            },
        };
        let ghost mid: VirtualMachine = *self;
        let frame_opt = self.local.take();
        match frame_opt {
            None => Err(RunError::FrameMissing),
            Some(mut frame) => {
                let ghost fr0: FieldsV = frame@;
                frame.set(d.args[from].clone(), v);
                proof {
                    lemma_scope_ok_mix(fr0, frame@, v@);
                }
                self.local = Some(frame);
                proof {
                    lemma_streams_view(*self, mid);
                }
                self.bind_params_from(d, args, from + 1, f2)
            },
        }
    }

    /// A native function's behaviour.
    fn native_run(&mut self, kind: NativeKind, args: &Vec<Eval>, fuel: u64) -> (r: Result<
        Option<Value>,
        RunError,
    >)
        requires
            old(self).wf(),
        ensures
            final(self).wf(),
            match r {
                Ok(ret) => native_s(old(self)@, kind, args@, fuel) == Ok::<
                    (St, Option<ValueV>),
                    RunError,
                >((final(self)@, opt_val_v(ret))) && (ret matches Some(v) ==> value_ok(v@)),
                Err(er) => native_s(old(self)@, kind, args@, fuel) == Err::<
                    (St, Option<ValueV>),
                    RunError,
                >(er),
            },
        decreases fuel, 0int,
    {
        if fuel == 0 {
            return Err(RunError::OutOfSteps);
        }
        let f2 = fuel - 1;
        match kind {
            NativeKind::Show { newline } => {
                proof {
                    assert(args@.skip(0) =~= args@);
                }
                let vs = match self.eval_list_from(args, 0, f2) {
                    Ok(vs) => vs,
                    Err(er) => {
                        return Err(er);
                    },
                };
                let ghost mid: VirtualMachine = *self;
                let ghost vsv: Seq<ValueV> = values_view(vs@);
                self.output.push(OutputEvent::Show(vs));
                if newline {
                    self.output.push(OutputEvent::Newline);
                }
                proof {
                    lemma_streams_view(*self, mid);
                    if newline {
                        assert(self@.output =~= mid@.output.push(OutEventV::Show(vsv)).push(
                            OutEventV::Newline,
                        ));
                    } else {
                        assert(self@.output =~= mid@.output.push(OutEventV::Show(vsv)));
                    }
                }
                Ok(None)
            },
            NativeKind::ReadLine { prompt } => {
                if prompt {
                    proof {
                        assert(args@.skip(0) =~= args@);
                    }
                    let vs = match self.eval_list_from(args, 0, f2) {
                        Ok(vs) => vs,
                        Err(er) => {
                            return Err(er);
                        },
                    };
                    let ghost mid: VirtualMachine = *self;
                    let ghost vsv: Seq<ValueV> = values_view(vs@);
                    self.output.push(OutputEvent::Show(vs));
                    proof {
                        lemma_streams_view(*self, mid);
                        assert(self@.output =~= mid@.output.push(OutEventV::Show(vsv)));
                    }
                }
                if self.input.len() == 0 {
                    return Err(RunError::InputExhausted);
                }
                let ghost mid2: VirtualMachine = *self;
                let line = self.input.remove(0);
                proof {
                    lemma_streams_view(*self, mid2);
                    assert(self@.input =~= mid2@.input.drop_first());
                    assert(line@ == mid2@.input[0]);
                }
                Ok(Some(Value::String(line)))
            },
        }
    }

    /// Invoking a callable.
    fn call_function(&mut self, f: &Function, args: &Vec<Eval>, fuel: u64) -> (r: Result<
        Option<Value>,
        RunError,
    >)
        requires
            old(self).wf(),
            f matches Function::Defined(d) ==> d.args@.len() <= args@.len(),
        ensures
            final(self).wf(),
            match r {
                Ok(ret) => call_s(old(self)@, *f, args@, fuel) == Ok::<
                    (St, Option<ValueV>),
                    RunError,
                >((final(self)@, opt_val_v(ret))) && (ret matches Some(v) ==> value_ok(v@)),
                Err(er) => call_s(old(self)@, *f, args@, fuel) == Err::<
                    (St, Option<ValueV>),
                    RunError,
                >(er),
            },
        decreases fuel, 1int,
    {
        if fuel == 0 {
            return Err(RunError::OutOfSteps);
        }
        let f2 = fuel - 1;
        match f {
            Function::Native(n) => self.native_run(n.kind, args, f2),
            Function::Defined(d) => self.call_defined(d, args, fuel),
        }
    }

    /// Invoking a user-defined function.
    #[verifier::rlimit(100)]
    #[verifier::spinoff_prover]
    fn call_defined(&mut self, d: &DefinedFunction, args: &Vec<Eval>, fuel: u64) -> (r: Result<
        Option<Value>,
        RunError,
    >)
        requires
            old(self).wf(),
            d.args@.len() <= args@.len(),
            fuel > 0,
        ensures
            final(self).wf(),
            match r {
                Ok(ret) => call_s(old(self)@, Function::Defined(*d), args@, fuel) == Ok::<
                    (St, Option<ValueV>),
                    RunError,
                >((final(self)@, opt_val_v(ret))) && (ret matches Some(v) ==> value_ok(v@)),
                Err(er) => call_s(old(self)@, Function::Defined(*d), args@, fuel) == Err::<
                    (St, Option<ValueV>),
                    RunError,
                >(er),
            },
        decreases fuel, 0int,
    {
        let f2 = fuel - 1;
        {
            {
                let prev = self.local.take();
                match prev {
                    Some(fr) => {
                        self.locals.push(fr);
                    },
                    None => {},
                }
                self.local = Some(StrMap::empty());
                proof {
                    lemma_streams_view(*self, *old(self));
                    assert(self@.locals =~= (match old(self)@.local {
                        Some(fr) => old(self)@.locals.push(fr),
                        None => old(self)@.locals,
                    }));
                    assert forall|i: int| 0 <= i < self@.locals.len() implies scope_ok(
                        self@.locals[i],
                    ) by {
                        if i < old(self)@.locals.len() {
                            assert(self@.locals[i] == old(self)@.locals[i]);
                        }
                    }
                }
                proof {
                    assert(names_view(d.args@).skip(0) =~= names_view(d.args@));
                    assert(args@.take(d.args@.len() as int).skip(0) =~= args@.take(
                        d.args@.len() as int,
                    ));
                }
                match self.bind_params_from(d, args, 0, f2) {
                    Ok(_) => {},
                    Err(er) => {
                        return Err(er);
                    },
                }
                if d.is_variadic() {
                    let vs = match self.eval_list_from(args, d.args.len(), f2) {
                        Ok(vs) => vs,
                        Err(er) => {
                            return Err(er);
                        },
                    };
                    let ghost mid: VirtualMachine = *self;
                    let frame_opt = self.local.take();
                    match frame_opt {
                        None => {
                            return Err(RunError::FrameMissing);
                        },
                        Some(mut frame) => {
                            let ghost fr0: FieldsV = frame@;
                            let ghost vsv: Seq<ValueV> = values_view(vs@);
                            let vv = Value::Array(vs);
                            proof {
                                assert(value_ok(vv@)) by {
                                    assert(vv@ == ValueV::Arr(vsv));
                                }
                            }
                            frame.set(String::from_str("varargs"), vv);
                            proof {
                                reveal_strlit("varargs");
                                lemma_scope_ok_mix(fr0, frame@, ValueV::Arr(vsv));
                            }
                            self.local = Some(frame);
                            proof {
                                lemma_streams_view(*self, mid);
                            }
                        },
                    }
                }
                proof {
                    assert(d.body@.skip(0) =~= d.body@);
                }
                let ret = match self.body_run_from(&d.body, 0, f2) {
                    Ok(ret) => ret,
                    Err(er) => {
                        return Err(er);
                    },
                };
                let ghost beforepop: VirtualMachine = *self;
                self.local = self.locals.pop();
                proof {
                    lemma_streams_view(*self, beforepop);
                    if beforepop@.locals.len() > 0 {
                        assert(self@.locals =~= beforepop@.locals.drop_last());
                        assert(self@.local == Some(
                            beforepop@.locals[beforepop@.locals.len() - 1],
                        ));
                        assert(scope_ok(beforepop@.locals[beforepop@.locals.len() - 1]));
                        assert forall|i: int| 0 <= i < self@.locals.len() implies scope_ok(
                            self@.locals[i],
                        ) by {
                            assert(self@.locals[i] == beforepop@.locals[i]);
                        }
                    } else {
                        assert(self@.locals =~= beforepop@.locals);
                    }
                }
                Ok(ret)
            }
        }
    }

    /// Running a function body from the given position on.
    fn body_run_from(&mut self, body: &Vec<Node>, from: usize, fuel: u64) -> (r: Result<
        Option<Value>,
        RunError,
    >)
        requires
            old(self).wf(),
            from <= body@.len(),
        ensures
            final(self).wf(),
            match r {
                Ok(ret) => body_s(old(self)@, body@.skip(from as int), fuel) == Ok::<
                    (St, Option<ValueV>),
                    RunError,
                >((final(self)@, opt_val_v(ret))) && (ret matches Some(v) ==> value_ok(v@)),
                Err(er) => body_s(old(self)@, body@.skip(from as int), fuel) == Err::<
                    (St, Option<ValueV>),
                    RunError,
                >(er),
            },
        decreases fuel, 0int,
    {
        if fuel == 0 {
            return Err(RunError::OutOfSteps);
        }
        let f2 = fuel - 1;
        if from == body.len() {
            proof {
                assert(body@.skip(from as int).len() == 0);
            }
            return Ok(None);
        }
        proof {
            assert(body@.skip(from as int)[0] == body@[from as int]);
            assert(body@.skip(from as int).drop_first() =~= body@.skip(from as int + 1));
        }
        match &body[from] {
            Node::Return(e) => match self.eval(e, f2) {
                Ok(v) => Ok(Some(v)),
                Err(er) => Err(er),
            },
            _ => {
                match self.single_run(&body[from], f2) {
                    Ok(_) => {},
                    Err(er) => {
                        return Err(er);
                    },
                }
                self.body_run_from(body, from + 1, f2)
            },
        }
    }

    /// The call protocol: lookup, arity check, removal for the whole
    /// invocation, and reinsertion afterwards.
    fn call_proto(&mut self, name: &String, args: &Vec<Eval>, fuel: u64) -> (r: Result<
        Option<Value>,
        RunError,
    >)
        requires
            old(self).wf(),
        ensures
            final(self).wf(),
            match r {
                Ok(ret) => call_proto_s(old(self)@, name@, args@, fuel) == Ok::<
                    (St, Option<ValueV>),
                    RunError,
                >((final(self)@, opt_val_v(ret))) && (ret matches Some(v) ==> value_ok(v@)),
                Err(er) => call_proto_s(old(self)@, name@, args@, fuel) == Err::<
                    (St, Option<ValueV>),
                    RunError,
                >(er),
            },
        decreases fuel, 0int,
    {
        if fuel == 0 {
            return Err(RunError::OutOfSteps);
        }
        let f2 = fuel - 1;
        let info: Option<(usize, bool, bool, usize)> = match self.functions.get(name) {
            None => None,
            Some(f) => {
                let al = f.args_len();
                let var = f.is_variadic();
                let (dv, dd): (bool, usize) = match f {
                    Function::Defined(d) => (d.has_variadic, d.args.len()),
                    Function::Native(_) => (false, 0),
                };
                Some((al, var, dv, dd))
            },
        };
        match info {
            None => Err(RunError::UnknownFunction),
            Some((al, var, dv, dd)) => {
                if al != args.len() && !var {
                    return Err(RunError::ArityMismatch);
                }
                if dv && args.len() < dd {
                    return Err(RunError::ArityMismatch);
                }
                let f = match self.functions.remove(name) {
                    Some(f) => f,
                    None => unreached(),
                };
                proof {
                    lemma_streams_view(*self, *old(self));
                }
                let ret = match self.call_function(&f, args, f2) {
                    Ok(ret) => ret,
                    Err(er) => {
                        return Err(er);
                    },
                };
                let ghost beforeins: VirtualMachine = *self;
                self.functions.set(name.clone(), f);
                proof {
                    lemma_streams_view(*self, beforeins);
                }
                Ok(ret)
            },
        }
    }

    /// What an expression evaluates to; the runtime state may change along
    /// the way (a call may run arbitrary statements).
    #[verifier::rlimit(100)]
    #[verifier::spinoff_prover]
    pub fn eval(&mut self, e: &Eval, fuel: u64) -> (r: Result<Value, RunError>)
        requires
            old(self).wf(),
        ensures
            final(self).wf(),
            match r {
                Ok(v) => eval_s(old(self)@, *e, fuel) == Ok::<(St, ValueV), RunError>(
                    (final(self)@, v@),
                ) && value_ok(v@),
                Err(er) => eval_s(old(self)@, *e, fuel) == Err::<(St, ValueV), RunError>(er),
            },
        decreases fuel, 0int,
    {
        if fuel == 0 {
            return Err(RunError::OutOfSteps);
        }
        let f2 = fuel - 1;
        match e {
            Eval::Int(i) => Ok(Value::Int(*i)),
            Eval::Bool(b) => Ok(Value::Bool(*b)),
            Eval::Float(bits) => Ok(Value::Float(*bits)),
            Eval::String(s) => Ok(Value::String(s.clone())),
            Eval::Array(items) => match ({
                proof {
                    assert(items@.skip(0) =~= items@);
                }
                self.eval_list_from(items, 0, f2)
            }) {
                Ok(vs) => {
                    let ghost vsv: Seq<ValueV> = values_view(vs@);
                    Ok(Value::Array(vs))
                },
                Err(er) => Err(er),
            },
            Eval::Object(b) => match &**b {
                Eval::Int(id) => {
                    if *id >= 0 {
                        Ok(Value::Object(*id as usize))
                    } else {
                        Err(RunError::NegativeAddress)
                    }
                },
                _ => Err(RunError::Unsupported),
            },
            Eval::VarRef(name) => {
                let from_local: Option<Value> = match &self.local {
                    Some(frame) => match frame.get(name) {
                        Some(v) => Some(v.clone()),
                        None => None,
                    },
                    None => None,
                };
                match from_local {
                    Some(v) => {
                        proof {
                            lemma_scope_get_ok(self@.local.unwrap(), name@);
                        }
                        Ok(v)
                    },
                    None => match self.global_variables.get(name) {
                        Some(v) => {
                            proof {
                                lemma_scope_get_ok(self@.globals, name@);
                            }
                            Ok(v.clone())
                        },
                        None => Err(RunError::UnknownVariable),
                    },
                }
            },
            Eval::FnCall(name, args) => match self.call_proto(name, args, f2) {
                Err(er) => Err(er),
                Ok(None) => Err(RunError::NoReturnValue),
                Ok(Some(v)) => Ok(v),
            },
            Eval::GetMember(target, field) => {
                let tv = match self.eval(&**target, f2) {
                    Ok(tv) => tv,
                    Err(er) => {
                        return Err(er);
                    },
                };
                let addr = match self.target_addr(&tv) {
                    Ok(addr) => addr,
                    Err(er) => {
                        return Err(er);
                    },
                };
                match self.objects.get(addr) {
                    None => Err(RunError::UnknownObject),
                    Some(o) => match o.fields.get(field) {
                        None => Err(RunError::UnknownField),
                        Some(v) => {
                            proof {
                                lemma_objects_get_ok(self@.objects, addr);
                                lemma_scope_get_ok(
                                    crate::assoc::assoc_get(self@.objects, addr).unwrap(),
                                    field@,
                                );
                            }
                            Ok(v.clone())
                        },
                    },
                }
            },
            Eval::Add(l, r) => self.eval_binop(BinOp::Add, &**l, &**r, f2),
            Eval::Sub(l, r) => self.eval_binop(BinOp::Sub, &**l, &**r, f2),
            Eval::Mul(l, r) => self.eval_binop(BinOp::Mul, &**l, &**r, f2),
            Eval::Div(l, r) => self.eval_binop(BinOp::Div, &**l, &**r, f2),
            Eval::Mod(l, r) => self.eval_binop(BinOp::Mod, &**l, &**r, f2),
            Eval::Pow(l, r) => self.eval_binop(BinOp::Pow, &**l, &**r, f2),
            Eval::Eq(l, r) => self.eval_binop(BinOp::Eq, &**l, &**r, f2),
            Eval::Ne(l, r) => self.eval_binop(BinOp::Ne, &**l, &**r, f2),
            Eval::Gt(l, r) => self.eval_binop(BinOp::Gt, &**l, &**r, f2),
            Eval::Ge(l, r) => self.eval_binop(BinOp::Ge, &**l, &**r, f2),
            Eval::Lt(l, r) => self.eval_binop(BinOp::Lt, &**l, &**r, f2),
            Eval::Le(l, r) => self.eval_binop(BinOp::Le, &**l, &**r, f2),
            Eval::And(l, r) => self.eval_binop(BinOp::And, &**l, &**r, f2),
            Eval::Or(l, r) => self.eval_binop(BinOp::Or, &**l, &**r, f2),
            Eval::Not(v) => self.eval_not(&**v, f2),
        }
    }

    /// The heap address an evaluated member-access target designates.
    fn target_addr(&self, tv: &Value) -> (r: Result<usize, RunError>)
        requires
            self.wf(),
        ensures
            match r {
                Ok(addr) => target_addr_s(self@, tv@) == Ok::<usize, RunError>(addr),
                Err(er) => target_addr_s(self@, tv@) == Err::<usize, RunError>(er),
            },
    {
        match tv {
            Value::Int(id) => {
                if *id >= 0 {
                    Ok(*id as usize)
                } else {
                    Err(RunError::NegativeAddress)
                }
            },
            Value::String(vn) => match self.global_variables.get(vn) {
                None => Err(RunError::UnknownVariable),
                Some(Value::Object(oid)) => Ok(*oid),
                Some(_) => Err(RunError::TypeMismatch),
            },
            _ => Err(RunError::TypeMismatch),
        }
    }
}

impl VirtualMachine {
    /// Dropping the use count of a deleted object's fields from the given
    /// position on.
    fn dec_fields_from(&mut self, obj: &Object, from: usize) -> (r: Result<(), RunError>)
        requires
            old(self).wf(),
            from <= obj@.len(),
        ensures
            final(self).wf(),
            match r {
                Ok(_) => dec_fields_s(old(self)@.counts, obj@.skip(from as int)) matches Ok(c1)
                    && final(self)@ == (St { counts: c1, ..old(self)@ }),
                Err(er) => dec_fields_s(old(self)@.counts, obj@.skip(from as int)) == Err::<
                    Seq<(usize, u64)>,
                    RunError,
                >(er),
            },
        decreases obj@.len() - from,
    {
        if from == obj.fields.entries.len() {
            proof {
                assert(obj@.skip(from as int).len() == 0);
            }
            return Ok(());
        }
        proof {
            assert(obj@.skip(from as int)[0] == obj@[from as int]);
            assert(obj@.skip(from as int).drop_first() =~= obj@.skip(from as int + 1));
        }
        match self.dec_use_count(&obj.fields.entries[from].1) {
            Ok(_) => self.dec_fields_from(obj, from + 1),
            Err(er) => Err(er),
        }
    }

    /// Evaluating and binding a created object's field initializers from the
    /// given position on.
    fn create_fields_from(
        &mut self,
        flds: &Vec<(String, Eval)>,
        from: usize,
        acc: StrMap<Value>,
        fuel: u64,
    ) -> (r: Result<StrMap<Value>, RunError>)
        requires
            old(self).wf(),
            from <= flds@.len(),
            scope_ok(acc@),
        ensures
            final(self).wf(),
            match r {
                Ok(m) => create_fields_s(old(self)@, flds@.skip(from as int), acc@, fuel)
                    == Ok::<(St, FieldsV), RunError>((final(self)@, m@)) && scope_ok(m@),
                Err(er) => create_fields_s(old(self)@, flds@.skip(from as int), acc@, fuel)
                    == Err::<(St, FieldsV), RunError>(er),
            },
        decreases fuel, 0int,
    {
        if fuel == 0 {
            return Err(RunError::OutOfSteps);
        }
        let f2 = fuel - 1;
        if from == flds.len() {
            proof {
                assert(flds@.skip(from as int).len() == 0);
            }
            return Ok(acc);
        }
        proof {
            assert(flds@.skip(from as int)[0] == flds@[from as int]);
            assert(flds@.skip(from as int).drop_first() =~= flds@.skip(from as int + 1));
        }
        let v = match self.eval(&flds[from].1, f2) {
            Ok(v) => v,
            Err(er) => {
                return Err(er);
            },
        };
        let ghost mid: VirtualMachine = *self;
        self.inc_use_count(&v);
        let ghost acc0: FieldsV = acc@;
        let mut acc2 = acc;
        acc2.set(flds[from].0.clone(), v.clone());
        proof {
            lemma_scope_ok_mix(acc0, acc2@, v@);
        }
        self.create_fields_from(flds, from + 1, acc2, f2)
    }

    /// Choosing and running a conditional's branch, from the given branch on.
    fn cond_run_from(
        &mut self,
        branches: &Vec<(Eval, Vec<Node>)>,
        from: usize,
        els: &Vec<Node>,
        fuel: u64,
    ) -> (r: Result<(), RunError>)
        requires
            old(self).wf(),
            from <= branches@.len(),
        ensures
            final(self).wf(),
            match r {
                Ok(_) => cond_s(old(self)@, branches@.skip(from as int), els@, fuel) == Ok::<
                    St,
                    RunError,
                >(final(self)@),
                Err(er) => cond_s(old(self)@, branches@.skip(from as int), els@, fuel) == Err::<
                    St,
                    RunError,
                >(er),
            },
        decreases fuel, 0int,
    {
        if fuel == 0 {
            return Err(RunError::OutOfSteps);
        }
        let f2 = fuel - 1;
        if from == branches.len() {
            proof {
                assert(branches@.skip(from as int).len() == 0);
            }
            if els.len() > 0 {
                return self.multi_run(els, f2);
            }
            return Ok(());
        }
        proof {
            assert(branches@.skip(from as int)[0] == branches@[from as int]);
            assert(branches@.skip(from as int).drop_first() =~= branches@.skip(from as int + 1));
        }
        let v = match self.eval(&branches[from].0, f2) {
            Ok(v) => v,
            Err(er) => {
                return Err(er);
            },
        };
        let taken: bool = match &v {
            Value::Bool(b) => *b,
            _ => false,
        };
        if taken {
            self.multi_run(&branches[from].1, f2)
        } else {
            proof {
                assert(v@ != ValueV::Bool(true));
            }
            self.cond_run_from(branches, from + 1, els, f2)
        }
    }

    /// Running a statement sequence from the given position on, gathering
    /// the names its statements report.
    fn run_seq_from(
        &mut self,
        nodes: &Vec<Node>,
        from: usize,
        assigned: Vec<String>,
        fuel: u64,
    ) -> (r: Result<Vec<String>, RunError>)
        requires
            old(self).wf(),
            from <= nodes@.len(),
        ensures
            final(self).wf(),
            match r {
                Ok(a2) => run_seq_s(
                    old(self)@,
                    nodes@.skip(from as int),
                    names_view(assigned@),
                    fuel,
                ) == Ok::<(St, Seq<Seq<char>>), RunError>((final(self)@, names_view(a2@))),
                Err(er) => run_seq_s(
                    old(self)@,
                    nodes@.skip(from as int),
                    names_view(assigned@),
                    fuel,
                ) == Err::<(St, Seq<Seq<char>>), RunError>(er),
            },
        decreases fuel, 0int,
    {
        if fuel == 0 {
            return Err(RunError::OutOfSteps);
        }
        let f2 = fuel - 1;
        if from == nodes.len() {
            proof {
                assert(nodes@.skip(from as int).len() == 0);
            }
            return Ok(assigned);
        }
        proof {
            assert(nodes@.skip(from as int)[0] == nodes@[from as int]);
            assert(nodes@.skip(from as int).drop_first() =~= nodes@.skip(from as int + 1));
        }
        let nm = match self.single_run(&nodes[from], f2) {
            Ok(nm) => nm,
            Err(er) => {
                return Err(er);
            },
        };
        let mut a2 = assigned;
        let ghost a0: Seq<String> = a2@;
        match nm {
            Some(n) => {
                a2.push(n);
                proof {
                    assert(names_view(a2@) =~= names_view(a0).push(a2@.last()@));
                }
            },
            None => {},
        }
        self.run_seq_from(nodes, from + 1, a2, f2)
    }

    /// A statement sequence as its own collection scope.
    fn multi_run(&mut self, nodes: &Vec<Node>, fuel: u64) -> (r: Result<(), RunError>)
        requires
            old(self).wf(),
        ensures
            final(self).wf(),
            match r {
                Ok(_) => multi_run_s(old(self)@, nodes@, fuel) == Ok::<St, RunError>(final(self)@),
                Err(er) => multi_run_s(old(self)@, nodes@, fuel) == Err::<St, RunError>(er),
            },
        decreases fuel, 0int,
    {
        if fuel == 0 {
            return Err(RunError::OutOfSteps);
        }
        let f2 = fuel - 1;
        proof {
            assert(nodes@.skip(0) =~= nodes@);
            assert(names_view(Seq::<String>::empty()) =~= Seq::<Seq<char>>::empty());
        }
        let assigned = match self.run_seq_from(nodes, 0, Vec::new(), f2) {
            Ok(a) => a,
            Err(er) => {
                return Err(er);
            },
        };
        match self.run_gc(assigned) {
            Ok(_) => Ok(()),
            Err(er) => Err(er),
        }
    }

    /// One pass through an unconditional loop body, from the given position.
    fn loop_pass_from(
        &mut self,
        nodes: &Vec<Node>,
        from: usize,
        assigned: Vec<String>,
        fuel: u64,
    ) -> (r: Result<(), RunError>)
        requires
            old(self).wf(),
            from <= nodes@.len(),
        ensures
            final(self).wf(),
            match r {
                Ok(_) => loop_pass_s(
                    old(self)@,
                    nodes@,
                    nodes@.skip(from as int),
                    names_view(assigned@),
                    fuel,
                ) == Ok::<St, RunError>(final(self)@),
                Err(er) => loop_pass_s(
                    old(self)@,
                    nodes@,
                    nodes@.skip(from as int),
                    names_view(assigned@),
                    fuel,
                ) == Err::<St, RunError>(er),
            },
        decreases fuel, 0int,
    {
        if fuel == 0 {
            return Err(RunError::OutOfSteps);
        }
        let f2 = fuel - 1;
        if from == nodes.len() {
            proof {
                assert(nodes@.skip(from as int).len() == 0);
            }
            return self.loop_run(nodes, assigned, f2);
        }
        proof {
            assert(nodes@.skip(from as int)[0] == nodes@[from as int]);
            assert(nodes@.skip(from as int).drop_first() =~= nodes@.skip(from as int + 1));
        }
        match &nodes[from] {
            Node::Break => match self.run_gc(assigned) {
                Ok(_) => Ok(()),
                Err(er) => Err(er),
            },
            Node::Continue => self.loop_run(nodes, assigned, f2),
            _ => {
                let nm = match self.single_run(&nodes[from], f2) {
                    Ok(nm) => nm,
                    Err(er) => {
                        return Err(er);
                    },
                };
                let mut a2 = assigned;
                let ghost a0: Seq<String> = a2@;
                match nm {
                    Some(n) => {
                        a2.push(n);
                        proof {
                            assert(names_view(a2@) =~= names_view(a0).push(a2@.last()@));
                        }
                    },
                    None => {},
                }
                self.loop_pass_from(nodes, from + 1, a2, f2)
            },
        }
    }

    /// An unconditional loop: passes repeat until a direct `break`.
    fn loop_run(&mut self, nodes: &Vec<Node>, assigned: Vec<String>, fuel: u64) -> (r: Result<
        (),
        RunError,
    >)
        requires
            old(self).wf(),
        ensures
            final(self).wf(),
            match r {
                Ok(_) => loop_s(old(self)@, nodes@, names_view(assigned@), fuel) == Ok::<
                    St,
                    RunError,
                >(final(self)@),
                Err(er) => loop_s(old(self)@, nodes@, names_view(assigned@), fuel) == Err::<
                    St,
                    RunError,
                >(er),
            },
        decreases fuel, 0int,
    {
        if fuel == 0 {
            return Err(RunError::OutOfSteps);
        }
        proof {
            assert(nodes@.skip(0) =~= nodes@);
        }
        self.loop_pass_from(nodes, 0, assigned, fuel - 1)
    }

    /// One pass through a while loop's body, from the given position.
    fn while_pass_from(
        &mut self,
        cond: &Eval,
        body: &Vec<Node>,
        from: usize,
        assigned: Vec<String>,
        fuel: u64,
    ) -> (r: Result<(), RunError>)
        requires
            old(self).wf(),
            from <= body@.len(),
        ensures
            final(self).wf(),
            match r {
                Ok(_) => while_pass_s(
                    old(self)@,
                    *cond,
                    body@,
                    body@.skip(from as int),
                    names_view(assigned@),
                    fuel,
                ) == Ok::<St, RunError>(final(self)@),
                Err(er) => while_pass_s(
                    old(self)@,
                    *cond,
                    body@,
                    body@.skip(from as int),
                    names_view(assigned@),
                    fuel,
                ) == Err::<St, RunError>(er),
            },
        decreases fuel, 0int,
    {
        if fuel == 0 {
            return Err(RunError::OutOfSteps);
        }
        let f2 = fuel - 1;
        if from == body.len() {
            proof {
                assert(body@.skip(from as int).len() == 0);
            }
            return self.while_run(cond, body, assigned, f2);
        }
        proof {
            assert(body@.skip(from as int)[0] == body@[from as int]);
            assert(body@.skip(from as int).drop_first() =~= body@.skip(from as int + 1));
        }
        match &body[from] {
            Node::Break => match self.run_gc(assigned) {
                Ok(_) => Ok(()),
                Err(er) => Err(er),
            },
            Node::Continue => self.while_run(cond, body, assigned, f2),
            _ => {
                let nm = match self.single_run(&body[from], f2) {
                    Ok(nm) => nm,
                    Err(er) => {
                        return Err(er);
                    },
                };
                let mut a2 = assigned;
                let ghost a0: Seq<String> = a2@;
                match nm {
                    Some(n) => {
                        a2.push(n);
                        proof {
                            assert(names_view(a2@) =~= names_view(a0).push(a2@.last()@));
                        }
                    },
                    None => {},
                }
                self.while_pass_from(cond, body, from + 1, a2, f2)
            },
        }
    }

    /// A while loop: the condition is re-evaluated before each pass.
    fn while_run(
        &mut self,
        cond: &Eval,
        body: &Vec<Node>,
        assigned: Vec<String>,
        fuel: u64,
    ) -> (r: Result<(), RunError>)
        requires
            old(self).wf(),
        ensures
            final(self).wf(),
            match r {
                Ok(_) => while_s(old(self)@, *cond, body@, names_view(assigned@), fuel) == Ok::<
                    St,
                    RunError,
                >(final(self)@),
                Err(er) => while_s(old(self)@, *cond, body@, names_view(assigned@), fuel)
                    == Err::<St, RunError>(er),
            },
        decreases fuel, 0int,
    {
        if fuel == 0 {
            return Err(RunError::OutOfSteps);
        }
        let f2 = fuel - 1;
        let v = match self.eval(cond, f2) {
            Ok(v) => v,
            Err(er) => {
                return Err(er);
            },
        };
        let taken: bool = match &v {
            Value::Bool(b) => *b,
            _ => false,
        };
        if taken {
            proof {
                assert(body@.skip(0) =~= body@);
            }
            self.while_pass_from(cond, body, 0, assigned, f2)
        } else {
            proof {
                assert(v@ != ValueV::Bool(true));
            }
            match self.run_gc(assigned) {
                Ok(_) => Ok(()),
                Err(er) => Err(er),
            }
        }
    }

    /// One statement. The returned name is what the statement reports to the
    /// collection channel; in this design the assignment path reports
    /// nothing, so collection points see empty scopes.
    /// The assignment statement as its own transition.
    fn st_assign(&mut self, name: &String, e2: &Eval, fuel: u64) -> (r: Result<
        Option<String>,
        RunError,
    >)
        requires
            old(self).wf(),
            fuel > 0,
        ensures
            final(self).wf(),
            match r {
                Ok(nm) => exec_node_s(old(self)@, Node::Assign(*name, *e2), fuel) == Ok::<
                    (St, Option<Seq<char>>),
                    RunError,
                >((final(self)@, opt_name_v(nm))),
                Err(er) => exec_node_s(old(self)@, Node::Assign(*name, *e2), fuel) == Err::<
                    (St, Option<Seq<char>>),
                    RunError,
                >(er),
            },
        decreases fuel, 0int,
    {
        let f2 = fuel - 1;
        if self.local.is_some() {
            if self.global_variables.contains(name) {
                return Err(RunError::GlobalShadow);
            }
            let v = match self.eval(e2, f2) {
                Ok(v) => v,
                Err(er) => {
                    return Err(er);
                },
            };
            let ghost mid: VirtualMachine = *self;
            let frame_opt = self.local.take();
            match frame_opt {
                None => Err(RunError::FrameMissing),
                Some(mut frame) => {
                    let ghost fr0: FieldsV = frame@;
                    frame.set(name.clone(), v);
                    proof {
                        lemma_scope_ok_mix(fr0, frame@, v@);
                    }
                    self.local = Some(frame);
                    proof {
                        lemma_streams_view(*self, mid);
                    }
                    Ok(None)
                },
            }
        } else {
            let v = match self.eval(e2, f2) {
                Ok(v) => v,
                Err(er) => {
                    return Err(er);
                },
            };
            let ghost mid: VirtualMachine = *self;
            let ghost g0: FieldsV = self@.globals;
            let ghost vv: ValueV = v@;
            self.global_variables.set(name.clone(), v);
            proof {
                lemma_scope_ok_mix(g0, self@.globals, vv);
                lemma_streams_view(*self, mid);
            }
            Ok(None)
        }
    }

    /// The unassignment statement as its own transition.
    fn st_unassign(&mut self, name: &String, fuel: u64) -> (r: Result<Option<String>, RunError>)
        requires
            old(self).wf(),
            fuel > 0,
        ensures
            final(self).wf(),
            match r {
                Ok(nm) => exec_node_s(old(self)@, Node::Unassign(*name), fuel) == Ok::<
                    (St, Option<Seq<char>>),
                    RunError,
                >((final(self)@, opt_name_v(nm))),
                Err(er) => exec_node_s(old(self)@, Node::Unassign(*name), fuel) == Err::<
                    (St, Option<Seq<char>>),
                    RunError,
                >(er),
            },
        decreases fuel, 0int,
    {
        let from_local: bool = match &self.local {
            Some(frame) => frame.contains(name),
            None => false,
        };
        if from_local {
            let ghost mid: VirtualMachine = *self;
            let frame_opt = self.local.take();
            match frame_opt {
                None => unreached(),
                Some(mut frame) => {
                    let ghost fr0: FieldsV = frame@;
                    let removed = match frame.remove(name) {
                        Some(v) => v,
                        None => unreached(),
                    };
                    proof {
                        lemma_scope_ok_sub(fr0, frame@);
                    }
                    self.local = Some(frame);
                    proof {
                        lemma_streams_view(*self, mid);
                    }
                    match self.dec_use_count(&removed) {
                        Ok(_) => Ok(None),
                        Err(er) => Err(er),
                    }
                },
            }
        } else {
            let ghost mid: VirtualMachine = *self;
            let removed = match self.global_variables.remove(name) {
                Some(v) => v,
                None => {
                    return Err(RunError::UnknownVariable);
                },
            };
            proof {
                lemma_scope_ok_sub(mid@.globals, self@.globals);
                lemma_streams_view(*self, mid);
            }
            match self.dec_use_count(&removed) {
                Ok(_) => Ok(None),
                Err(er) => Err(er),
            }
        }
    }

    /// The create-object statement as its own transition.
    fn st_create(&mut self, ptr: &Eval, flds: &Vec<(String, Eval)>, fuel: u64) -> (r: Result<
        Option<String>,
        RunError,
    >)
        requires
            old(self).wf(),
            fuel > 0,
        ensures
            final(self).wf(),
            match r {
                Ok(nm) => exec_node_s(old(self)@, Node::CreateObject(*ptr, *flds), fuel) == Ok::<
                    (St, Option<Seq<char>>),
                    RunError,
                >((final(self)@, opt_name_v(nm))),
                Err(er) => exec_node_s(old(self)@, Node::CreateObject(*ptr, *flds), fuel)
                    == Err::<(St, Option<Seq<char>>), RunError>(er),
            },
        decreases fuel, 0int,
    {
        let f2 = fuel - 1;
        let pv = match self.eval(ptr, f2) {
            Ok(v) => v,
            Err(er) => {
                return Err(er);
            },
        };
        let addr: usize = match &pv {
            Value::Int(id) => {
                if *id < 0 {
                    return Err(RunError::NegativeAddress);
                }
                *id as usize
            },
            _ => {
                return Err(RunError::TypeMismatch);
            },
        };
        if self.objects.contains(addr) {
            return Err(RunError::DuplicateObject);
        }
        let acc: StrMap<Value> = StrMap::empty();
        proof {
            assert(flds@.skip(0) =~= flds@);
        }
        let fields = match self.create_fields_from(flds, 0, acc, f2) {
            Ok(m) => m,
            Err(er) => {
                return Err(er);
            },
        };
        let ghost fv: FieldsV = fields@;
        let ghost mid: VirtualMachine = *self;
        let ghost heap0: Seq<(usize, FieldsV)> = self@.objects;
        self.objects.set(addr, Object::new(fields));
        proof {
            lemma_objects_ok_mix(heap0, self@.objects, fv);
            lemma_streams_view(*self, mid);
        }
        Ok(None)
    }

    /// The delete-object statement as its own transition.
    fn st_delete(&mut self, ptr: &Eval, fuel: u64) -> (r: Result<Option<String>, RunError>)
        requires
            old(self).wf(),
            fuel > 0,
        ensures
            final(self).wf(),
            match r {
                Ok(nm) => exec_node_s(old(self)@, Node::DeleteObject(*ptr), fuel) == Ok::<
                    (St, Option<Seq<char>>),
                    RunError,
                >((final(self)@, opt_name_v(nm))),
                Err(er) => exec_node_s(old(self)@, Node::DeleteObject(*ptr), fuel) == Err::<
                    (St, Option<Seq<char>>),
                    RunError,
                >(er),
            },
        decreases fuel, 0int,
    {
        let f2 = fuel - 1;
        let pv = match self.eval(ptr, f2) {
            Ok(v) => v,
            Err(er) => {
                return Err(er);
            },
        };
        let addr: usize = match &pv {
            Value::Int(id) => {
                if *id < 0 {
                    return Err(RunError::NegativeAddress);
                }
                *id as usize
            },
            _ => {
                return Err(RunError::TypeMismatch);
            },
        };
        let ghost mid: VirtualMachine = *self;
        let removed = self.objects.remove(addr);
        match removed {
            None => Ok(None),
            Some(obj) => {
                proof {
                    crate::sem::lemma_objects_ok_sub(mid@.objects, self@.objects);
                    lemma_streams_view(*self, mid);
                    lemma_objects_get_ok(mid@.objects, addr);
                    assert(obj@.skip(0) =~= obj@);
                }
                match self.dec_fields_from(&obj, 0) {
                    Ok(_) => Ok(None),
                    Err(er) => Err(er),
                }
            },
        }
    }

    /// The set-member statement as its own transition.
    #[verifier::rlimit(100)]
    #[verifier::spinoff_prover]
    fn st_setmember(
        &mut self,
        obj_e: &Eval,
        member: &String,
        val_e: &Eval,
        fuel: u64,
    ) -> (r: Result<Option<String>, RunError>)
        requires
            old(self).wf(),
            fuel > 0,
        ensures
            final(self).wf(),
            match r {
                Ok(nm) => exec_node_s(
                    old(self)@,
                    Node::SetMember(*obj_e, *member, *val_e),
                    fuel,
                ) == Ok::<(St, Option<Seq<char>>), RunError>((final(self)@, opt_name_v(nm))),
                Err(er) => exec_node_s(
                    old(self)@,
                    Node::SetMember(*obj_e, *member, *val_e),
                    fuel,
                ) == Err::<(St, Option<Seq<char>>), RunError>(er),
            },
        decreases fuel, 0int,
    {
        let f2 = fuel - 1;
        let tv = match self.eval(obj_e, f2) {
            Ok(v) => v,
            Err(er) => {
                return Err(er);
            },
        };
        let addr = match self.target_addr(&tv) {
            Ok(a) => a,
            Err(er) => {
                return Err(er);
            },
        };
        let v = match self.eval(val_e, f2) {
            Ok(v) => v,
            Err(er) => {
                return Err(er);
            },
        };
        self.inc_use_count(&v);
        let idx = match self.objects.index_of(addr) {
            Some(i) => i,
            None => {
                proof {
                    crate::assoc::lemma_assoc_get_none(self@.objects, addr);
                }
                return Err(RunError::UnknownObject);
            },
        };
        let ghost mid: VirtualMachine = *self;
        let (a, mut obj) = self.objects.entries.remove(idx);
        let ghost f0: FieldsV = obj@;
        let ghost vv: ValueV = v@;
        obj.fields.set(member.clone(), v);
        proof {
            lemma_scope_ok_mix(f0, obj@, vv);
        }
        let ghost newfields: FieldsV = obj@;
        self.objects.entries.insert(idx, (a, obj));
        proof {
            crate::assoc::lemma_assoc_get_at(mid@.objects, addr, idx as int);
            crate::assoc::lemma_assoc_set_at(mid@.objects, addr, newfields, idx as int);
            assert(self@.objects =~= mid@.objects.update(idx as int, (addr, newfields)));
            lemma_streams_view(*self, mid);
            assert forall|x: int, y: int|
                0 <= x < y < self@.objects.len() implies self@.objects[x].0
                != self@.objects[y].0 by {
                assert(mid@.objects[x].0 == self@.objects[x].0);
                assert(mid@.objects[y].0 == self@.objects[y].0);
            }
            lemma_objects_ok_mix(mid@.objects, self@.objects, newfields);
        }
        Ok(None)
    }

    /// One statement. The returned name is what the statement reports to the
    /// collection channel; in this design the assignment path reports
    /// nothing, so collection points see empty scopes.
    fn single_run(&mut self, n: &Node, fuel: u64) -> (r: Result<Option<String>, RunError>)
        requires
            old(self).wf(),
        ensures
            final(self).wf(),
            match r {
                Ok(nm) => exec_node_s(old(self)@, *n, fuel) == Ok::<
                    (St, Option<Seq<char>>),
                    RunError,
                >((final(self)@, opt_name_v(nm))),
                Err(er) => exec_node_s(old(self)@, *n, fuel) == Err::<
                    (St, Option<Seq<char>>),
                    RunError,
                >(er),
            },
        decreases fuel, 1int,
    {
        if fuel == 0 {
            return Err(RunError::OutOfSteps);
        }
        let f2 = fuel - 1;
        match n {
            Node::Assign(name, e2) => self.st_assign(name, e2, fuel),
            Node::Unassign(name) => self.st_unassign(name, fuel),
            Node::CreateObject(ptr, flds) => self.st_create(ptr, flds, fuel),
            Node::DeleteObject(ptr) => self.st_delete(ptr, fuel),
            Node::SetMember(obj_e, member, val_e) => self.st_setmember(obj_e, member, val_e, fuel),
            Node::Conditional(branches, els) => {
                proof {
                    assert(branches@.skip(0) =~= branches@);
                }
                match self.cond_run_from(branches, 0, els, f2) {
                    Ok(_) => Ok(None),
                    Err(er) => Err(er),
                }
            },
            Node::Loop(nodes) => {
                proof {
                    assert(names_view(Seq::<String>::empty()) =~= Seq::<Seq<char>>::empty());
                }
                match self.loop_run(nodes, Vec::new(), f2) {
                    Ok(_) => Ok(None),
                    Err(er) => Err(er),
                }
            },
            Node::WhileLoop(cond, body) => {
                proof {
                    assert(names_view(Seq::<String>::empty()) =~= Seq::<Seq<char>>::empty());
                }
                match self.while_run(cond, body, Vec::new(), f2) {
                    Ok(_) => Ok(None),
                    Err(er) => Err(er),
                }
            },
            Node::For(_, _, _) => Err(RunError::Unsupported),
            Node::FnDef(_, _, _) => Err(RunError::Unsupported),
            Node::Break => Err(RunError::InvalidJump),
            Node::Continue => Err(RunError::InvalidJump),
            Node::Return(_) => Err(RunError::InvalidJump),
            Node::FnCall(name, args) => match self.call_proto(name, args, f2) {
                Ok(_) => Ok(None),
                Err(er) => Err(er),
            },
        }
    }

    /// A whole run: the top-level statements execute in order, the final
    /// collection point runs, and the runtime reports whether any tracked
    /// allocation is left behind (the residual heap stays inspectable).
    pub fn run(&mut self, nodes: &Vec<Node>, fuel: u64) -> (r: Result<bool, RunError>)
        requires
            old(self).wf(),
        ensures
            final(self).wf(),
            match r {
                Ok(leaked) => multi_run_s(old(self)@, nodes@, fuel) == Ok::<St, RunError>(
                    final(self)@,
                ) && leaked == (final(self)@.counts.len() > 0),
                Err(er) => multi_run_s(old(self)@, nodes@, fuel) == Err::<St, RunError>(er),
            },
    {
        match self.multi_run(nodes, fuel) {
            Ok(_) => Ok(self.objects_in_use.entries.len() > 0),
            Err(er) => Err(er),
        }
    }
}
} // verus!
