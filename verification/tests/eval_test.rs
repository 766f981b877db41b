use qahlvm::ast::{Eval, Node};
use qahlvm::maps::{StrMap, UintMap};
use qahlvm::value::{RunError, Value};
use qahlvm::vm::{DefinedFunction, GcApproach, Object, VirtualMachine};

#[test]
fn int_literal() {
    let val = Eval::Int(1);
    assert_eq!(val.as_int(), 1);
}

#[test]
fn bool_literal() {
    let val = Eval::Bool(true);
    assert_eq!(val.as_bool(), true);
}

#[test]
fn float_literal() {
    let val = Eval::Float(1.0f32.to_bits());
    assert_eq!(val.as_float(), 1.0f32.to_bits());
}

#[test]
fn string_literal() {
    let val = Eval::String("Hello".to_string());
    assert_eq!(val.as_string(), "Hello");
}

#[test]
fn array() {
    let arr = vec![Eval::Int(1), Eval::Int(2)];
    let val = Eval::Array(vec![Eval::Int(1), Eval::Int(2)]);
    for (left, right) in val.as_array().iter().zip(arr.iter()) {
        assert_eq!(left.as_int(), right.as_int());
    }
}

#[test]
fn is_an_operator() {
    let val = Eval::Add(Box::new(Eval::Int(1)), Box::new(Eval::Int(2)));
    assert_eq!(val.is_an_operator(), true);
}

#[test]
fn deref_var_ref() {
    let mut map: StrMap<Value> = StrMap::empty();
    map.set("test".to_string(), Value::Int(1));
    let mut val = Eval::VarRef("test".to_string());
    val.deref_var_ref(&map);
    assert_eq!(val.as_int(), 1);
}

#[test]
fn deref_object_member() {
    let mut objects: UintMap<Object> = UintMap::empty();
    let mut fields: StrMap<Value> = StrMap::empty();
    fields.set("test".to_string(), Value::Int(1));
    objects.set(1, Object { fields });

    let mut variables: StrMap<Value> = StrMap::empty();
    variables.set("test".to_string(), Value::Object(1));

    let mut val = Eval::GetMember(Box::new(Eval::Int(1)), "test".to_string());
    val.deref_object_member(&objects, &variables);

    assert_eq!(val.as_int(), 1);
}

#[test]
fn operator_table() {
    let mut vm = VirtualMachine::new(GcApproach::Disabled);
    let fuel = 1_000_000u64;
    let r = vm
        .eval(&Eval::Add(Box::new(Eval::Int(2)), Box::new(Eval::Int(3))), fuel)
        .unwrap();
    assert!(matches!(r, Value::Int(5)));
    let r = vm
        .eval(
            &Eval::Add(
                Box::new(Eval::String("a".to_string())),
                Box::new(Eval::String("b".to_string())),
            ),
            fuel,
        )
        .unwrap();
    match r {
        Value::String(s) => assert_eq!(s, "ab"),
        _ => panic!("expected string"),
    }
    let r = vm
        .eval(&Eval::Pow(Box::new(Eval::Int(2)), Box::new(Eval::Int(10))), fuel)
        .unwrap();
    assert!(matches!(r, Value::Int(1024)));
    let r = vm
        .eval(
            &Eval::Div(
                Box::new(Eval::Float(1.0f32.to_bits())),
                Box::new(Eval::Float(4.0f32.to_bits())),
            ),
            fuel,
        )
        .unwrap();
    match r {
        Value::Float(bits) => assert_eq!(bits, 0.25f32.to_bits()),
        _ => panic!("expected float"),
    }
    let r = vm.eval(&Eval::Not(Box::new(Eval::Bool(true))), fuel).unwrap();
    assert!(matches!(r, Value::Bool(false)));
}

#[test]
fn type_mismatch() {
    let mut vm = VirtualMachine::new(GcApproach::Disabled);
    let r = vm.eval(
        &Eval::Add(Box::new(Eval::Int(1)), Box::new(Eval::Bool(true))),
        1_000_000,
    );
    match r {
        Err(e) => assert_eq!(e, RunError::TypeMismatch),
        Ok(_) => panic!("expected a type mismatch"),
    }
}

#[test]
fn scope_shadowing() {
    let fuel = 1_000_000u64;
    // With no local frame active, a rebind silently overwrites the global.
    let mut vm = VirtualMachine::new(GcApproach::Disabled);
    let nodes = vec![
        Node::Assign("g".to_string(), Eval::Int(1)),
        Node::Assign("g".to_string(), Eval::Int(2)),
    ];
    assert!(vm.run(&nodes, fuel).is_ok());
    match vm.global_variables.get(&"g".to_string()) {
        Some(Value::Int(2)) => {}
        other => panic!("expected g == 2, got {:?}", other.is_some()),
    }
    // Assigning a name that exists globally while a local frame is active
    // fails with the shadow-collision error.
    let mut vm = VirtualMachine::new(GcApproach::Disabled);
    let f = DefinedFunction::new(
        "f".to_string(),
        vec![],
        vec![Node::Assign("g".to_string(), Eval::Int(5))],
        false,
    );
    vm.add_defined_functions(vec![f]);
    let nodes = vec![
        Node::Assign("g".to_string(), Eval::Int(1)),
        Node::FnCall("f".to_string(), vec![]),
    ];
    assert_eq!(vm.run(&nodes, fuel), Err(RunError::GlobalShadow));
}

#[test]
fn object_lifecycle() {
    let fuel = 1_000_000u64;
    let mut vm = VirtualMachine::new(GcApproach::Disabled);
    let create = Node::CreateObject(Eval::Int(42), vec![("x".to_string(), Eval::Int(1))]);
    assert!(vm.run(&vec![create], fuel).is_ok());
    let member = Eval::GetMember(Box::new(Eval::Int(42)), "x".to_string());
    match vm.eval(&member, fuel) {
        Ok(Value::Int(1)) => {}
        _ => panic!("expected Int(1) from the created field"),
    }
    // A second create at an occupied address fails.
    let create_again = Node::CreateObject(Eval::Int(42), vec![("x".to_string(), Eval::Int(1))]);
    assert_eq!(
        vm.run(&vec![create_again], fuel),
        Err(RunError::DuplicateObject)
    );
    // After deletion the member access misses the object.
    assert!(vm.run(&vec![Node::DeleteObject(Eval::Int(42))], fuel).is_ok());
    match vm.eval(&member, fuel) {
        Err(e) => assert_eq!(e, RunError::UnknownObject),
        Ok(_) => panic!("expected the object to be gone"),
    }
}

#[test]
fn reference_counting() {
    let fuel = 1_000_000u64;
    // Two fields hold the reference; dropping both reclaims the object and
    // its tracker entry at the end-of-run collection point.
    let mut vm = VirtualMachine::new(GcApproach::ReferenceCounting);
    let nodes = vec![
        Node::CreateObject(Eval::Int(1), vec![]),
        Node::CreateObject(
            Eval::Int(2),
            vec![("a".to_string(), Eval::Object(Box::new(Eval::Int(1))))],
        ),
        Node::CreateObject(
            Eval::Int(3),
            vec![("b".to_string(), Eval::Object(Box::new(Eval::Int(1))))],
        ),
        Node::DeleteObject(Eval::Int(3)),
        Node::DeleteObject(Eval::Int(2)),
    ];
    let leaked = vm.run(&nodes, fuel).unwrap();
    assert!(!vm.objects.contains(1));
    assert!(vm.objects_in_use.entries.is_empty());
    assert!(!leaked);
    // Dropping only one of the two leaves the object resident.
    let mut vm = VirtualMachine::new(GcApproach::ReferenceCounting);
    let nodes = vec![
        Node::CreateObject(Eval::Int(1), vec![]),
        Node::CreateObject(
            Eval::Int(2),
            vec![("a".to_string(), Eval::Object(Box::new(Eval::Int(1))))],
        ),
        Node::CreateObject(
            Eval::Int(3),
            vec![("b".to_string(), Eval::Object(Box::new(Eval::Int(1))))],
        ),
        Node::DeleteObject(Eval::Int(3)),
    ];
    let leaked = vm.run(&nodes, fuel).unwrap();
    assert!(vm.objects.contains(1));
    assert!(leaked);
}

#[test]
fn loop_control() {
    let fuel = 1_000_000u64;
    // A break on the first pass ends the loop after zero further passes; the
    // statements after it never run.
    let mut vm = VirtualMachine::new(GcApproach::Disabled);
    let body = vec![
        Node::Assign("x".to_string(), Eval::Int(1)),
        Node::Break,
        Node::Assign("y".to_string(), Eval::Int(2)),
    ];
    assert!(vm.run(&vec![Node::Loop(body)], fuel).is_ok());
    assert!(vm.global_variables.contains(&"x".to_string()));
    assert!(!vm.global_variables.contains(&"y".to_string()));
    // A continue skips the rest of the pass but the loop resumes (the while
    // condition is re-tested first).
    let mut vm = VirtualMachine::new(GcApproach::Disabled);
    let wbody = vec![
        Node::Assign(
            "i".to_string(),
            Eval::Add(
                Box::new(Eval::VarRef("i".to_string())),
                Box::new(Eval::Int(1)),
            ),
        ),
        Node::Continue,
        Node::Assign("z".to_string(), Eval::Int(9)),
    ];
    let nodes = vec![
        Node::Assign("i".to_string(), Eval::Int(0)),
        Node::WhileLoop(
            Eval::Lt(
                Box::new(Eval::VarRef("i".to_string())),
                Box::new(Eval::Int(3)),
            ),
            wbody,
        ),
    ];
    assert!(vm.run(&nodes, fuel).is_ok());
    match vm.global_variables.get(&"i".to_string()) {
        Some(Value::Int(3)) => {}
        _ => panic!("expected i == 3 after the loop"),
    }
    assert!(!vm.global_variables.contains(&"z".to_string()));
}

#[test]
fn no_short_circuit() {
    let mut vm = VirtualMachine::new(GcApproach::Disabled);
    // or(true, <failing operand>) still fails: both operands are always
    // normalized.
    let r = vm.eval(
        &Eval::Or(
            Box::new(Eval::Bool(true)),
            Box::new(Eval::VarRef("missing".to_string())),
        ),
        1_000_000,
    );
    match r {
        Err(e) => assert_eq!(e, RunError::UnknownVariable),
        Ok(_) => panic!("expected the failing operand to be evaluated"),
    }
}

#[test]
fn recursion_restriction() {
    let mut vm = VirtualMachine::new(GcApproach::Disabled);
    let f = DefinedFunction::new(
        "f".to_string(),
        vec![],
        vec![Node::FnCall("f".to_string(), vec![])],
        false,
    );
    vm.add_defined_functions(vec![f]);
    // The callee is removed from the registry for the whole invocation, so a
    // self-call cannot find it.
    assert_eq!(
        vm.run(&vec![Node::FnCall("f".to_string(), vec![])], 1_000_000),
        Err(RunError::UnknownFunction)
    );
}
