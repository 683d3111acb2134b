use chunkvm::Chunk;
use chunkvm::InterpretError;
use chunkvm::OpCode;
use chunkvm::Typed;
use chunkvm::VM;

fn runtime_message(r: Result<(), InterpretError>) -> String {
    match r {
        Err(InterpretError::Runtime(m)) => m,
        _ => panic!("expected a runtime error"),
    }
}

#[test]
fn interpret_constant_then_return_succeeds() {
    let vm = VM::default();
    let mut c = Chunk::default();

    c.push_constant_op(Typed::Int(15), 1);
    c.push_op(OpCode::Return, 1);

    assert!(vm.interpret(&c).is_ok());
}

#[test]
fn interpret_empty_chunk_reports_end_of_program() {
    let vm = VM::default();
    let c = Chunk::default();

    let r = vm.interpret(&c);

    assert!(matches!(r, Err(InterpretError::Runtime(_))));
    assert_eq!(runtime_message(r), "unexpected end of program");
}

#[test]
fn interpret_missing_return_reports_end_of_program() {
    let vm = VM::default();
    let mut c = Chunk::default();

    c.push_constant_op(Typed::Int(1), 1);
    c.push_constant_op(Typed::Int(2), 1);

    let r = vm.interpret(&c);

    assert_eq!(runtime_message(r), "unexpected end of program");
}

#[test]
fn interpret_out_of_range_constant_reports_index() {
    let vm = VM::default();
    let mut c = Chunk::default();

    c.push_op(OpCode::Constant(3), 1);
    c.push_op(OpCode::Return, 1);

    let r = vm.interpret(&c);

    assert_eq!(runtime_message(r), "constant index out of bounds: 3");
}

#[test]
fn interpret_stops_at_first_return() {
    let vm = VM::default();
    let mut c = Chunk::default();

    // the out-of-range load after `Return` is never reached
    c.push_op(OpCode::Return, 1);
    c.push_op(OpCode::Constant(99), 1);

    assert!(vm.interpret(&c).is_ok());
}

#[test]
fn get_const_returns_pushed_value() {
    let mut c = Chunk::default();

    c.push_constant_op(Typed::Int(7), 1);
    c.push_constant_op(Typed::Int(-9), 1);

    assert_eq!(*c.get_const(0), Typed::Int(7));
    assert_eq!(*c.get_const(1), Typed::Int(-9));
}

#[test]
fn op_iter_yields_code_in_append_order() {
    let mut c = Chunk::default();

    c.push_constant_op(Typed::Int(3), 1);
    c.push_op(OpCode::Return, 2);

    let mut it = c.op_iter();
    let mut seen = Vec::new();
    while let Some(op) = it.next() {
        seen.push(op);
    }
    assert_eq!(seen, vec![OpCode::Constant(0), OpCode::Return]);
}

#[test]
fn op_iter_second_traversal_yields_same_sequence() {
    let mut c = Chunk::default();

    c.push_op(OpCode::Return, 1);
    c.push_constant_op(Typed::Int(5), 2);
    c.push_op(OpCode::Return, 3);

    let mut first = Vec::new();
    let mut it = c.op_iter();
    while let Some(op) = it.next() {
        first.push(op);
    }

    let mut second = Vec::new();
    let mut again = c.op_iter();
    while let Some(op) = again.next() {
        second.push(op);
    }

    assert_eq!(first, second);
    assert_eq!(first, vec![OpCode::Return, OpCode::Constant(0), OpCode::Return]);
}

#[test]
fn typed_description_formats_tag_and_value() {
    assert_eq!(Typed::Int(3).description(), "(Int) 3");
    assert_eq!(Typed::Int(-5).description(), "(Int) -5");
    assert_eq!(Typed::Int(0).description(), "(Int) 0");
}

#[test]
fn opcode_disassemble_renders_one_line() {
    let constants = vec![Typed::Int(3)];

    let line = OpCode::Return.disassemble(String::from("   1"), &constants);
    assert_eq!(line, "   1: RETURN\n");

    let line = OpCode::Constant(0).disassemble(String::from("   |"), &constants);
    assert_eq!(line, "   |: CONSTANT 0000 ; (Int) 3\n");
}
