use chunkvm::Chunk;
use chunkvm::OpCode;
use chunkvm::Typed;
use chunkvm::VM;

#[test]
fn chunk_can_disassemble_simple() {
    let mut chunk = Chunk::default();

    chunk.push_constant_op(Typed::Int(3), 1);
    chunk.push_op(OpCode::Return, 1);

    let output = chunk.disassemble("TEST");

    assert_eq!(
        output,
        "== TEST ==\n   \
        1: CONSTANT 0000 ; (Int) 3\n   \
        |: RETURN\n"
    );
}

#[test]
fn chunk_can_disassemble_multiline() {
    let mut chunk = Chunk::default();

    chunk.push_constant_op(Typed::Int(3), 1);
    chunk.push_op(OpCode::Return, 1);
    chunk.push_op(OpCode::Return, 2);
    chunk.push_op(OpCode::Return, 2);
    chunk.push_op(OpCode::Return, 2);
    chunk.push_op(OpCode::Return, 3);
    chunk.push_op(OpCode::Return, 4);

    let output = chunk.disassemble("TEST");

    assert_eq!(
        output,
        "== TEST ==\n   \
        1: CONSTANT 0000 ; (Int) 3\n   \
        |: RETURN\n   \
        2: RETURN\n   \
        |: RETURN\n   \
        |: RETURN\n   \
        3: RETURN\n   \
        4: RETURN\n"
    );
}

#[test]
fn mod_can_disassemble_simple() {
    let mut vm = VM::default();

    vm.push_constant_op(Typed::Int(3), 1);
    vm.push_op(OpCode::Return, 1);

    let output = vm.disassemble("TEST");

    assert_eq!(
        output,
        "== TEST ==\n   \
        1: CONSTANT 0000 ; (Int) 3\n   \
        |: RETURN\n"
    );
}

#[test]
fn mod_can_disassemble_multiline() {
    let mut vm = VM::default();

    vm.push_constant_op(Typed::Int(3), 1);
    vm.push_op(OpCode::Return, 1);
    vm.push_op(OpCode::Return, 2);
    vm.push_op(OpCode::Return, 2);
    vm.push_op(OpCode::Return, 2);
    vm.push_op(OpCode::Return, 3);
    vm.push_op(OpCode::Return, 4);

    let output = vm.disassemble("TEST");

    assert_eq!(
        output,
        "== TEST ==\n   \
        1: CONSTANT 0000 ; (Int) 3\n   \
        |: RETURN\n   \
        2: RETURN\n   \
        |: RETURN\n   \
        |: RETURN\n   \
        3: RETURN\n   \
        4: RETURN\n"
    );
}

#[test]
fn line_number_wider_than_field_prints_whole() {
    let mut chunk = Chunk::default();

    chunk.push_op(OpCode::Return, 12345);

    let output = chunk.disassemble("WIDE");

    assert_eq!(output, "== WIDE ==\n12345: RETURN\n");
}

#[test]
fn negative_constant_renders_signed() {
    let mut chunk = Chunk::default();

    chunk.push_constant_op(Typed::Int(-42), 9);
    chunk.push_op(OpCode::Return, 9);

    let output = chunk.disassemble("NEG");

    assert_eq!(
        output,
        "== NEG ==\n   \
        9: CONSTANT 0000 ; (Int) -42\n   \
        |: RETURN\n"
    );
}

#[test]
fn constant_indexes_are_zero_padded() {
    let mut chunk = Chunk::default();

    for i in 0..12 {
        chunk.push_constant_op(Typed::Int(i as isize), 1);
    }

    let output = chunk.disassemble("POOL");

    let mut expected = String::from("== POOL ==\n");
    for i in 0..12 {
        let prefix = if i == 0 { "   1" } else { "   |" };
        expected.push_str(&format!("{}: CONSTANT {:04} ; (Int) {}\n", prefix, i, i));
    }
    assert_eq!(output, expected);
}

#[test]
fn run_length_bound_rolls_over_to_fresh_run() {
    let mut chunk = Chunk::default();

    for _ in 0..300 {
        chunk.push_op(OpCode::Return, 7);
    }

    let output = chunk.disassemble("LONG");

    let mut expected = String::from("== LONG ==\n");
    for i in 0..300 {
        // the 8-bit run counter is exhausted after 255 instructions, so the
        // 256th opens a fresh run and prints its line number again
        let prefix = if i % 255 == 0 { "   7" } else { "   |" };
        expected.push_str(&format!("{}: RETURN\n", prefix));
    }
    assert_eq!(output, expected);
}
