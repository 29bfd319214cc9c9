use nyx_lang::compiler::bytecode::{ByteCode, Instruction};
use nyx_lang::compiler::opcodes::{BinaryOpCode, OpCode, UnaryOpCode};
use nyx_lang::compiler::Value;
use nyx_lang::symbol::SymbolRegistry;

#[test]
fn test_bytecode_default() {
    let bytecode = ByteCode::default();
    assert!(bytecode.code().is_empty());
    assert!(bytecode.constants().is_empty());
    assert!(bytecode.globals().is_empty());
}

#[test]
fn test_bytecode_store_constant() {
    let mut registry = SymbolRegistry::new();
    let name = registry.intern("name");
    let age = registry.intern("age");
    let constants = vec![
        Value::Int(10),
        Value::Float(39.0f64.to_bits()),
        Value::Ident(name),
        Value::Bool(true),
        Value::Bool(false),
        Value::Ident(age),
    ];
    let mut bytecode = ByteCode::default();
    for item in constants.iter().copied() {
        bytecode.store_const(item);
    }
    assert_eq!(bytecode.constants(), constants.as_slice());
    assert!(bytecode.code().is_empty());
    assert!(bytecode.globals().is_empty());
}

#[test]
fn test_same_constants_are_stored_once() {
    let mut registry = SymbolRegistry::new();
    let name = registry.intern("name");
    let constants = vec![
        Value::Int(10),
        Value::Int(10),
        Value::Ident(name),
        Value::Float(39.203f64.to_bits()),
        Value::Ident(name),
        Value::Float(39.203f64.to_bits()),
        Value::Float(39.203f64.to_bits()),
        Value::Float(39.202f64.to_bits()),
        Value::Bool(true),
        Value::Bool(false),
        Value::Bool(true),
        Value::Bool(false),
    ];
    let mut bytecode = ByteCode::default();
    for item in constants.iter().copied() {
        bytecode.store_const(item);
    }
    let expected = vec![
        Value::Int(10),
        Value::Ident(name),
        Value::Float(39.203f64.to_bits()),
        Value::Float(39.202f64.to_bits()),
        Value::Bool(true),
        Value::Bool(false),
    ];
    assert_eq!(bytecode.constants(), expected.as_slice());
}

// Further cases of the bytecode.

#[test]
fn store_const_returns_the_existing_index() {
    let mut bytecode = ByteCode::default();
    assert_eq!(bytecode.store_const(Value::Int(1)), 0);
    assert_eq!(bytecode.store_const(Value::Int(2)), 1);
    assert_eq!(bytecode.store_const(Value::Int(1)), 0);
    assert_eq!(bytecode.const_index(Value::Int(2)), Some(1));
    assert_eq!(bytecode.const_index(Value::Int(3)), None);
}

#[test]
fn register_global_returns_the_existing_slot() {
    let mut registry = SymbolRegistry::new();
    let x = registry.intern("x");
    let y = registry.intern("y");
    let mut bytecode = ByteCode::default();
    assert_eq!(bytecode.register_global(x), 0);
    assert_eq!(bytecode.register_global(y), 1);
    assert_eq!(bytecode.register_global(x), 0);
    assert_eq!(bytecode.globals(), &[x, y]);
    assert_eq!(bytecode.global_slot(y), Some(1));
}

#[test]
fn instructions_are_encoded_with_little_endian_operands() {
    let mut bytecode = ByteCode::default();
    bytecode.emit_load_constant(0x0102);
    bytecode.emit_define_global(7);
    bytecode.emit_load_global(300);
    bytecode.emit_store_global(1);
    bytecode.emit_binary_opcode(BinaryOpCode::Div);
    bytecode.emit_unary_opcode(UnaryOpCode::Not);
    assert_eq!(
        bytecode.code(),
        &[0x26, 0x02, 0x01, 0x20, 7, 0, 0x21, 44, 1, 0x22, 1, 0, 0x30, 3, 0x31, 1]
    );
}

#[test]
fn opcodes_round_trip_through_bytes() {
    for op in [
        OpCode::DefineGlobal,
        OpCode::LoadGlobal,
        OpCode::StoreGlobal,
        OpCode::DefineLocal,
        OpCode::LoadLocal,
        OpCode::StoreLocal,
        OpCode::LoadConstant,
        OpCode::Binary,
        OpCode::Unary,
    ] {
        assert_eq!(OpCode::from_byte(op.to_byte()), Some(op));
    }
    assert_eq!(OpCode::from_byte(0x00), None);
    assert_eq!(OpCode::from_byte(0x27), None);
    assert_eq!(OpCode::LoadConstant.name(), "LOAD_CONSTANT");
    assert_eq!(BinaryOpCode::from_byte(2), Some(BinaryOpCode::Mul));
    assert_eq!(BinaryOpCode::from_byte(4), None);
    assert_eq!(BinaryOpCode::Sub.name(), "SUB");
    assert_eq!(UnaryOpCode::from_byte(0), Some(UnaryOpCode::Neg));
    assert_eq!(UnaryOpCode::from_byte(2), None);
    assert_eq!(UnaryOpCode::Not.name(), "NOT");
    let _ = Instruction::Unknown(0);
}
