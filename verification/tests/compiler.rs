use nyx_lang::ast::BinaryOp;
use nyx_lang::compiler::bytecode::{ByteCode, Instruction};
use nyx_lang::compiler::disassembler::{Disassembler, Line, Note};
use nyx_lang::compiler::fold::{FloatQuery, FloatResults};
use nyx_lang::compiler::opcodes::BinaryOpCode;
use nyx_lang::compiler::{check_compilable, CompileIssue, CompileStop, Compiler, Value};
use nyx_lang::lexer::Lexer;
use nyx_lang::parser::{FloatLiterals, Parser};
use nyx_lang::source::SourceFile;
use nyx_lang::symbol::SymbolRegistry;
use nyx_lang::token::TokenKind;

use Instruction::{Binary, DefineGlobal, LoadConstant, LoadGlobal, Unary};

fn answer(query: FloatQuery) -> u64 {
    match query {
        FloatQuery::FromInt(v) => (v as f64).to_bits(),
        FloatQuery::Arith(op, a, b) => {
            let (a, b) = (f64::from_bits(a), f64::from_bits(b));
            let r = match op {
                BinaryOp::Plus => a + b,
                BinaryOp::Minus => a - b,
                BinaryOp::Multiply => a * b,
                BinaryOp::Divide => a / b,
                _ => unreachable!(),
            };
            r.to_bits()
        }
    }
}

fn compile_source(source: &str) -> (ByteCode, SymbolRegistry) {
    let source_file = SourceFile::new("test.nyx", source);
    let mut lexer = Lexer::new(source_file.clone());
    let mut tokens = Vec::new();
    while let Some(result) = lexer.next() {
        tokens.push(result.expect("lexing failed"));
    }
    assert!(lexer.take_errors().is_empty(), "lexer reported errors");
    let registry = lexer.take_registry();
    let mut floats = FloatLiterals::new();
    for token in &tokens {
        if let TokenKind::FloatLiteral(symbol) = token.kind {
            let value: f64 = registry.resolve(symbol).parse().unwrap();
            floats.insert(symbol, value.to_bits());
        }
    }
    let mut parser = Parser::new(&tokens, &registry, &floats, source_file);
    let statements = parser.parse_all().expect("parsing failed");
    check_compilable(&statements).expect("not compilable");
    let mut results = FloatResults::new();
    let bytecode = loop {
        let mut compiler = Compiler::new(&statements);
        match compiler.compile(&results) {
            Ok(()) => break compiler.bytecode(),
            Err(CompileStop::NeedsFloat(query)) => results.insert(query, answer(query)),
            Err(stop) => panic!("compilation stopped: {stop:?}"),
        }
    };
    (bytecode, registry)
}

fn instructions(bytecode: &ByteCode, registry: &SymbolRegistry) -> Vec<Instruction> {
    Disassembler::new(bytecode, registry).lines().iter().map(|line| line.instr).collect()
}

fn names(bytecode: &ByteCode, registry: &SymbolRegistry) -> Vec<String> {
    bytecode.globals().iter().map(|s| registry.resolve(*s).to_string()).collect()
}

fn float(value: f64) -> Value {
    Value::Float(value.to_bits())
}

const ADD: u8 = 0;
const SUB: u8 = 1;
const MUL: u8 = 2;
const DIV: u8 = 3;

fn assert_single_binding(source: &str, name: &str, value: Value) {
    let (bytecode, registry) = compile_source(source);
    assert_eq!(bytecode.constants(), &[value]);
    assert_eq!(names(&bytecode, &registry), vec![name.to_string()]);
    assert_eq!(instructions(&bytecode, &registry), vec![LoadConstant(0), DefineGlobal(0)]);
}

#[test]
fn test_compile_integer_let_binding() {
    assert_single_binding("let name = 10;", "name", Value::Int(10));
}

#[test]
fn test_compile_float_let_binding() {
    assert_single_binding("let pi = 3.14;", "pi", float(3.14));
}

#[test]
fn test_compile_true_let_binding() {
    assert_single_binding("let enabled = true;", "enabled", Value::Bool(true));
}

#[test]
fn test_compile_false_let_binding() {
    assert_single_binding("let enabled = false;", "enabled", Value::Bool(false));
}

#[test]
fn test_compile_identifier_reference() {
    let (bytecode, registry) = compile_source("\n        let x = 10;\n        let y = x;\n        ");
    assert_eq!(bytecode.constants(), &[Value::Int(10)]);
    assert_eq!(names(&bytecode, &registry), vec!["x".to_string(), "y".to_string()]);
    assert_eq!(
        instructions(&bytecode, &registry),
        vec![LoadConstant(0), DefineGlobal(0), LoadGlobal(0), DefineGlobal(1)]
    );
}

#[test]
fn test_compile_addition() {
    assert_single_binding("let result = 10 + 20;", "result", Value::Int(30));
}

#[test]
fn test_compile_subtraction() {
    assert_single_binding("let result = 20 - 10;", "result", Value::Int(10));
}

#[test]
fn test_compile_multiplication() {
    assert_single_binding("let result = 10 * 20;", "result", Value::Int(200));
}

#[test]
fn test_compile_division() {
    assert_single_binding("let result = 20 / 10;", "result", Value::Int(2));
}

#[test]
fn test_compile_unary_negation() {
    assert_single_binding("let value = -10;", "value", Value::Int(-10));
}

#[test]
fn test_compile_logical_not() {
    assert_single_binding("let value = !true;", "value", Value::Bool(false));
}

#[test]
fn test_compile_multiple_let_bindings() {
    let (bytecode, registry) = compile_source("let x = 10;\nlet y = 20;\nlet z = 30;");
    assert_eq!(bytecode.constants(), &[Value::Int(10), Value::Int(20), Value::Int(30)]);
    assert_eq!(names(&bytecode, &registry), vec!["x".to_string(), "y".to_string(), "z".to_string()]);
    assert_eq!(
        instructions(&bytecode, &registry),
        vec![LoadConstant(0), DefineGlobal(0), LoadConstant(1), DefineGlobal(1), LoadConstant(2), DefineGlobal(2)]
    );
}

#[test]
fn test_compile_expression_using_globals() {
    let (bytecode, registry) = compile_source("let x = 10;\nlet y = 20;\nlet result = x + y;");
    assert_eq!(bytecode.constants(), &[Value::Int(10), Value::Int(20)]);
    assert_eq!(
        instructions(&bytecode, &registry),
        vec![
            LoadConstant(0),
            DefineGlobal(0),
            LoadConstant(1),
            DefineGlobal(1),
            LoadGlobal(0),
            LoadGlobal(1),
            Binary(ADD),
            DefineGlobal(2),
        ]
    );
}

#[test]
fn test_compile_nested_binary_expression() {
    assert_single_binding("let result = 10 + 20 * 30;", "result", Value::Int(610));
}

#[test]
fn test_compile_nested_unary_expression() {
    assert_single_binding("let result = -(-10);", "result", Value::Int(10));
}

#[test]
fn test_compile_deduplicates_multiple_constant_types() {
    let (bytecode, registry) = compile_source(
        "let a = 10;\nlet b = 10;\nlet c = 3.14;\nlet d = 3.14;\nlet e = true;\nlet f = true;\nlet g = false;\nlet h = false;",
    );
    assert_eq!(bytecode.constants(), &[Value::Int(10), float(3.14), Value::Bool(true), Value::Bool(false)]);
    assert_eq!(
        instructions(&bytecode, &registry),
        vec![
            LoadConstant(0),
            DefineGlobal(0),
            LoadConstant(0),
            DefineGlobal(1),
            LoadConstant(1),
            DefineGlobal(2),
            LoadConstant(1),
            DefineGlobal(3),
            LoadConstant(2),
            DefineGlobal(4),
            LoadConstant(2),
            DefineGlobal(5),
            LoadConstant(3),
            DefineGlobal(6),
            LoadConstant(3),
            DefineGlobal(7),
        ]
    );
}

#[test]
fn test_compile_reuses_constant_across_expressions() {
    let (bytecode, registry) = compile_source("let x = 10;\nlet y = x + 10;\nlet z = y + 10;");
    assert_eq!(bytecode.constants(), &[Value::Int(10)]);
    assert_eq!(
        instructions(&bytecode, &registry),
        vec![
            LoadConstant(0),
            DefineGlobal(0),
            LoadGlobal(0),
            LoadConstant(0),
            Binary(ADD),
            DefineGlobal(1),
            LoadGlobal(1),
            LoadConstant(0),
            Binary(ADD),
            DefineGlobal(2),
        ]
    );
}

fn assert_not_folded(source: &str, left: Value, right: Value, op: u8) {
    let (bytecode, registry) = compile_source(source);
    assert_eq!(bytecode.constants(), &[left, right]);
    assert_eq!(
        instructions(&bytecode, &registry),
        vec![LoadConstant(0), LoadConstant(1), Binary(op), DefineGlobal(0)]
    );
}

#[test]
fn test_integer_overflow_is_not_constant_folded() {
    assert_not_folded("let result = 9223372036854775807 + 1;", Value::Int(i64::MAX), Value::Int(1), ADD);
}

#[test]
fn test_integer_division_by_zero_is_not_constant_folded() {
    assert_not_folded("let result = 10 / 0;", Value::Int(10), Value::Int(0), DIV);
}

#[test]
fn test_float_division_by_zero_is_not_constant_folded() {
    assert_not_folded("let result = 10.0 / 0.0;", float(10.0), float(0.0), DIV);
}

#[test]
fn test_integer_underflow_is_not_constant_folded() {
    assert_not_folded("let result = -9223372036854775807 - 2;", Value::Int(-i64::MAX), Value::Int(2), SUB);
}

#[test]
fn test_integer_multiplication_overflow_is_not_constant_folded() {
    assert_not_folded("let result = 9223372036854775807 * 2;", Value::Int(i64::MAX), Value::Int(2), MUL);
}

// Further cases of the compiler and its listing.

#[test]
fn float_arithmetic_is_folded() {
    assert_single_binding("let r = 1 + 0.5;", "r", float(1.5));
}

#[test]
fn unary_on_a_global_is_compiled() {
    let (bytecode, registry) = compile_source("let x = true;\nlet y = !x;\nlet z = -x;");
    assert_eq!(
        instructions(&bytecode, &registry),
        vec![LoadConstant(0), DefineGlobal(0), LoadGlobal(0), Unary(1), DefineGlobal(1), LoadGlobal(0), Unary(0), DefineGlobal(2)]
    );
}

#[test]
fn listing_gives_offsets_and_what_instructions_refer_to() {
    let (bytecode, registry) = compile_source("let x = 10;\nlet y = x * 2;");
    let x = registry.get("x").unwrap();
    let lines = Disassembler::new(&bytecode, &registry).lines();
    assert_eq!(
        lines,
        vec![
            Line { offset: 0, instr: LoadConstant(0), note: Note::Constant(Value::Int(10)) },
            Line { offset: 3, instr: DefineGlobal(0), note: Note::Global(x) },
            Line { offset: 6, instr: LoadGlobal(0), note: Note::Global(x) },
            Line { offset: 9, instr: LoadConstant(1), note: Note::Constant(Value::Int(2)) },
            Line { offset: 12, instr: Binary(MUL), note: Note::BinaryOp(Some(BinaryOpCode::Mul)) },
            Line { offset: 14, instr: DefineGlobal(1), note: Note::Global(registry.get("y").unwrap()) },
        ]
    );
}

#[test]
fn redeclaring_a_global_reuses_its_slot() {
    let (bytecode, registry) = compile_source("let x = 1;\nlet x = 2;");
    assert_eq!(names(&bytecode, &registry), vec!["x".to_string()]);
    assert_eq!(
        instructions(&bytecode, &registry),
        vec![LoadConstant(0), DefineGlobal(0), LoadConstant(1), DefineGlobal(0)]
    );
}

fn issue_of(source: &str) -> Result<(), CompileIssue> {
    let source_file = SourceFile::new("test.nyx", source);
    let mut lexer = Lexer::new(source_file.clone());
    let mut tokens = Vec::new();
    while let Some(result) = lexer.next() {
        tokens.push(result.unwrap());
    }
    let registry = lexer.take_registry();
    let floats = FloatLiterals::new();
    let mut parser = Parser::new(&tokens, &registry, &floats, source_file);
    let statements = parser.parse_all().unwrap();
    check_compilable(&statements)
}

#[test]
fn check_compilable_reports_what_the_compiler_cannot_compile() {
    assert_eq!(issue_of("let x = 1; let y = x;"), Ok(()));
    assert!(matches!(issue_of("let y = x;"), Err(CompileIssue::UndefinedGlobal(_))));
    assert!(matches!(issue_of("let x = x;"), Err(CompileIssue::UndefinedGlobal(_))));
    assert_eq!(issue_of("f();"), Err(CompileIssue::Unsupported));
    assert_eq!(issue_of("let x = 2 ** 3;"), Err(CompileIssue::Unsupported));
    assert_eq!(issue_of("let x = f();"), Err(CompileIssue::Unsupported));
    assert!(matches!(issue_of("let x = y ** 3;"), Err(CompileIssue::UndefinedGlobal(_))));
}

#[test]
fn listing_offsets_step_by_instruction_width() {
    let (bytecode, registry) = compile_source("let x = 1;\nlet y = !x;\nlet z = -y + x;");
    let lines = Disassembler::new(&bytecode, &registry).lines();
    let width = |i: Instruction| match i {
        Binary(_) | Unary(_) => 2,
        Instruction::Unknown(_) => 1,
        _ => 3,
    };
    assert_eq!(lines[0].offset, 0);
    for pair in lines.windows(2) {
        assert_eq!(pair[1].offset, pair[0].offset + width(pair[0].instr));
    }
    let last = lines.last().unwrap();
    assert_eq!(last.offset + width(last.instr), bytecode.code().len());
    assert!(lines.iter().any(|l| matches!(l.instr, Unary(_))));
}

#[test]
fn compiled_expression_bytes_are_operands_then_operator() {
    let (bytecode, _registry) = compile_source("let x = 1;\nlet y = -(x * 2) + 3;");
    assert_eq!(
        bytecode.code(),
        &[
            0x26, 0, 0, 0x20, 0, 0, // let x = 1;
            0x21, 0, 0, 0x26, 1, 0, 0x30, MUL, 0x31, 0, // -(x * 2)
            0x26, 2, 0, 0x30, ADD, // + 3
            0x20, 1, 0, // let y
        ]
    );
}

#[test]
fn listing_text_lays_out_constants_globals_and_instructions() {
    let (bytecode, registry) = compile_source("let x = 10;\nlet y = x * 2;");
    let disassembler = Disassembler::new(&bytecode, &registry);
    assert!(disassembler.knows_names());
    let expected = "Constants:\n\
                    \x20  0  Int(10)\n\
                    \x20  1  Int(2)\n\
                    \n\
                    Globals:\n\
                    \x20  0  x\n\
                    \x20  1  y\n\
                    \n\
                    Bytecode:\n\
                    \x20  0  LOAD_CONSTANT          0  (Int(10))\n\
                    \x20  3  DEFINE_GLOBAL          0  (x)\n\
                    \x20  6  LOAD_GLOBAL            0  (x)\n\
                    \x20  9  LOAD_CONSTANT          1  (Int(2))\n\
                    \x20 12  BINARY                 2  (MUL)\n\
                    \x20 14  DEFINE_GLOBAL          1  (y)\n";
    assert_eq!(disassembler.listing_text(&[]), expected);
}

#[test]
fn listing_text_shows_floats_booleans_and_negative_integers_as_given() {
    let (bytecode, registry) = compile_source("let pi = 3.14;\nlet ok = true;\nlet n = -9223372036854775807 - 1;");
    let float_texts: Vec<String> = bytecode
        .constants()
        .iter()
        .map(|v| match v {
            Value::Float(bits) => format!("{:?}", f64::from_bits(*bits)),
            _ => String::new(),
        })
        .collect();
    let text = Disassembler::new(&bytecode, &registry).listing_text(&float_texts);
    assert!(text.contains("   0  Float(3.14)\n"), "{text}");
    assert!(text.contains("   1  Bool(true)\n"), "{text}");
    assert!(text.contains("   2  Int(-9223372036854775808)\n"), "{text}");
    assert!(text.contains("   0  LOAD_CONSTANT          0  (Float(3.14))\n"), "{text}");
}

#[test]
fn line_text_shows_unknown_bytes_in_hexadecimal() {
    let (bytecode, registry) = compile_source("let x = 1;");
    let disassembler = Disassembler::new(&bytecode, &registry);
    let line = Line { offset: 1234, instr: Instruction::Unknown(0xAB), note: Note::Plain };
    assert_eq!(disassembler.line_text(&line, ""), "1234  UNKNOWN            0xAB\n");
    let line = Line { offset: 7, instr: Unary(9), note: Note::UnaryOp(None) };
    assert_eq!(disassembler.line_text(&line, ""), "   7  UNARY                  9  (Unknown(9))\n");
}
