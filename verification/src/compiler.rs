//! The bytecode compiler: constant folding, code generation and listing.
use vstd::prelude::*;

use crate::ast::{BinaryOp, Expr, ExprKind, ExprKindView, ExprView, SpannedIdentifier, Stmt, StmtKind, StmtKindView, StmtView, UnaryOp};
use crate::symbol::Symbol;

pub mod opcodes;
pub mod bytecode;
pub mod fold;
pub mod disassembler;

use bytecode::{
    add_const, add_global, encode, encode_all, lemma_encode_all_append, lemma_encode_all_push, u16_bytes, ByteCode,
    ByteCodeView, Instruction,
};
use fold::{fold_expr, fold_spec, is_arith, Fold, FloatQuery, FloatResults};
use opcodes::{BinaryOpCode, UnaryOpCode};

verus! {

/// A constant value of the language.
#[derive(Debug, Clone, Copy, PartialEq, Eq, Structural)]
pub enum Value {
    Int(i64),
    /// A floating-point value, by the bit pattern of its IEEE-754 `f64`.
    Float(u64),
    Bool(bool),
    /// An interned name.
    Ident(Symbol),
}


// ---------------------------------------------------------------------------
// What compiling produces
// ---------------------------------------------------------------------------
/// Why compilation stopped before the end.
#[derive(Debug, Clone, Copy, PartialEq, Eq, Structural)]
pub enum CompileStop {
    /// The result of this floating-point computation is needed to fold a
    /// constant; record it and compile again.
    NeedsFloat(FloatQuery),
    /// The constant pool is full: its indices are `u16`.
    TooManyConstants,
    /// The global table is full: its slots are `u16`.
    TooManyGlobals,
}

/// `st` with `instr` appended.
pub open spec fn emit_spec(st: ByteCodeView, instr: Instruction) -> ByteCodeView {
    ByteCodeView { instrs: st.instrs.push(instr), ..st }
}

/// Loading the constant `value` from `st`: it is added to the pool unless
/// already there; a new constant does not fit in a full pool.
pub open spec fn load_const_spec(st: ByteCodeView, value: Value) -> (ByteCodeView, Option<CompileStop>) {
    if !st.constants.contains(value) && st.constants.len() >= 65536 {
        (st, Some(CompileStop::TooManyConstants))
    } else {
        let (constants, index) = add_const(st.constants, value);
        (
            ByteCodeView {
                instrs: st.instrs.push(Instruction::LoadConstant(index as u16)),
                constants,
                globals: st.globals,
            },
            None,
        )
    }
}

/// The byte selecting the instruction for an arithmetic operator.
pub open spec fn binary_code(op: BinaryOp) -> u8 {
    match op {
        BinaryOp::Plus => BinaryOpCode::Add.byte(),
        BinaryOp::Minus => BinaryOpCode::Sub.byte(),
        BinaryOp::Multiply => BinaryOpCode::Mul.byte(),
        _ => BinaryOpCode::Div.byte(),
    }
}

/// The byte selecting the instruction for a unary operator.
pub open spec fn unary_code(op: UnaryOp) -> u8 {
    match op {
        UnaryOp::Minus => UnaryOpCode::Neg.byte(),
        UnaryOp::Not => UnaryOpCode::Not.byte(),
    }
}

/// Compiling `e` from `st`: a constant expression loads its folded value;
/// otherwise the operands are compiled and the operator applied. The second
/// component says why compilation stopped, if it did.
pub open spec fn compile_expr_spec(st: ByteCodeView, e: ExprView, results: Seq<(FloatQuery, u64)>) -> (
    ByteCodeView,
    Option<CompileStop>,
)
    decreases e,
{
    match fold_spec(e, results) {
        Fold::Const(v) => load_const_spec(st, v),
        Fold::Needs(q) => (st, Some(CompileStop::NeedsFloat(q))),
        Fold::NotConstant => match e.kind {
            ExprKindView::IntLiteral(v) => load_const_spec(st, Value::Int(v)),
            ExprKindView::FloatLiteral(bits) => load_const_spec(st, Value::Float(bits)),
            ExprKindView::Bool(b) => load_const_spec(st, Value::Bool(b)),
            ExprKindView::Identifier(s) => (
                emit_spec(st, Instruction::LoadGlobal(st.globals.index_of(s) as u16)),
                None,
            ),
            ExprKindView::Binary { left, op, right } => {
                let (s1, q1) = compile_expr_spec(st, *left, results);
                if q1 is Some {
                    (s1, q1)
                } else {
                    let (s2, q2) = compile_expr_spec(s1, *right, results);
                    if q2 is Some {
                        (s2, q2)
                    } else {
                        (emit_spec(s2, Instruction::Binary(binary_code(op))), None)
                    }
                }
            },
            ExprKindView::Unary { op, expr } => {
                let (s1, q1) = compile_expr_spec(st, *expr, results);
                if q1 is Some {
                    (s1, q1)
                } else {
                    (emit_spec(s1, Instruction::Unary(unary_code(op))), None)
                }
            },
            ExprKindView::Call { .. } => (st, None),
        },
    }
}

/// Compiling `let name = e;` from `st`: the value, then the definition of
/// the global in its slot.
pub open spec fn compile_let_spec(st: ByteCodeView, name: Symbol, e: ExprView, results: Seq<(FloatQuery, u64)>) -> (
    ByteCodeView,
    Option<CompileStop>,
) {
    let (s1, q) = compile_expr_spec(st, e, results);
    if q is Some {
        (s1, q)
    } else if !s1.globals.contains(name) && s1.globals.len() >= 65536 {
        (s1, Some(CompileStop::TooManyGlobals))
    } else {
        let (globals, slot) = add_global(s1.globals, name);
        (
            ByteCodeView {
                instrs: s1.instrs.push(Instruction::DefineGlobal(slot as u16)),
                constants: s1.constants,
                globals,
            },
            None,
        )
    }
}

/// Compiling the statements `stmts` in order from `st`.
pub open spec fn compile_stmts_spec(st: ByteCodeView, stmts: Seq<StmtView>, results: Seq<(FloatQuery, u64)>) -> (
    ByteCodeView,
    Option<CompileStop>,
)
    decreases stmts.len(),
{
    if stmts.len() == 0 {
        (st, None)
    } else {
        let (s1, q) = match stmts[0].kind {
            StmtKindView::Let { name, expr } => compile_let_spec(st, name.name(), expr, results),
            _ => (st, None),
        };
        if q is Some {
            (s1, q)
        } else {
            compile_stmts_spec(s1, stmts.drop_first(), results)
        }
    }
}

/// Whether `e` can be compiled when the globals `defined` exist: it uses only
/// literals, defined globals, unary operators and the arithmetic operators.
pub open spec fn compilable_expr(e: ExprView, defined: Set<Symbol>) -> bool
    decreases e,
{
    match e.kind {
        ExprKindView::IntLiteral(_) | ExprKindView::FloatLiteral(_) | ExprKindView::Bool(_) => true,
        ExprKindView::Identifier(s) => defined.contains(s),
        ExprKindView::Unary { expr, .. } => compilable_expr(*expr, defined),
        ExprKindView::Binary { left, op, right } => is_arith(op) && compilable_expr(*left, defined)
            && compilable_expr(*right, defined),
        ExprKindView::Call { .. } => false,
    }
}

/// Whether `stmt` declares the name `symbol`.
pub open spec fn declares(stmt: StmtView, symbol: Symbol) -> bool {
    stmt.kind matches StmtKindView::Let { name, .. } && name.name() == symbol
}

/// The names declared by the first `n` statements.
pub open spec fn declared(stmts: Seq<StmtView>, n: int) -> Set<Symbol> {
    Set::new(|s: Symbol| exists|i: int| 0 <= i < n && #[trigger] declares(stmts[i], s))
}

/// Whether the statements can be compiled: each is a `let` whose value uses
/// only names declared before it.
pub open spec fn compilable(stmts: Seq<StmtView>) -> bool {
    forall|i: int|
        0 <= i < stmts.len() ==> (#[trigger] stmts[i].kind matches StmtKindView::Let { expr, .. }
            && compilable_expr(expr, declared(stmts, i)))
}

/// The views of statements.
pub open spec fn views(stmts: Seq<Stmt>) -> Seq<StmtView> {
    stmts.map_values(|s: Stmt| s@)
}

/// A stop as the result of a compilation step.
pub open spec fn stop_of(r: Result<(), CompileStop>) -> Option<CompileStop> {
    match r {
        Ok(()) => None,
        Err(q) => Some(q),
    }
}

// ---------------------------------------------------------------------------
// The compiler
// ---------------------------------------------------------------------------
/// Compiles statements into bytecode.
pub struct Compiler<'a> {
    stmts: &'a [Stmt],
    bytecode: ByteCode,
}

impl<'a> Compiler<'a> {
    /// The statements to compile.
    pub closed spec fn statements(&self) -> Seq<StmtView> {
        views(self.stmts@)
    }

    /// The bytecode produced so far.
    pub closed spec fn output(&self) -> ByteCodeView {
        self.bytecode@
    }

    /// A compiler for `stmts`, with empty bytecode.
    pub fn new(stmts: &'a [Stmt]) -> (c: Compiler<'a>)
        ensures
            c.statements() == views(stmts@),
            c.output() == (ByteCodeView {
                instrs: Seq::<Instruction>::empty(),
                constants: Seq::<Value>::empty(),
                globals: Seq::<Symbol>::empty(),
            }),
    {
        Compiler { stmts, bytecode: ByteCode::default() }
    }

    /// Compiles every statement, in order.
    ///
    /// Floating-point constants are folded with the results in `results`;
    /// when one is missing, compilation stops and names it, and can be run
    /// again on a fresh compiler once the result is recorded. Compilation also
    /// stops when the constant pool or the global table is full.
    pub fn compile(&mut self, results: &FloatResults) -> (r: Result<(), CompileStop>)
        requires
            compilable(old(self).statements()),
        ensures
            final(self).statements() == old(self).statements(),
            (final(self).output(), stop_of(r)) == compile_stmts_spec(
                old(self).output(),
                old(self).statements(),
                results@,
            ),
    {
        let ghost st0 = self.bytecode@;
        let ghost all = views(self.stmts@);
        let mut i: usize = 0;
        proof {
            assert(all.skip(0) =~= all);
        }
        while i < self.stmts.len()
            invariant
                i <= self.stmts@.len(),
                all == views(self.stmts@),
                all == old(self).statements(),
                st0 == old(self).output(),
                compilable(all),
                compile_stmts_spec(self.bytecode@, all.skip(i as int), results@) == compile_stmts_spec(
                    st0,
                    all,
                    results@,
                ),
                forall|s: Symbol| #[trigger] declared(all, i as int).contains(s) ==> self.bytecode@.globals.contains(s),
            decreases self.stmts@.len() - i,
        {
            let ghost rest = all.skip(i as int);
            proof {
                assert(rest[0] == all[i as int]);
                assert(rest.drop_first() =~= all.skip(i + 1));
                assert(all[i as int] == self.stmts@[i as int]@);
            }
            let stmt = &self.stmts[i];
            match stmt.kind() {
                StmtKind::Let { name, expr } => {
                    proof {
                        assert(all[i as int].kind matches StmtKindView::Let { .. });
                        lemma_compilable_mono(expr@, declared(all, i as int), self.bytecode@.globals.to_set());
                    }
                    let ghost g_before = self.bytecode@.globals;
                    match self.compile_let_stmt(name, expr, results) {
                        Ok(()) => {},
                        Err(q) => return Err(q),
                    }
                    proof {
                        assert(all[i as int].kind == StmtKindView::Let { name: *name, expr: expr@ });
                        assert forall|s: Symbol| #[trigger] declared(all, i + 1).contains(s) implies self.bytecode@.globals.contains(s) by {
                            let k = choose|k: int| 0 <= k < i + 1 && #[trigger] declares(all[k], s);
                            if k < i {
                                assert(declared(all, i as int).contains(s));
                                assert(g_before.to_set().contains(s));
                                assert(self.bytecode@.globals.to_set().contains(s));
                            }
                        }
                    }
                },
                _ => {
                    proof {
                        assert(false);
                    }
                },
            }
            i = i + 1;
        }
        proof {
            assert(all.skip(i as int).len() == 0);
        }
        Ok(())
    }

    /// Takes the bytecode produced, leaving the compiler with empty bytecode.
    pub fn bytecode(&mut self) -> (b: ByteCode)
        ensures
            b@ == old(self).output(),
            final(self).statements() == old(self).statements(),
            final(self).output() == (ByteCodeView {
                instrs: Seq::<Instruction>::empty(),
                constants: Seq::<Value>::empty(),
                globals: Seq::<Symbol>::empty(),
            }),
    {
        let mut b = ByteCode::default();
        std::mem::swap(&mut b, &mut self.bytecode);
        b
    }

    /// Compiles `let name = expr;`: the value, then the definition of the global.
    fn compile_let_stmt(&mut self, name: &SpannedIdentifier, expr: &Expr, results: &FloatResults) -> (r: Result<(), CompileStop>)
        requires
            compilable_expr(expr@, old(self).output().globals.to_set()),
        ensures
            final(self).statements() == old(self).statements(),
            (final(self).output(), stop_of(r)) == compile_let_spec(old(self).output(), name.name(), expr@, results@),
            r is Ok ==> final(self).output().globals.contains(name.name()),
            old(self).output().globals.to_set() <= final(self).output().globals.to_set(),
    {
        match self.compile_expr(expr, results) {
            Ok(()) => {},
            Err(q) => return Err(q),
        }
        let ghost before = self.bytecode@.globals;
        let symbol = name.symbol();
        if self.bytecode.global_slot(symbol).is_none() && self.bytecode.globals().len() >= 65536 {
            return Err(CompileStop::TooManyGlobals);
        }
        let index = self.bytecode.register_global(symbol);
        self.bytecode.emit_define_global(index);
        proof {
            if !before.contains(name.name()) {
                assert(self.bytecode@.globals[before.len() as int] == name.name());
            }
            assert forall|s: Symbol| before.contains(s) implies self.bytecode@.globals.contains(s) by {
                let k = choose|k: int| 0 <= k < before.len() && before[k] == s;
                if !before.contains(name.name()) {
                    assert(before.push(name.name())[k] == s);
                }
            }
        }
        Ok(())
    }

    /// Compiles `expr`: a constant expression loads its folded value;
    /// otherwise its operands are compiled and the operator applied.
    fn compile_expr(&mut self, expr: &Expr, results: &FloatResults) -> (r: Result<(), CompileStop>)
        requires
            compilable_expr(expr@, old(self).output().globals.to_set()),
        ensures
            final(self).statements() == old(self).statements(),
            (final(self).output(), stop_of(r)) == compile_expr_spec(old(self).output(), expr@, results@),
            final(self).output().globals == old(self).output().globals,
        decreases expr@,
    {
        match fold_expr(expr, results) {
            Fold::Const(value) => return self.load_constant(value),
            Fold::Needs(q) => return Err(CompileStop::NeedsFloat(q)),
            Fold::NotConstant => {},
        }
        match expr.kind() {
            ExprKind::IntLiteral(value) => self.load_constant(Value::Int(*value)),
            ExprKind::FloatLiteral(bits) => self.load_constant(Value::Float(*bits)),
            ExprKind::Bool(value) => self.load_constant(Value::Bool(*value)),
            ExprKind::Identifier(symbol) => {
                proof {
                    assert(self.bytecode@.globals.to_set().contains(*symbol));
                }
                match self.bytecode.global_slot(*symbol) {
                    Some(index) => self.bytecode.emit_load_global(index),
                    None => {},
                }
                Ok(())
            },
            ExprKind::Binary { left, op, right } => {
                match self.compile_expr(left, results) {
                    Ok(()) => {},
                    Err(q) => return Err(q),
                }
                match self.compile_expr(right, results) {
                    Ok(()) => {},
                    Err(q) => return Err(q),
                }
                match op {
                    BinaryOp::Plus => self.bytecode.emit_binary_opcode(BinaryOpCode::Add),
                    BinaryOp::Minus => self.bytecode.emit_binary_opcode(BinaryOpCode::Sub),
                    BinaryOp::Multiply => self.bytecode.emit_binary_opcode(BinaryOpCode::Mul),
                    _ => self.bytecode.emit_binary_opcode(BinaryOpCode::Div),
                }
                Ok(())
            },
            ExprKind::Unary { op, expr: operand } => {
                match self.compile_expr(operand, results) {
                    Ok(()) => {},
                    Err(q) => return Err(q),
                }
                match op {
                    UnaryOp::Minus => self.bytecode.emit_unary_opcode(UnaryOpCode::Neg),
                    UnaryOp::Not => self.bytecode.emit_unary_opcode(UnaryOpCode::Not),
                }
                Ok(())
            },
            ExprKind::Call { .. } => Ok(()),
        }
    }

    /// Adds `value` to the constant pool and emits its load.
    fn load_constant(&mut self, value: Value) -> (r: Result<(), CompileStop>)
        ensures
            final(self).statements() == old(self).statements(),
            (final(self).output(), stop_of(r)) == load_const_spec(old(self).output(), value),
    {
        if self.bytecode.const_index(value).is_none() && self.bytecode.constants().len() >= 65536 {
            return Err(CompileStop::TooManyConstants);
        }
        let index = self.bytecode.store_const(value);
        self.bytecode.emit_load_constant(index);
        Ok(())
    }
}

/// A constant expression compiles to a single load of its folded value, which
/// the constant pool then holds once.
pub proof fn lemma_constant_expression_loads_once(st: ByteCodeView, e: ExprView, results: Seq<(FloatQuery, u64)>)
    requires
        fold_spec(e, results) is Const,
        st.constants.no_duplicates(),
        st.constants.len() <= 65536,
        st.constants.contains(fold_spec(e, results)->Const_0) || st.constants.len() < 65536,
    ensures
        ({
            let v = fold_spec(e, results)->Const_0;
            let (after, stop) = compile_expr_spec(st, e, results);
            &&& stop is None
            &&& after.instrs.len() == st.instrs.len() + 1
            &&& after.instrs.subrange(0, st.instrs.len() as int) == st.instrs
            &&& after.instrs.last() matches Instruction::LoadConstant(index) && after.constants[index as int] == v
            &&& after.constants.no_duplicates()
            &&& after.globals == st.globals
        }),
{
    let v = fold_spec(e, results)->Const_0;
    bytecode::lemma_add_const_dedups(st.constants, v);
    assert(compile_expr_spec(st, e, results) == load_const_spec(st, v));
    let (constants, index) = add_const(st.constants, v);
    assert(0 <= index < 65536);
    let after = compile_expr_spec(st, e, results).0;
    assert(after.instrs == st.instrs.push(Instruction::LoadConstant(index as u16)));
    assert(after.instrs.subrange(0, st.instrs.len() as int) =~= st.instrs);
}

/// The bytes that compiling `e` from `st` appends to the code.
pub open spec fn expr_bytes(st: ByteCodeView, e: ExprView, results: Seq<(FloatQuery, u64)>) -> Seq<u8> {
    let after = compile_expr_spec(st, e, results).0;
    encode_all(after.instrs).skip(encode_all(st.instrs).len() as int)
}

/// Code that extends `small` encodes as `small`'s bytes followed by the
/// bytes of what was added.
proof fn lemma_prefix_bytes(small: Seq<Instruction>, big: Seq<Instruction>)
    requires
        small.len() <= big.len(),
        big.subrange(0, small.len() as int) == small,
    ensures
        encode_all(big) == encode_all(small) + encode_all(big.skip(small.len() as int)),
        encode_all(big).skip(encode_all(small).len() as int) == encode_all(big.skip(small.len() as int)),
{
    assert(small + big.skip(small.len() as int) =~= big);
    lemma_encode_all_append(small, big.skip(small.len() as int));
    assert(encode_all(big).skip(encode_all(small).len() as int) =~= encode_all(big.skip(small.len() as int)));
}

/// Compiling an expression only appends instructions, and leaves the globals
/// as they were.
proof fn lemma_compile_expr_appends(st: ByteCodeView, e: ExprView, results: Seq<(FloatQuery, u64)>)
    ensures
        compile_expr_spec(st, e, results).0.instrs.len() >= st.instrs.len(),
        compile_expr_spec(st, e, results).0.instrs.subrange(0, st.instrs.len() as int) == st.instrs,
        compile_expr_spec(st, e, results).0.globals == st.globals,
    decreases e,
{
    let n = st.instrs.len() as int;
    assert(st.instrs.subrange(0, n) =~= st.instrs);
    match fold_spec(e, results) {
        Fold::Const(v) => {
            assert(st.instrs.push(Instruction::LoadConstant(add_const(st.constants, v).1 as u16)).subrange(0, n)
                =~= st.instrs);
        },
        Fold::Needs(_) => {},
        Fold::NotConstant => match e.kind {
            ExprKindView::Identifier(s) => {
                assert(st.instrs.push(Instruction::LoadGlobal(st.globals.index_of(s) as u16)).subrange(0, n)
                    =~= st.instrs);
            },
            ExprKindView::Binary { left, op, right } => {
                lemma_compile_expr_appends(st, *left, results);
                let s1 = compile_expr_spec(st, *left, results).0;
                lemma_compile_expr_appends(s1, *right, results);
                let s2 = compile_expr_spec(s1, *right, results).0;
                assert(s2.instrs.subrange(0, n) =~= s2.instrs.subrange(0, s1.instrs.len() as int).subrange(0, n));
                assert(s2.instrs.push(Instruction::Binary(binary_code(op))).subrange(0, n) =~= s2.instrs.subrange(
                    0,
                    n,
                ));
            },
            ExprKindView::Unary { op, expr } => {
                lemma_compile_expr_appends(st, *expr, results);
                let s1 = compile_expr_spec(st, *expr, results).0;
                assert(s1.instrs.push(Instruction::Unary(unary_code(op))).subrange(0, n) =~= s1.instrs.subrange(
                    0,
                    n,
                ));
            },
            _ => {
                match e.kind {
                    ExprKindView::IntLiteral(v) => {
                        let i = add_const(st.constants, Value::Int(v)).1;
                        assert(st.instrs.push(Instruction::LoadConstant(i as u16)).subrange(0, n) =~= st.instrs);
                    },
                    ExprKindView::FloatLiteral(b) => {
                        let i = add_const(st.constants, Value::Float(b)).1;
                        assert(st.instrs.push(Instruction::LoadConstant(i as u16)).subrange(0, n) =~= st.instrs);
                    },
                    ExprKindView::Bool(b) => {
                        let i = add_const(st.constants, Value::Bool(b)).1;
                        assert(st.instrs.push(Instruction::LoadConstant(i as u16)).subrange(0, n) =~= st.instrs);
                    },
                    _ => {},
                }
            },
        },
    }
}

/// What compiling an expression appends to the code, byte by byte, when it
/// does not stop. A constant expression appends one `LoadConstant` (`0x26`)
/// of the pool index that holds its value. Otherwise an identifier appends a
/// `LoadGlobal` (`0x21`) of its slot; a binary operator appends the bytes of
/// its left operand, then those of its right operand, then `Binary` (`0x30`)
/// and the operator's byte; a unary operator appends the bytes of its
/// operand, then `Unary` (`0x31`) and the operator's byte. The code before is
/// kept, and the globals are unchanged.
pub proof fn lemma_compile_expr_bytes(st: ByteCodeView, e: ExprView, results: Seq<(FloatQuery, u64)>)
    requires
        st.constants.len() <= 65536,
        compile_expr_spec(st, e, results).1 is None,
    ensures
        ({
            let after = compile_expr_spec(st, e, results).0;
            let bytes = expr_bytes(st, e, results);
            &&& after.globals == st.globals
            &&& encode_all(after.instrs) == encode_all(st.instrs) + bytes
            &&& match fold_spec(e, results) {
                Fold::Const(v) => after.instrs.last() matches Instruction::LoadConstant(index)
                    && after.constants[index as int] == v && bytes == seq![0x26u8] + u16_bytes(index),
                _ => match e.kind {
                    ExprKindView::Identifier(s) => bytes == seq![0x21u8] + u16_bytes(
                        st.globals.index_of(s) as u16,
                    ),
                    ExprKindView::Binary { left, op, right } => bytes == expr_bytes(st, *left, results)
                        + expr_bytes(compile_expr_spec(st, *left, results).0, *right, results) + seq![
                        0x30u8,
                        binary_code(op),
                    ],
                    ExprKindView::Unary { op, expr } => bytes == expr_bytes(st, *expr, results) + seq![
                        0x31u8,
                        unary_code(op),
                    ],
                    ExprKindView::Call { .. } => bytes == Seq::<u8>::empty(),
                    _ => true,
                },
            }
        }),
{
    let after = compile_expr_spec(st, e, results).0;
    lemma_compile_expr_appends(st, e, results);
    lemma_prefix_bytes(st.instrs, after.instrs);
    let n = st.instrs.len() as int;
    match fold_spec(e, results) {
        Fold::Const(v) => {
            let (constants, index) = add_const(st.constants, v);
            let i = Instruction::LoadConstant(index as u16);
            assert(after.instrs == st.instrs.push(i));
            assert(after.instrs.skip(n) =~= seq![i]);
            assert(encode_all(seq![i]) =~= encode(i)) by {
                assert(seq![i].drop_first() =~= Seq::<Instruction>::empty());
                assert(encode_all(Seq::<Instruction>::empty()) =~= Seq::<u8>::empty());
            }
            assert(0 <= index < 65536);
            assert(constants[index] == v);
        },
        Fold::Needs(_) => {},
        Fold::NotConstant => match e.kind {
            ExprKindView::Identifier(s) => {
                let i = Instruction::LoadGlobal(st.globals.index_of(s) as u16);
                assert(after.instrs.skip(n) =~= seq![i]);
                assert(encode_all(seq![i]) =~= encode(i)) by {
                    assert(seq![i].drop_first() =~= Seq::<Instruction>::empty());
                    assert(encode_all(Seq::<Instruction>::empty()) =~= Seq::<u8>::empty());
                }
            },
            ExprKindView::Binary { left, op, right } => {
                let s1 = compile_expr_spec(st, *left, results).0;
                let s2 = compile_expr_spec(s1, *right, results).0;
                lemma_compile_expr_appends(st, *left, results);
                lemma_compile_expr_appends(s1, *right, results);
                lemma_prefix_bytes(st.instrs, s1.instrs);
                lemma_prefix_bytes(s1.instrs, s2.instrs);
                let a = s1.instrs.skip(n);
                let b = s2.instrs.skip(s1.instrs.len() as int);
                let i = Instruction::Binary(binary_code(op));
                assert(after.instrs.skip(n) =~= (a + b).push(i));
                lemma_encode_all_push(a + b, i);
                lemma_encode_all_append(a, b);
            },
            ExprKindView::Unary { op, expr } => {
                let s1 = compile_expr_spec(st, *expr, results).0;
                lemma_compile_expr_appends(st, *expr, results);
                lemma_prefix_bytes(st.instrs, s1.instrs);
                let a = s1.instrs.skip(n);
                let i = Instruction::Unary(unary_code(op));
                assert(after.instrs.skip(n) =~= a.push(i));
                lemma_encode_all_push(a, i);
            },
            ExprKindView::Call { .. } => {
                assert(after.instrs.skip(n) =~= Seq::<Instruction>::empty());
                assert(encode_all(Seq::<Instruction>::empty()) =~= Seq::<u8>::empty());
            },
            _ => {},
        },
    }
}

/// Compilability only needs the globals that an expression names.
pub proof fn lemma_compilable_mono(e: ExprView, a: Set<Symbol>, b: Set<Symbol>)
    requires
        compilable_expr(e, a),
        a <= b,
    ensures
        compilable_expr(e, b),
    decreases e,
{
    match e.kind {
        ExprKindView::Unary { expr, .. } => lemma_compilable_mono(*expr, a, b),
        ExprKindView::Binary { left, right, .. } => {
            lemma_compilable_mono(*left, a, b);
            lemma_compilable_mono(*right, a, b);
        },
        _ => {},
    }
}


// ---------------------------------------------------------------------------
// What the compiler cannot compile
// ---------------------------------------------------------------------------
/// Why statements cannot be compiled.
#[derive(Debug, Clone, Copy, PartialEq, Eq, Structural)]
pub enum CompileIssue {
    /// A statement or an expression that the compiler does not handle yet:
    /// anything but `let`, a call, an assignment or a power.
    Unsupported,
    /// A name used where no earlier `let` declares it.
    UndefinedGlobal(Symbol),
}

/// The first issue met when compiling `e` with the globals `defined`, in the
/// order the compiler visits it: operands left to right, then the operator.
pub open spec fn expr_issue(e: ExprView, defined: Set<Symbol>) -> Option<CompileIssue>
    decreases e,
{
    match e.kind {
        ExprKindView::IntLiteral(_) | ExprKindView::FloatLiteral(_) | ExprKindView::Bool(_) => None,
        ExprKindView::Identifier(s) => if defined.contains(s) {
            None
        } else {
            Some(CompileIssue::UndefinedGlobal(s))
        },
        ExprKindView::Unary { expr, .. } => expr_issue(*expr, defined),
        ExprKindView::Binary { left, op, right } => match expr_issue(*left, defined) {
            Some(i) => Some(i),
            None => match expr_issue(*right, defined) {
                Some(i) => Some(i),
                None => if is_arith(op) {
                    None
                } else {
                    Some(CompileIssue::Unsupported)
                },
            },
        },
        ExprKindView::Call { .. } => Some(CompileIssue::Unsupported),
    }
}

/// The first issue met when compiling the statements from the `n`-th on.
pub open spec fn stmts_issue(stmts: Seq<StmtView>, n: int) -> Option<CompileIssue>
    decreases stmts.len() - n,
{
    if n < 0 || n >= stmts.len() {
        None
    } else {
        match stmts[n].kind {
            StmtKindView::Let { expr, .. } => match expr_issue(expr, declared(stmts, n)) {
                Some(i) => Some(i),
                None => stmts_issue(stmts, n + 1),
            },
            _ => Some(CompileIssue::Unsupported),
        }
    }
}

/// An expression has no issue exactly when it can be compiled.
pub proof fn lemma_expr_issue(e: ExprView, defined: Set<Symbol>)
    ensures
        (expr_issue(e, defined) is None) == compilable_expr(e, defined),
    decreases e,
{
    match e.kind {
        ExprKindView::Unary { expr, .. } => lemma_expr_issue(*expr, defined),
        ExprKindView::Binary { left, right, .. } => {
            lemma_expr_issue(*left, defined);
            lemma_expr_issue(*right, defined);
        },
        _ => {},
    }
}

/// Statements have no issue from the `n`-th on exactly when those can be compiled.
pub proof fn lemma_stmts_issue(stmts: Seq<StmtView>, n: int)
    requires
        0 <= n <= stmts.len(),
    ensures
        (stmts_issue(stmts, n) is None) == (forall|i: int|
            n <= i < stmts.len() ==> (#[trigger] stmts[i].kind matches StmtKindView::Let { expr, .. }
                && compilable_expr(expr, declared(stmts, i)))),
    decreases stmts.len() - n,
{
    if n < stmts.len() {
        lemma_stmts_issue(stmts, n + 1);
        match stmts[n].kind {
            StmtKindView::Let { expr, .. } => {
                lemma_expr_issue(expr, declared(stmts, n));
            },
            _ => {},
        }
    }
}

/// Finds the first thing in `stmts` that the compiler cannot compile, in the
/// order it compiles them; `Ok` exactly when the statements are compilable.
pub fn check_compilable(stmts: &[Stmt]) -> (r: Result<(), CompileIssue>)
    ensures
        match r {
            Ok(()) => stmts_issue(views(stmts@), 0) is None,
            Err(i) => stmts_issue(views(stmts@), 0) == Some(i),
        },
        r is Ok <==> compilable(views(stmts@)),
{
    let ghost all = views(stmts@);
    proof {
        lemma_stmts_issue(all, 0);
        assert(Seq::<Symbol>::empty().to_set() =~= declared(all, 0));
    }
    let mut names: Vec<Symbol> = Vec::new();
    let mut i: usize = 0;
    while i < stmts.len()
        invariant
            i <= stmts@.len(),
            all == views(stmts@),
            stmts_issue(all, 0) == stmts_issue(all, i as int),
            names@.to_set() == declared(all, i as int),
            (stmts_issue(all, 0) is None) == compilable(all),
        decreases stmts@.len() - i,
    {
        proof {
            assert(all[i as int] == stmts@[i as int]@);
        }
        match stmts[i].kind() {
            StmtKind::Let { name, expr } => {
                match expr_check(expr, &names) {
                    Some(issue) => return Err(issue),
                    None => {},
                }
                let ghost before = names@;
                names.push(name.symbol());
                proof {
                    assert(all[i as int].kind == StmtKindView::Let { name: *name, expr: expr@ });
                    assert(names@.to_set() =~= declared(all, i + 1)) by {
                        assert forall|s: Symbol| names@.to_set().contains(s) implies declared(all, i + 1).contains(s) by {
                            let k = choose|k: int| 0 <= k < names@.len() && names@[k] == s;
                            if k < before.len() {
                                assert(before[k] == s);
                                assert(before.to_set().contains(s));
                                let j = choose|j: int| 0 <= j < i && #[trigger] declares(all[j], s);
                                assert(0 <= j < i + 1 && declares(all[j], s));
                            } else {
                                assert(declares(all[i as int], s));
                            }
                        }
                        assert forall|s: Symbol| declared(all, i + 1).contains(s) implies names@.to_set().contains(s) by {
                            let j = choose|j: int| 0 <= j < i + 1 && #[trigger] declares(all[j], s);
                            if j < i {
                                assert(declared(all, i as int).contains(s));
                                assert(before.to_set().contains(s));
                                let k = choose|k: int| 0 <= k < before.len() && before[k] == s;
                                assert(names@[k] == s);
                            } else {
                                assert(names@[before.len() as int] == s);
                            }
                        }
                    }
                }
            },
            _ => return Err(CompileIssue::Unsupported),
        }
        i = i + 1;
    }
    proof {
        lemma_stmts_issue(all, 0);
    }
    Ok(())
}

/// The first issue met when compiling `expr` with the globals `names`.
fn expr_check(expr: &Expr, names: &Vec<Symbol>) -> (r: Option<CompileIssue>)
    ensures
        r == expr_issue(expr@, names@.to_set()),
    decreases expr@,
{
    match expr.kind() {
        ExprKind::IntLiteral(_) | ExprKind::FloatLiteral(_) | ExprKind::Bool(_) => None,
        ExprKind::Identifier(symbol) => {
            let mut k: usize = 0;
            while k < names.len()
                invariant
                    k <= names@.len(),
                    expr@.kind == ExprKindView::Identifier(*symbol),
                    forall|j: int| 0 <= j < k ==> names@[j] != *symbol,
                decreases names@.len() - k,
            {
                if names[k] == *symbol {
                    proof {
                        assert(names@[k as int] == *symbol);
                        assert(names@.contains(*symbol));
                        assert(names@.to_set().contains(*symbol));
                    }
                    return None;
                }
                k = k + 1;
            }
            Some(CompileIssue::UndefinedGlobal(*symbol))
        },
        ExprKind::Unary { expr: operand, .. } => expr_check(operand, names),
        ExprKind::Binary { left, op, right } => {
            match expr_check(left, names) {
                Some(issue) => return Some(issue),
                None => {},
            }
            match expr_check(right, names) {
                Some(issue) => return Some(issue),
                None => {},
            }
            match op {
                BinaryOp::Plus | BinaryOp::Minus | BinaryOp::Multiply | BinaryOp::Divide => None,
                _ => Some(CompileIssue::Unsupported),
            }
        },
        ExprKind::Call { .. } => Some(CompileIssue::Unsupported),
    }
}

} // verus!
