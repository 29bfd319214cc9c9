//! Compiled bytecode: the instruction stream, its constant pool and the
//! table of global variable slots.
use vstd::prelude::*;

use crate::compiler::opcodes::{BinaryOpCode, OpCode, UnaryOpCode};
use crate::compiler::Value;
use crate::symbol::Symbol;

verus! {

/// One decoded instruction, with its operand.
#[derive(Debug, Clone, Copy, PartialEq, Eq, Structural)]
pub enum Instruction {
    DefineGlobal(u16),
    LoadGlobal(u16),
    StoreGlobal(u16),
    DefineLocal(u16),
    LoadLocal(u16),
    StoreLocal(u16),
    LoadConstant(u16),
    /// A binary operator, by the byte that selects it.
    Binary(u8),
    /// A unary operator, by the byte that selects it.
    Unary(u8),
    /// A byte that encodes no operation.
    Unknown(u8),
}

/// The two bytes of a `u16` operand, least significant first.
pub open spec fn u16_bytes(v: u16) -> Seq<u8> {
    seq![(v % 256) as u8, (v / 256) as u8]
}

/// The bytes encoding an instruction.
pub open spec fn encode(i: Instruction) -> Seq<u8> {
    match i {
        Instruction::DefineGlobal(v) => seq![OpCode::DefineGlobal.byte()] + u16_bytes(v),
        Instruction::LoadGlobal(v) => seq![OpCode::LoadGlobal.byte()] + u16_bytes(v),
        Instruction::StoreGlobal(v) => seq![OpCode::StoreGlobal.byte()] + u16_bytes(v),
        Instruction::DefineLocal(v) => seq![OpCode::DefineLocal.byte()] + u16_bytes(v),
        Instruction::LoadLocal(v) => seq![OpCode::LoadLocal.byte()] + u16_bytes(v),
        Instruction::StoreLocal(v) => seq![OpCode::StoreLocal.byte()] + u16_bytes(v),
        Instruction::LoadConstant(v) => seq![OpCode::LoadConstant.byte()] + u16_bytes(v),
        Instruction::Binary(b) => seq![OpCode::Binary.byte(), b],
        Instruction::Unary(b) => seq![OpCode::Unary.byte(), b],
        Instruction::Unknown(b) => seq![b],
    }
}

/// The bytes encoding a sequence of instructions.
pub open spec fn encode_all(s: Seq<Instruction>) -> Seq<u8>
    decreases s.len(),
{
    if s.len() == 0 {
        Seq::empty()
    } else {
        encode(s[0]) + encode_all(s.drop_first())
    }
}

/// Encoding one more instruction appends its bytes.
pub proof fn lemma_encode_all_push(s: Seq<Instruction>, i: Instruction)
    ensures
        encode_all(s.push(i)) == encode_all(s) + encode(i),
    decreases s.len(),
{
    if s.len() == 0 {
        assert(s.push(i).drop_first() =~= Seq::<Instruction>::empty());
        assert(encode_all(Seq::<Instruction>::empty()) =~= Seq::<u8>::empty());
        assert(encode_all(s.push(i)) =~= encode(i));
    } else {
        assert(s.push(i).drop_first() =~= s.drop_first().push(i));
        lemma_encode_all_push(s.drop_first(), i);
        assert(encode_all(s.push(i)) =~= encode_all(s) + encode(i));
    }
}


/// The `u16` operand whose bytes are `lo` and `hi`, least significant first.
pub open spec fn operand_u16(lo: u8, hi: u8) -> u16 {
    (lo as int + 256 * (hi as int)) as u16
}

/// The first instruction of `code` and the number of bytes it takes, or
/// `None` when its operand is cut off.
pub open spec fn decode_first(code: Seq<u8>) -> Option<(Instruction, int)>
    recommends
        code.len() > 0,
{
    let b = code[0];
    match OpCode::of_byte(b) {
        None => Some((Instruction::Unknown(b), 1)),
        Some(op) => if op == OpCode::Binary || op == OpCode::Unary {
            if code.len() < 2 {
                None
            } else if op == OpCode::Binary {
                Some((Instruction::Binary(code[1]), 2))
            } else {
                Some((Instruction::Unary(code[1]), 2))
            }
        } else if code.len() < 3 {
            None
        } else {
            let v = operand_u16(code[1], code[2]);
            let i = match op {
                OpCode::DefineGlobal => Instruction::DefineGlobal(v),
                OpCode::LoadGlobal => Instruction::LoadGlobal(v),
                OpCode::StoreGlobal => Instruction::StoreGlobal(v),
                OpCode::DefineLocal => Instruction::DefineLocal(v),
                OpCode::LoadLocal => Instruction::LoadLocal(v),
                OpCode::StoreLocal => Instruction::StoreLocal(v),
                _ => Instruction::LoadConstant(v),
            };
            Some((i, 3))
        },
    }
}

/// The instructions that `code` encodes, or `None` when the last one is cut off.
pub open spec fn decode_all(code: Seq<u8>) -> Option<Seq<Instruction>>
    decreases code.len(),
{
    if code.len() == 0 {
        Some(Seq::empty())
    } else {
        match decode_first(code) {
            None => None,
            Some((i, w)) => if 1 <= w <= code.len() {
                match decode_all(code.subrange(w, code.len() as int)) {
                    Some(rest) => Some(seq![i] + rest),
                    None => None,
                }
            } else {
                None
            },
        }
    }
}

/// Encoding two runs of instructions one after the other gives their
/// encodings one after the other.
pub proof fn lemma_encode_all_append(a: Seq<Instruction>, b: Seq<Instruction>)
    ensures
        encode_all(a + b) == encode_all(a) + encode_all(b),
    decreases a.len(),
{
    if a.len() == 0 {
        assert(a + b =~= b);
        assert(encode_all(a) =~= Seq::<u8>::empty());
        assert(encode_all(a) + encode_all(b) =~= encode_all(b));
    } else {
        assert((a + b).drop_first() =~= a.drop_first() + b);
        assert((a + b)[0] == a[0]);
        lemma_encode_all_append(a.drop_first(), b);
        assert(encode_all(a + b) =~= encode_all(a) + encode_all(b));
    }
}

/// The bytes of a `u16` operand read back as the operand.
pub proof fn lemma_u16_bytes(v: u16)
    ensures
        operand_u16(u16_bytes(v)[0], u16_bytes(v)[1]) == v,
{
    let lo = (v % 256) as u8;
    let hi = (v / 256) as u8;
    assert(lo as int + 256 * (hi as int) == v as int) by (nonlinear_arith)
        requires
            lo as int == v as int % 256,
            hi as int == v as int / 256,
    ;
}

/// The first instruction of an encoding reads back as itself.
pub proof fn lemma_decode_first(i: Instruction, rest: Seq<u8>)
    requires
        !(i is Unknown),
    ensures
        decode_first(encode(i) + rest) == Some((i, encode(i).len() as int)),
{
    let code = encode(i) + rest;
    match i {
        Instruction::Binary(b) => {
            assert(code[0] == OpCode::Binary.byte() && code[1] == b);
        },
        Instruction::Unary(b) => {
            assert(code[0] == OpCode::Unary.byte() && code[1] == b);
        },
        Instruction::DefineGlobal(v) => {
            lemma_u16_bytes(v);
            assert(code[0] == OpCode::DefineGlobal.byte() && code[1] == u16_bytes(v)[0] && code[2] == u16_bytes(v)[1]);
        },
        Instruction::LoadGlobal(v) => {
            lemma_u16_bytes(v);
            assert(code[0] == OpCode::LoadGlobal.byte() && code[1] == u16_bytes(v)[0] && code[2] == u16_bytes(v)[1]);
        },
        Instruction::StoreGlobal(v) => {
            lemma_u16_bytes(v);
            assert(code[0] == OpCode::StoreGlobal.byte() && code[1] == u16_bytes(v)[0] && code[2] == u16_bytes(v)[1]);
        },
        Instruction::DefineLocal(v) => {
            lemma_u16_bytes(v);
            assert(code[0] == OpCode::DefineLocal.byte() && code[1] == u16_bytes(v)[0] && code[2] == u16_bytes(v)[1]);
        },
        Instruction::LoadLocal(v) => {
            lemma_u16_bytes(v);
            assert(code[0] == OpCode::LoadLocal.byte() && code[1] == u16_bytes(v)[0] && code[2] == u16_bytes(v)[1]);
        },
        Instruction::StoreLocal(v) => {
            lemma_u16_bytes(v);
            assert(code[0] == OpCode::StoreLocal.byte() && code[1] == u16_bytes(v)[0] && code[2] == u16_bytes(v)[1]);
        },
        Instruction::LoadConstant(v) => {
            lemma_u16_bytes(v);
            assert(code[0] == OpCode::LoadConstant.byte() && code[1] == u16_bytes(v)[0] && code[2] == u16_bytes(v)[1]);
        },
        Instruction::Unknown(_) => {},
    }
}

/// Decoding undoes encoding: the bytes of a sequence of instructions, none of
/// them an unknown byte, read back as exactly that sequence.
pub proof fn lemma_decode_encode(s: Seq<Instruction>)
    requires
        forall|k: int| 0 <= k < s.len() ==> !(#[trigger] s[k] is Unknown),
    ensures
        decode_all(encode_all(s)) == Some(s),
    decreases s.len(),
{
    if s.len() > 0 {
        let head = encode(s[0]);
        let tail = encode_all(s.drop_first());
        assert(!(s[0] is Unknown));
        lemma_decode_first(s[0], tail);
        assert forall|k: int| 0 <= k < s.drop_first().len() implies !(#[trigger] s.drop_first()[k] is Unknown) by {
            assert(s.drop_first()[k] == s[k + 1]);
        }
        lemma_decode_encode(s.drop_first());
        let code = head + tail;
        assert(code.subrange(head.len() as int, code.len() as int) =~= tail);
        assert(seq![s[0]] + s.drop_first() =~= s);
    }
}

/// What the compiler has produced so far.
pub struct ByteCodeView {
    /// The instructions, in order.
    pub instrs: Seq<Instruction>,
    /// The constant pool, in index order.
    pub constants: Seq<Value>,
    /// The global variables, in slot order.
    pub globals: Seq<Symbol>,
}

/// The constant pool after adding `value`, and the index of `value` in it.
///
/// A value already present keeps its index and leaves the pool unchanged; a
/// new value is appended.
pub open spec fn add_const(constants: Seq<Value>, value: Value) -> (Seq<Value>, int) {
    if constants.contains(value) {
        (constants, constants.index_of(value))
    } else {
        (constants.push(value), constants.len() as int)
    }
}

/// The constant pool stores each value once: adding a value gives an index
/// that holds it, keeps the pool free of duplicates, and adding the same value
/// again changes nothing and gives the same index.
pub proof fn lemma_add_const_dedups(constants: Seq<Value>, value: Value)
    requires
        constants.no_duplicates(),
    ensures
        0 <= add_const(constants, value).1 < add_const(constants, value).0.len(),
        add_const(constants, value).0[add_const(constants, value).1] == value,
        add_const(constants, value).0.no_duplicates(),
        add_const(add_const(constants, value).0, value) == add_const(constants, value),
        add_const(constants, value).0.subrange(0, constants.len() as int) == constants,
{
    let after = constants.push(value);
    assert(after.subrange(0, constants.len() as int) =~= constants);
    assert(constants.subrange(0, constants.len() as int) =~= constants);
    if !constants.contains(value) {
        assert(after[constants.len() as int] == value);
        assert(after.contains(value));
        let k = after.index_of(value);
        if k < constants.len() {
            assert(constants[k] == value);
        }
        assert forall|a: int, b: int| 0 <= a < after.len() && 0 <= b < after.len() && a != b implies after[a] != after[b] by {
            if a < constants.len() && b < constants.len() {
            } else if a == constants.len() {
                assert(constants[b] == after[b]);
            } else {
                assert(constants[a] == after[a]);
            }
        }
    }
}

/// The global table after registering `symbol`, and its slot.
pub open spec fn add_global(globals: Seq<Symbol>, symbol: Symbol) -> (Seq<Symbol>, int) {
    if globals.contains(symbol) {
        (globals, globals.index_of(symbol))
    } else {
        (globals.push(symbol), globals.len() as int)
    }
}

/// Registering a global a second time changes nothing and gives the same slot;
/// the slot holds the global.
pub proof fn lemma_add_global_idempotent(globals: Seq<Symbol>, symbol: Symbol)
    ensures
        0 <= add_global(globals, symbol).1 < add_global(globals, symbol).0.len(),
        add_global(globals, symbol).0[add_global(globals, symbol).1] == symbol,
        add_global(add_global(globals, symbol).0, symbol) == add_global(globals, symbol),
{
    if !globals.contains(symbol) {
        let after = globals.push(symbol);
        assert(after[globals.len() as int] == symbol);
        let k = after.index_of(symbol);
        if k < globals.len() {
            assert(globals[k] == symbol);
        }
    }
}

/// The constants referenced by bytecode, each stored once.
#[derive(Debug)]
struct ConstPool {
    constants: Vec<Value>,
}

impl ConstPool {
    #[verifier::type_invariant]
    closed spec fn inv(self) -> bool {
        &&& self.constants@.no_duplicates()
        &&& self.constants@.len() <= 65536
    }

    /// Adds `value`, unless it is already present, and returns its index.
    fn add(&mut self, value: Value) -> (index: u16)
        requires
            old(self).constants@.contains(value) || old(self).constants@.len() < 65536,
        ensures
            final(self).constants@ == add_const(old(self).constants@, value).0,
            index == add_const(old(self).constants@, value).1,
    {
        proof {
            use_type_invariant(&*self);
        }
        let mut i: usize = 0;
        while i < self.constants.len()
            invariant
                i <= self.constants@.len(),
                self.constants@.no_duplicates(),
                self.constants@.len() <= 65536,
                forall|j: int| 0 <= j < i ==> self.constants@[j] != value,
            decreases self.constants@.len() - i,
        {
            if self.constants[i] == value {
                proof {
                    assert(self.constants@.contains(value));
                    let k = self.constants@.index_of(value);
                    assert(self.constants@[k] == value);
                }
                return i as u16;
            }
            i = i + 1;
        }
        let index = self.constants.len() as u16;
        let ghost before = self.constants@;
        let mut constants: Vec<Value> = Vec::new();
        std::mem::swap(&mut constants, &mut self.constants);
        constants.push(value);
        proof {
            assert(!before.contains(value));
            assert(constants@ == before.push(value));
            assert forall|a: int, b: int|
                0 <= a < constants@.len() && 0 <= b < constants@.len() && a != b implies constants@[a]
                != constants@[b] by {
                if a < before.len() && b < before.len() {
                } else if a == before.len() {
                    assert(before[b] == constants@[b]);
                } else {
                    assert(before[a] == constants@[a]);
                }
            }
        }
        std::mem::swap(&mut constants, &mut self.constants);
        index
    }
}

/// Compiled Nyx bytecode, with its constant pool and global slots.
pub struct ByteCode {
    /// The encoded instructions and operands.
    code: Vec<u8>,
    /// Constants referenced by [`OpCode::LoadConstant`].
    const_pool: ConstPool,
    /// The global variables by slot: the slot of a global is its index here,
    /// and is the operand of the global instructions.
    globals: Vec<Symbol>,
    /// The instructions that `code` encodes.
    instrs: Ghost<Seq<Instruction>>,
}

impl View for ByteCode {
    type V = ByteCodeView;

    closed spec fn view(&self) -> ByteCodeView {
        ByteCodeView { instrs: self.instrs@, constants: self.const_pool.constants@, globals: self.globals@ }
    }
}

impl ByteCode {
    #[verifier::type_invariant]
    closed spec fn inv(self) -> bool {
        &&& self.code@ == encode_all(self.instrs@)
        &&& self.globals@.no_duplicates()
        &&& self.globals@.len() <= 65536
        &&& forall|k: int| 0 <= k < self.instrs@.len() ==> !(#[trigger] self.instrs@[k] is Unknown)
    }

    /// Returns the encoded instruction stream.
    pub fn code(&self) -> (code: &[u8])
        ensures
            code@ == encode_all(self@.instrs),
            decode_all(code@) == Some(self@.instrs),
            forall|k: int| 0 <= k < self@.instrs.len() ==> !(#[trigger] self@.instrs[k] is Unknown),
    {
        proof {
            use_type_invariant(self);
            lemma_decode_encode(self@.instrs);
        }
        self.code.as_slice()
    }

    /// Returns the constant pool in index order; [`OpCode::LoadConstant`]
    /// refers to a constant by its index here.
    pub fn constants(&self) -> (constants: &[Value])
        ensures
            constants@ == self@.constants,
    {
        self.const_pool.constants.as_slice()
    }

    /// Returns the global variables in slot order; the global instructions
    /// refer to a global by its slot.
    pub fn globals(&self) -> (globals: &[Symbol])
        ensures
            globals@ == self@.globals,
    {
        self.globals.as_slice()
    }

    /// The index of `value` in the constant pool, if it is there.
    pub fn const_index(&self, value: Value) -> (index: Option<u16>)
        ensures
            match index {
                Some(i) => self@.constants.contains(value) && i == self@.constants.index_of(value),
                None => !self@.constants.contains(value),
            },
    {
        proof {
            use_type_invariant(&self.const_pool);
        }
        let constants = self.const_pool.constants.as_slice();
        let mut i: usize = 0;
        while i < constants.len()
            invariant
                constants@ == self@.constants,
                i <= constants@.len(),
                constants@.no_duplicates(),
                constants@.len() <= 65536,
                forall|j: int| 0 <= j < i ==> constants@[j] != value,
            decreases constants@.len() - i,
        {
            if constants[i] == value {
                proof {
                    assert(constants@.contains(value));
                    let k = constants@.index_of(value);
                    assert(constants@[k] == value);
                }
                return Some(i as u16);
            }
            i = i + 1;
        }
        None
    }

    /// The slot of the global named `symbol`, if it is registered.
    pub fn global_slot(&self, symbol: Symbol) -> (slot: Option<u16>)
        ensures
            match slot {
                Some(s) => self@.globals.contains(symbol) && s == self@.globals.index_of(symbol),
                None => !self@.globals.contains(symbol),
            },
    {
        proof {
            use_type_invariant(self);
        }
        let mut i: usize = 0;
        while i < self.globals.len()
            invariant
                i <= self.globals@.len(),
                self.globals@.no_duplicates(),
                self.globals@.len() <= 65536,
                forall|j: int| 0 <= j < i ==> self.globals@[j] != symbol,
            decreases self.globals@.len() - i,
        {
            if self.globals[i] == symbol {
                proof {
                    assert(self.globals@.contains(symbol));
                    let k = self.globals@.index_of(symbol);
                    assert(self.globals@[k] == symbol);
                }
                return Some(i as u16);
            }
            i = i + 1;
        }
        None
    }

    /// Moves the contents out, leaving empty bytecode behind.
    fn take(&mut self) -> (b: ByteCode)
        ensures
            b@ == old(self)@,
            b.code@ == encode_all(b@.instrs),
            b.globals@.no_duplicates(),
            b.globals@.len() <= 65536,
            forall|k: int| 0 <= k < b@.instrs.len() ==> !(#[trigger] b@.instrs[k] is Unknown),
    {
        let mut b = ByteCode::default();
        std::mem::swap(&mut b, self);
        proof {
            use_type_invariant(&b);
        }
        b
    }

    /// Adds `value` to the constant pool, unless it is already there, and
    /// returns its index.
    pub fn store_const(&mut self, value: Value) -> (index: u16)
        requires
            old(self)@.constants.contains(value) || old(self)@.constants.len() < 65536,
        ensures
            final(self)@.constants == add_const(old(self)@.constants, value).0,
            index == add_const(old(self)@.constants, value).1,
            final(self)@.instrs == old(self)@.instrs,
            final(self)@.globals == old(self)@.globals,
    {
        let ByteCode { code, mut const_pool, globals, instrs } = self.take();
        let index = const_pool.add(value);
        *self = ByteCode { code, const_pool, globals, instrs };
        index
    }

    /// Registers the global named `symbol` and returns its slot: the slot it
    /// already has, or the next free one.
    pub fn register_global(&mut self, symbol: Symbol) -> (slot: u16)
        requires
            old(self)@.globals.contains(symbol) || old(self)@.globals.len() < 65536,
        ensures
            final(self)@.globals == add_global(old(self)@.globals, symbol).0,
            slot == add_global(old(self)@.globals, symbol).1,
            final(self)@.instrs == old(self)@.instrs,
            final(self)@.constants == old(self)@.constants,
    {
        proof {
            use_type_invariant(&*self);
        }
        match self.global_slot(symbol) {
            Some(slot) => slot,
            None => {
                let slot = self.globals.len() as u16;
                let ByteCode { code, const_pool, mut globals, instrs } = self.take();
                let ghost before = globals@;
                globals.push(symbol);
                proof {
                    assert(globals@ == before.push(symbol));
                    assert forall|a: int, b: int|
                        0 <= a < globals@.len() && 0 <= b < globals@.len() && a != b implies globals@[a]
                        != globals@[b] by {
                        if a < before.len() && b < before.len() {
                        } else if a == before.len() {
                            assert(before[b] == globals@[b]);
                        } else {
                            assert(before[a] == globals@[a]);
                        }
                    }
                }
                *self = ByteCode { code, const_pool, globals, instrs };
                slot
            },
        }
    }

    /// Appends the encoding of `instr`.
    fn emit(&mut self, instr: Instruction)
        requires
            !(instr is Unknown),
        ensures
            final(self)@.instrs == old(self)@.instrs.push(instr),
            final(self)@.constants == old(self)@.constants,
            final(self)@.globals == old(self)@.globals,
    {
        proof {
            use_type_invariant(&*self);
            lemma_encode_all_push(self.instrs@, instr);
        }
        let ByteCode { mut code, const_pool, globals, instrs } = self.take();
        let ghost before = instrs@;
        match instr {
            Instruction::DefineGlobal(v) => {
                code.push(OpCode::DefineGlobal.to_byte());
                push_u16(&mut code, v);
            },
            Instruction::LoadGlobal(v) => {
                code.push(OpCode::LoadGlobal.to_byte());
                push_u16(&mut code, v);
            },
            Instruction::StoreGlobal(v) => {
                code.push(OpCode::StoreGlobal.to_byte());
                push_u16(&mut code, v);
            },
            Instruction::DefineLocal(v) => {
                code.push(OpCode::DefineLocal.to_byte());
                push_u16(&mut code, v);
            },
            Instruction::LoadLocal(v) => {
                code.push(OpCode::LoadLocal.to_byte());
                push_u16(&mut code, v);
            },
            Instruction::StoreLocal(v) => {
                code.push(OpCode::StoreLocal.to_byte());
                push_u16(&mut code, v);
            },
            Instruction::LoadConstant(v) => {
                code.push(OpCode::LoadConstant.to_byte());
                push_u16(&mut code, v);
            },
            Instruction::Binary(b) => {
                code.push(OpCode::Binary.to_byte());
                code.push(b);
            },
            Instruction::Unary(b) => {
                code.push(OpCode::Unary.to_byte());
                code.push(b);
            },
            Instruction::Unknown(b) => {
                code.push(b);
            },
        }
        proof {
            assert(code@ =~= encode_all(before) + encode(instr));
            assert forall|k: int| 0 <= k < before.push(instr).len() implies !(#[trigger] before.push(instr)[k] is Unknown) by {
                if k < before.len() {
                    assert(before.push(instr)[k] == before[k]);
                }
            }
        }
        *self = ByteCode { code, const_pool, globals, instrs: Ghost(before.push(instr)) };
    }

    /// Emits a `LoadConstant` of the constant at `index`.
    pub fn emit_load_constant(&mut self, index: u16)
        ensures
            final(self)@ == (ByteCodeView { instrs: old(self)@.instrs.push(Instruction::LoadConstant(index)), ..old(self)@ }),
    {
        self.emit(Instruction::LoadConstant(index));
    }

    /// Emits a `DefineGlobal` of the global in slot `index`.
    pub fn emit_define_global(&mut self, index: u16)
        ensures
            final(self)@ == (ByteCodeView { instrs: old(self)@.instrs.push(Instruction::DefineGlobal(index)), ..old(self)@ }),
    {
        self.emit(Instruction::DefineGlobal(index));
    }

    /// Emits a `LoadGlobal` of the global in slot `index`.
    pub fn emit_load_global(&mut self, index: u16)
        ensures
            final(self)@ == (ByteCodeView { instrs: old(self)@.instrs.push(Instruction::LoadGlobal(index)), ..old(self)@ }),
    {
        self.emit(Instruction::LoadGlobal(index));
    }

    /// Emits a `StoreGlobal` of the global in slot `index`.
    pub fn emit_store_global(&mut self, index: u16)
        ensures
            final(self)@ == (ByteCodeView { instrs: old(self)@.instrs.push(Instruction::StoreGlobal(index)), ..old(self)@ }),
    {
        self.emit(Instruction::StoreGlobal(index));
    }

    /// Emits the binary operator `opcode`.
    pub fn emit_binary_opcode(&mut self, opcode: BinaryOpCode)
        ensures
            final(self)@ == (ByteCodeView { instrs: old(self)@.instrs.push(Instruction::Binary(opcode.byte())), ..old(self)@ }),
    {
        self.emit(Instruction::Binary(opcode.to_byte()));
    }

    /// Emits the unary operator `opcode`.
    pub fn emit_unary_opcode(&mut self, opcode: UnaryOpCode)
        ensures
            final(self)@ == (ByteCodeView { instrs: old(self)@.instrs.push(Instruction::Unary(opcode.byte())), ..old(self)@ }),
    {
        self.emit(Instruction::Unary(opcode.to_byte()));
    }
}

/// Appends the two bytes of `value`, least significant first.
fn push_u16(code: &mut Vec<u8>, value: u16)
    ensures
        final(code)@ == old(code)@ + u16_bytes(value),
{
    code.push((value % 256) as u8);
    code.push((value / 256) as u8);
    proof {
        assert(code@ =~= old(code)@ + u16_bytes(value));
    }
}

/// Empty bytecode.
impl Default for ByteCode {
    fn default() -> (b: ByteCode)
        ensures
            b@ == (ByteCodeView {
                instrs: Seq::<Instruction>::empty(),
                constants: Seq::<Value>::empty(),
                globals: Seq::<Symbol>::empty(),
            }),
    {
        let b = ByteCode {
            code: Vec::new(),
            const_pool: ConstPool { constants: Vec::new() },
            globals: Vec::new(),
            instrs: Ghost(Seq::empty()),
        };
        proof {
            assert(b.code@ =~= encode_all(Seq::<Instruction>::empty()));
        }
        b
    }
}

} // verus!
