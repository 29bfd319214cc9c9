//! Reading compiled bytecode back as a listing of instructions.
use vstd::prelude::*;

use crate::compiler::bytecode::{
    decode_all, decode_first, encode, encode_all, lemma_decode_first, lemma_encode_all_append,
    lemma_encode_all_push, operand_u16,
    ByteCode, ByteCodeView, Instruction,
};
use crate::compiler::opcodes::{BinaryOpCode, OpCode, UnaryOpCode};
use crate::compiler::Value;
use crate::text::{
    decimal_spec, decimal_text, hex_byte_spec, hex_byte_text, int_text, int_text_spec, lemma_int_text_parses, pad_left,
    pad_left_spec, pad_right, pad_right_spec, parse_i64_spec, IntErrorKind,
};
use vstd::string::StringExecFns;
use crate::symbol::{Symbol, SymbolRegistry};

verus! {

/// What a listing shows beside an instruction.
#[derive(Debug, Clone, Copy, PartialEq, Eq, Structural)]
pub enum Note {
    /// Nothing more.
    Plain,
    /// The constant that a `LoadConstant` loads.
    Constant(Value),
    /// A `LoadConstant` of an index outside the pool.
    InvalidConstant,
    /// The global in the slot that a global instruction names.
    Global(Symbol),
    /// A global instruction whose slot holds no global.
    UnknownGlobal,
    /// The operator selected by a `Binary`, if the byte selects one.
    BinaryOp(Option<BinaryOpCode>),
    /// The operator selected by a `Unary`, if the byte selects one.
    UnaryOp(Option<UnaryOpCode>),
}

/// One line of a listing: an instruction, the offset of its first byte, and
/// what it refers to.
#[derive(Debug, Clone, Copy, PartialEq, Eq, Structural)]
pub struct Line {
    pub offset: usize,
    pub instr: Instruction,
    pub note: Note,
}

/// What the listing shows beside `instr` in bytecode `b`.
pub open spec fn note_spec(b: ByteCodeView, instr: Instruction) -> Note {
    match instr {
        Instruction::LoadConstant(index) => if index < b.constants.len() {
            Note::Constant(b.constants[index as int])
        } else {
            Note::InvalidConstant
        },
        Instruction::DefineGlobal(slot) | Instruction::LoadGlobal(slot) | Instruction::StoreGlobal(slot) => if slot
            < b.globals.len() {
            Note::Global(b.globals[slot as int])
        } else {
            Note::UnknownGlobal
        },
        Instruction::Binary(code) => Note::BinaryOp(BinaryOpCode::of_byte(code)),
        Instruction::Unary(code) => Note::UnaryOp(UnaryOpCode::of_byte(code)),
        _ => Note::Plain,
    }
}

/// The listing of bytecode `b`: each instruction at the offset where its
/// encoding starts.
pub open spec fn listing_spec(b: ByteCodeView) -> Seq<Line> {
    Seq::new(
        b.instrs.len(),
        |k: int|
            Line {
                offset: encode_all(b.instrs.take(k)).len() as usize,
                instr: b.instrs[k],
                note: note_spec(b, b.instrs[k]),
            },
    )
}

/// The number of bytes an instruction takes: three for an opcode with a
/// 16-bit operand, two for `Binary` and `Unary`, one for an unknown byte.
pub open spec fn instr_width(i: Instruction) -> int {
    match i {
        Instruction::Binary(_) | Instruction::Unary(_) => 2,
        Instruction::Unknown(_) => 1,
        _ => 3,
    }
}

/// An instruction's encoding is as long as its width.
pub proof fn lemma_encode_width(i: Instruction)
    ensures
        encode(i).len() == instr_width(i),
{
}

/// Reading an instruction steps over as many bytes as its width, which its
/// first byte decides: three for the opcodes with a 16-bit operand (`0x20`
/// to `0x26`), two for `Binary` and `Unary` (`0x30`, `0x31`), and one for
/// any other byte, read as an unknown instruction.
pub proof fn lemma_decode_step(code: Seq<u8>)
    requires
        code.len() > 0,
        decode_first(code) is Some,
    ensures
        decode_first(code) matches Some((i, w)) && w == instr_width(i) && w == (if 0x20 <= code[0] <= 0x26 {
            3int
        } else if code[0] == 0x30 || code[0] == 0x31 {
            2int
        } else {
            1int
        }),
{
}

/// The offsets of a listing step by the instructions' widths: the first line
/// is at offset zero, each next line starts where the line before it ends,
/// and the last line ends where the code ends.
pub proof fn lemma_listing_offsets(b: ByteCodeView)
    requires
        encode_all(b.instrs).len() <= usize::MAX,
    ensures
        listing_spec(b).len() > 0 ==> listing_spec(b)[0].offset == 0,
        forall|k: int|
            0 <= k < listing_spec(b).len() - 1 ==> #[trigger] listing_spec(b)[k + 1].offset
                == listing_spec(b)[k].offset + instr_width(listing_spec(b)[k].instr),
        listing_spec(b).len() > 0 ==> listing_spec(b).last().offset + instr_width(listing_spec(b).last().instr)
            == encode_all(b.instrs).len(),
{
    let instrs = b.instrs;
    let lines = listing_spec(b);
    assert forall|k: int| 0 <= k < instrs.len() implies encode_all(#[trigger] instrs.take(k + 1)).len()
        == encode_all(instrs.take(k)).len() + instr_width(instrs[k]) && encode_all(instrs.take(k + 1)).len()
        <= encode_all(instrs).len() by {
        assert(instrs.take(k + 1) =~= instrs.take(k).push(instrs[k]));
        lemma_encode_all_push(instrs.take(k), instrs[k]);
        lemma_encode_width(instrs[k]);
        lemma_encode_all_append(instrs.take(k + 1), instrs.skip(k + 1));
        assert(instrs.take(k + 1) + instrs.skip(k + 1) =~= instrs);
    }
    if instrs.len() > 0 {
        assert(instrs.take(0) =~= Seq::<Instruction>::empty());
        assert(encode_all(instrs.take(0)) =~= Seq::<u8>::empty());
        let n = instrs.len() - 1;
        assert(instrs.take(n + 1) =~= instrs);
        assert(encode_all(instrs.take(n + 1)).len() == encode_all(instrs.take(n)).len() + instr_width(instrs[n]));
    }
    assert forall|k: int| 0 <= k < lines.len() - 1 implies #[trigger] lines[k + 1].offset == lines[k].offset
        + instr_width(lines[k].instr) by {
        assert(encode_all(instrs.take(k + 1)).len() == encode_all(instrs.take(k)).len() + instr_width(
            instrs[k],
        ));
        let j = k + 1;
        assert(encode_all(instrs.take(j + 1)).len() <= encode_all(instrs).len());
    }
}

/// The opcode and operand that a listing shows for `i`; none for an unknown byte.
pub open spec fn shown_opcode(i: Instruction) -> Option<(OpCode, u16)> {
    match i {
        Instruction::DefineGlobal(v) => Some((OpCode::DefineGlobal, v)),
        Instruction::LoadGlobal(v) => Some((OpCode::LoadGlobal, v)),
        Instruction::StoreGlobal(v) => Some((OpCode::StoreGlobal, v)),
        Instruction::DefineLocal(v) => Some((OpCode::DefineLocal, v)),
        Instruction::LoadLocal(v) => Some((OpCode::LoadLocal, v)),
        Instruction::StoreLocal(v) => Some((OpCode::StoreLocal, v)),
        Instruction::LoadConstant(v) => Some((OpCode::LoadConstant, v)),
        Instruction::Binary(code) => Some((OpCode::Binary, code as u16)),
        Instruction::Unary(code) => Some((OpCode::Unary, code as u16)),
        Instruction::Unknown(_) => None,
    }
}

/// How a listing shows the constant `value`, with the names in `strings`; a
/// floating-point value is shown as `float_text`.
pub open spec fn value_text_spec(strings: Seq<Seq<char>>, value: Value, float_text: Seq<char>) -> Seq<char> {
    match value {
        Value::Int(v) => "Int("@ + int_text_spec(v as int) + ")"@,
        Value::Float(_) => "Float("@ + float_text + ")"@,
        Value::Bool(b) => if b {
            "Bool(true)"@
        } else {
            "Bool(false)"@
        },
        Value::Ident(symbol) => "Ident("@ + strings[symbol.id() as int] + ")"@,
    }
}

/// The listing shows an integer or boolean constant in its debug form:
/// `Int(..)` around the value in decimal, which reads back as that value, or
/// `Bool(true)` / `Bool(false)`. So two such constants are shown alike only
/// when they are equal.
pub proof fn lemma_value_text_faithful(strings: Seq<Seq<char>>, v: Value, w: Value, float_text: Seq<char>)
    requires
        v is Int || v is Bool,
        w is Int || w is Bool,
    ensures
        v matches Value::Bool(b) ==> value_text_spec(strings, v, float_text) == "Bool("@ + (if b {
            "true"@
        } else {
            "false"@
        }) + ")"@,
        v matches Value::Int(i) ==> value_text_spec(strings, v, float_text) == "Int("@ + int_text_spec(i as int)
            + ")"@ && parse_i64_spec(int_text_spec(i as int)) == Ok::<int, IntErrorKind>(i as int),
        value_text_spec(strings, v, float_text) == value_text_spec(strings, w, float_text) ==> v == w,
{
    reveal_strlit("Bool(");
    reveal_strlit("true");
    reveal_strlit("false");
    reveal_strlit(")");
    reveal_strlit("Bool(true)");
    reveal_strlit("Bool(false)");
    reveal_strlit("Int(");
    let tv = value_text_spec(strings, v, float_text);
    let tw = value_text_spec(strings, w, float_text);
    if tv == tw {
        match (v, w) {
            (Value::Int(i), Value::Int(j)) => {
                lemma_int_text_parses(i);
                lemma_int_text_parses(j);
                assert(int_text_spec(i as int) =~= tv.subrange(4, tv.len() - 1));
                assert(int_text_spec(j as int) =~= tw.subrange(4, tw.len() - 1));
            },
            (Value::Int(i), Value::Bool(_)) => {
                assert(tv == "Int("@ + (int_text_spec(i as int) + ")"@));
                assert(tv[0] == 'I');
                assert(tw[0] == 'B');
            },
            (Value::Bool(_), Value::Int(j)) => {
                assert(tw == "Int("@ + (int_text_spec(j as int) + ")"@));
                assert(tw[0] == 'I');
                assert(tv[0] == 'B');
            },
            (Value::Bool(a), Value::Bool(b)) => {
                assert(tv.len() == if a { 10int } else { 11int });
                assert(tw.len() == if b { 10int } else { 11int });
            },
            _ => {},
        }
    }
    match v {
        Value::Int(i) => lemma_int_text_parses(i),
        _ => {},
    }
}

/// What a listing shows after the operand `operand` of an instruction whose
/// note is `note`.
pub open spec fn note_text_spec(strings: Seq<Seq<char>>, note: Note, operand: u16, float_text: Seq<char>) -> Seq<
    char,
> {
    match note {
        Note::Plain => Seq::empty(),
        Note::Constant(Value::Ident(symbol)) => "  ("@ + strings[symbol.id() as int] + ")"@,
        Note::Global(symbol) => "  ("@ + strings[symbol.id() as int] + ")"@,
        Note::Constant(value) => "  ("@ + value_text_spec(strings, value, float_text) + ")"@,
        Note::InvalidConstant => "  (<invalid constant>)"@,
        Note::UnknownGlobal => "  (<unknown global>)"@,
        Note::BinaryOp(Some(op)) => "  ("@ + op.name_spec() + ")"@,
        Note::UnaryOp(Some(op)) => "  ("@ + op.name_spec() + ")"@,
        Note::BinaryOp(None) | Note::UnaryOp(None) => "  (Unknown("@ + decimal_spec(operand as nat) + "))"@,
    }
}

/// The text of one instruction line of a listing: the offset right-aligned
/// in four columns, the opcode's name left-aligned in eighteen, the operand
/// right-aligned in five and what it refers to; an unknown byte in hexadecimal.
pub open spec fn line_text_spec(strings: Seq<Seq<char>>, line: Line, float_text: Seq<char>) -> Seq<char> {
    let head = pad_left_spec(decimal_spec(line.offset as nat), 4) + "  "@;
    match shown_opcode(line.instr) {
        Some((op, operand)) => head + pad_right_spec(op.name_spec(), 18) + " "@ + pad_left_spec(
            decimal_spec(operand as nat),
            5,
        ) + note_text_spec(strings, line.note, operand, float_text) + "\n"@,
        None => head + pad_right_spec("UNKNOWN"@, 18) + " 0x"@ + hex_byte_spec(line.instr->Unknown_0) + "\n"@,
    }
}

/// The text given for the floating-point constant at `index`, if any.
pub open spec fn float_text_at(floats: Seq<Seq<char>>, index: int) -> Seq<char> {
    if 0 <= index < floats.len() {
        floats[index]
    } else {
        Seq::empty()
    }
}

/// The float text that the line of `instr` shows: that of the constant it loads.
pub open spec fn line_float_text(floats: Seq<Seq<char>>, instr: Instruction) -> Seq<char> {
    match instr {
        Instruction::LoadConstant(index) => float_text_at(floats, index as int),
        _ => Seq::empty(),
    }
}

/// The lines of the first `n` constants of `b`: the index right-aligned in
/// four columns, then the value.
pub open spec fn constant_lines_spec(b: ByteCodeView, strings: Seq<Seq<char>>, floats: Seq<Seq<char>>, n: int) -> Seq<
    char,
>
    decreases n,
{
    if n <= 0 {
        Seq::empty()
    } else {
        constant_lines_spec(b, strings, floats, n - 1) + pad_left_spec(decimal_spec((n - 1) as nat), 4) + "  "@
            + value_text_spec(strings, b.constants[n - 1], float_text_at(floats, n - 1)) + "\n"@
    }
}

/// The lines of the first `n` globals of `b`: the slot right-aligned in four
/// columns, then the name.
pub open spec fn global_lines_spec(b: ByteCodeView, strings: Seq<Seq<char>>, n: int) -> Seq<char>
    decreases n,
{
    if n <= 0 {
        Seq::empty()
    } else {
        global_lines_spec(b, strings, n - 1) + pad_left_spec(decimal_spec((n - 1) as nat), 4) + "  "@
            + strings[b.globals[n - 1].id() as int] + "\n"@
    }
}

/// The lines of the first `n` instructions of `b`.
pub open spec fn code_lines_spec(b: ByteCodeView, strings: Seq<Seq<char>>, floats: Seq<Seq<char>>, n: int) -> Seq<char>
    decreases n,
{
    if n <= 0 {
        Seq::empty()
    } else {
        code_lines_spec(b, strings, floats, n - 1) + line_text_spec(
            strings,
            listing_spec(b)[n - 1],
            line_float_text(floats, b.instrs[n - 1]),
        )
    }
}

/// The whole text of the listing of `b`: its constants, its globals in slot
/// order and its instructions, each under a heading and followed by an empty
/// line but the last. `floats` gives the text of each floating-point constant
/// by its index.
pub open spec fn listing_text_spec(b: ByteCodeView, strings: Seq<Seq<char>>, floats: Seq<Seq<char>>) -> Seq<char> {
    "Constants:\n"@ + constant_lines_spec(b, strings, floats, b.constants.len() as int) + "\n"@ + "Globals:\n"@
        + global_lines_spec(b, strings, b.globals.len() as int) + "\n"@ + "Bytecode:\n"@ + code_lines_spec(
        b,
        strings,
        floats,
        b.instrs.len() as int,
    )
}

/// Whether every symbol that the listing of `b` names is in `strings`.
pub open spec fn names_known(b: ByteCodeView, strings: Seq<Seq<char>>) -> bool {
    &&& forall|k: int|
        0 <= k < b.constants.len() ==> (#[trigger] b.constants[k] matches Value::Ident(symbol) ==> symbol.id()
            < strings.len())
    &&& forall|k: int| 0 <= k < b.globals.len() ==> (#[trigger] b.globals[k]).id() < strings.len()
}

/// Whether every symbol that `note` names is in `strings`.
pub open spec fn note_names_known(strings: Seq<Seq<char>>, note: Note) -> bool {
    match note {
        Note::Constant(Value::Ident(symbol)) => symbol.id() < strings.len(),
        Note::Global(symbol) => symbol.id() < strings.len(),
        _ => true,
    }
}

/// Reads bytecode back, for printing with the names of its symbols.
pub struct Disassembler<'a> {
    bytecode: &'a ByteCode,
    symbols: &'a SymbolRegistry,
}

impl<'a> Disassembler<'a> {
    pub fn new(bytecode: &'a ByteCode, symbols: &'a SymbolRegistry) -> (d: Disassembler<'a>)
        ensures
            d.bytecode() == bytecode,
            d.symbols() == symbols,
    {
        Disassembler { bytecode, symbols }
    }

    /// The bytecode read.
    pub closed spec fn bytecode(&self) -> &'a ByteCode {
        self.bytecode
    }

    /// The registry naming its symbols.
    pub closed spec fn symbols(&self) -> &'a SymbolRegistry {
        self.symbols
    }

    /// The bytecode read.
    pub fn code(&self) -> (b: &'a ByteCode)
        ensures
            b == self.bytecode(),
    {
        self.bytecode
    }

    /// The name of `symbol`.
    pub fn name(&self, symbol: Symbol) -> (text: &'a str)
        requires
            symbol.id() < self.symbols()@.len(),
        ensures
            text@ == self.symbols()@[symbol.id() as int],
    {
        self.symbols.resolve(symbol)
    }

    /// The listing of the bytecode, one line per instruction.
    pub fn lines(&self) -> (lines: Vec<Line>)
        ensures
            lines@ == listing_spec(self.bytecode()@),
            lines@.len() > 0 ==> lines@[0].offset == 0,
            forall|k: int|
                0 <= k < lines@.len() - 1 ==> #[trigger] lines@[k + 1].offset == lines@[k].offset + instr_width(
                    lines@[k].instr,
                ),
            lines@.len() > 0 ==> lines@.last().offset + instr_width(lines@.last().instr) == encode_all(
                self.bytecode()@.instrs,
            ).len(),
    {
        let code = self.bytecode.code();
        let ghost b = self.bytecode@;
        let ghost instrs = b.instrs;
        let mut lines: Vec<Line> = Vec::new();
        let mut offset: usize = 0;
        proof {
            assert(instrs.skip(0) =~= instrs);
            assert(code@.skip(0) =~= code@);
            assert(instrs.take(0) =~= Seq::<Instruction>::empty());
            assert(encode_all(Seq::<Instruction>::empty()) =~= Seq::<u8>::empty());
        }
        while offset < code.len()
            invariant
                code@ == encode_all(instrs),
                decode_all(code@) == Some(instrs),
                b == self.bytecode@,
                instrs == b.instrs,
                forall|k: int| 0 <= k < instrs.len() ==> !(#[trigger] instrs[k] is Unknown),
                lines@.len() <= instrs.len(),
                offset <= code@.len(),
                offset == encode_all(instrs.take(lines@.len() as int)).len(),
                code@.skip(offset as int) == encode_all(instrs.skip(lines@.len() as int)),
                forall|k: int| 0 <= k < lines@.len() ==> #[trigger] lines@[k] == listing_spec(b)[k],
            decreases code@.len() - offset,
        {
            let ghost n = lines@.len() as int;
            proof {
                if n == instrs.len() {
                    assert(instrs.skip(n).len() == 0);
                    assert(encode_all(instrs.skip(n)).len() == 0);
                }
                let i = instrs[n];
                assert(instrs.skip(n)[0] == i);
                assert(instrs.skip(n).drop_first() =~= instrs.skip(n + 1));
                lemma_decode_first(i, encode_all(instrs.skip(n + 1)));
                assert(instrs.take(n + 1) =~= instrs.take(n).push(i));
                lemma_encode_all_push(instrs.take(n), i);
                assert(encode_all(instrs.skip(n)) == encode(i) + encode_all(instrs.skip(n).drop_first()));
                assert(code@.skip(offset as int) == encode(i) + encode_all(instrs.skip(n + 1)));
            }
            let ghost o = offset;
            let (instr, width) = decode_at(code, offset);
            let note = self.note(instr);
            lines.push(Line { offset, instr, note });
            offset = offset + width;
            proof {
                let i = instrs[n];
                let rest = encode_all(instrs.skip(n + 1));
                assert(instr == i && width == encode(i).len());
                assert(code@.skip(o as int) == encode(i) + rest);
                assert(code@.skip(offset as int) =~= (encode(i) + rest).skip(width as int));
                assert((encode(i) + rest).skip(width as int) =~= rest);
                assert forall|k: int| 0 <= k < lines@.len() implies #[trigger] lines@[k] == listing_spec(b)[k] by {
                    if k == n {
                        assert(listing_spec(b)[k].offset == encode_all(instrs.take(n)).len() as usize);
                    }
                }
            }
        }
        proof {
            let n = lines@.len() as int;
            if n < instrs.len() {
                assert(instrs.skip(n)[0] == instrs[n]);
                assert(encode_all(instrs.skip(n)).len() > 0);
            }
            assert(lines@ =~= listing_spec(b));
            lemma_listing_offsets(b);
        }
        lines
    }

    /// How the listing shows the constant `value`; a floating-point value is
    /// shown as `float_text`.
    fn value_text(&self, value: Value, float_text: &str) -> (t: String)
        requires
            value matches Value::Ident(symbol) ==> symbol.id() < self.symbols()@.len(),
        ensures
            t@ == value_text_spec(self.symbols()@, value, float_text@),
    {
        let (head, middle): (&str, String) = match value {
            Value::Int(v) => ("Int(", int_text(v)),
            Value::Float(_) => ("Float(", float_text.to_owned()),
            Value::Bool(b) => {
                if b {
                    return "Bool(true)".to_owned();
                } else {
                    return "Bool(false)".to_owned();
                }
            },
            Value::Ident(symbol) => ("Ident(", self.name(symbol).to_owned()),
        };
        let mut t = head.to_owned();
        t.append(middle.as_str());
        t.append(")");
        t
    }

    /// What the listing shows after the operand `operand` of an instruction
    /// whose note is `note`.
    fn note_text(&self, note: Note, operand: u16, float_text: &str) -> (t: String)
        requires
            note_names_known(self.symbols()@, note),
        ensures
            t@ == note_text_spec(self.symbols()@, note, operand, float_text@),
    {
        let inner: String = match note {
            Note::Plain => {
                let t = String::new();
                return t;
            },
            Note::Constant(Value::Ident(symbol)) => self.name(symbol).to_owned(),
            Note::Global(symbol) => self.name(symbol).to_owned(),
            Note::Constant(value) => self.value_text(value, float_text),
            Note::InvalidConstant => "<invalid constant>".to_owned(),
            Note::UnknownGlobal => "<unknown global>".to_owned(),
            Note::BinaryOp(Some(op)) => op.name().to_owned(),
            Note::UnaryOp(Some(op)) => op.name().to_owned(),
            Note::BinaryOp(None) | Note::UnaryOp(None) => {
                let mut t = "Unknown(".to_owned();
                t.append(decimal_text(operand as u64).as_str());
                t.append(")");
                t
            },
        };
        let mut t = "  (".to_owned();
        t.append(inner.as_str());
        t.append(")");
        proof {
            reveal_strlit("  (");
            reveal_strlit(")");
            reveal_strlit("<invalid constant>");
            reveal_strlit("<unknown global>");
            reveal_strlit("Unknown(");
            reveal_strlit("  (<invalid constant>)");
            reveal_strlit("  (<unknown global>)");
            reveal_strlit("  (Unknown(");
            reveal_strlit("))");
        }
        t
    }

    /// The text of one instruction line of the listing, ending in a line
    /// break; `float_text` is how the floating-point constant that the line
    /// loads, if any, is shown.
    pub fn line_text(&self, line: &Line, float_text: &str) -> (t: String)
        requires
            note_names_known(self.symbols()@, line.note),
        ensures
            t@ == line_text_spec(self.symbols()@, *line, float_text@),
    {
        let mut t = pad_left(decimal_text(line.offset as u64).as_str(), 4);
        t.append("  ");
        let shown: Option<(OpCode, u16)> = match line.instr {
            Instruction::DefineGlobal(v) => Some((OpCode::DefineGlobal, v)),
            Instruction::LoadGlobal(v) => Some((OpCode::LoadGlobal, v)),
            Instruction::StoreGlobal(v) => Some((OpCode::StoreGlobal, v)),
            Instruction::DefineLocal(v) => Some((OpCode::DefineLocal, v)),
            Instruction::LoadLocal(v) => Some((OpCode::LoadLocal, v)),
            Instruction::StoreLocal(v) => Some((OpCode::StoreLocal, v)),
            Instruction::LoadConstant(v) => Some((OpCode::LoadConstant, v)),
            Instruction::Binary(code) => Some((OpCode::Binary, code as u16)),
            Instruction::Unary(code) => Some((OpCode::Unary, code as u16)),
            Instruction::Unknown(_) => None,
        };
        match shown {
            Some((op, operand)) => {
                t.append(pad_right(op.name(), 18).as_str());
                t.append(" ");
                t.append(pad_left(decimal_text(operand as u64).as_str(), 5).as_str());
                t.append(self.note_text(line.note, operand, float_text).as_str());
            },
            None => {
                let byte = match line.instr {
                    Instruction::Unknown(b) => b,
                    _ => 0,
                };
                t.append(pad_right("UNKNOWN", 18).as_str());
                t.append(" 0x");
                t.append(hex_byte_text(byte).as_str());
            },
        }
        t.append("\n");
        t
    }

    /// Whether the registry names every symbol that the listing shows.
    pub fn knows_names(&self) -> (b: bool)
        ensures
            b == names_known(self.bytecode()@, self.symbols()@),
    {
        let constants = self.bytecode.constants();
        let mut i: usize = 0;
        while i < constants.len()
            invariant
                constants@ == self.bytecode()@.constants,
                i <= constants@.len(),
                forall|k: int|
                    0 <= k < i ==> (#[trigger] constants@[k] matches Value::Ident(symbol) ==> symbol.id()
                        < self.symbols()@.len()),
            decreases constants@.len() - i,
        {
            match constants[i] {
                Value::Ident(symbol) => {
                    if !self.symbols.knows(symbol) {
                        return false;
                    }
                },
                _ => {},
            }
            i = i + 1;
        }
        let globals = self.bytecode.globals();
        let mut j: usize = 0;
        while j < globals.len()
            invariant
                globals@ == self.bytecode()@.globals,
                j <= globals@.len(),
                forall|k: int| 0 <= k < j ==> (#[trigger] globals@[k]).id() < self.symbols()@.len(),
            decreases globals@.len() - j,
        {
            if !self.symbols.knows(globals[j]) {
                return false;
            }
            j = j + 1;
        }
        true
    }

    /// The whole text of the listing: the constants, the globals in slot
    /// order and the instructions, as [`listing_text_spec`] lays them out.
    /// `float_texts` gives, by index, how each floating-point constant is shown.
    pub fn listing_text(&self, float_texts: &[String]) -> (t: String)
        requires
            names_known(self.bytecode()@, self.symbols()@),
        ensures
            t@ == listing_text_spec(
                self.bytecode()@,
                self.symbols()@,
                float_texts@.map_values(|f: String| f@),
            ),
    {
        let ghost b = self.bytecode()@;
        let ghost strings = self.symbols()@;
        let ghost floats = float_texts@.map_values(|f: String| f@);
        proof {
            reveal_strlit("");
        }
        let mut t = "Constants:\n".to_owned();
        let constants = self.bytecode.constants();
        let mut i: usize = 0;
        while i < constants.len()
            invariant
                constants@ == b.constants,
                b == self.bytecode()@,
                strings == self.symbols()@,
                floats == float_texts@.map_values(|f: String| f@),
                names_known(b, strings),
                i <= constants@.len(),
                t@ == "Constants:\n"@ + constant_lines_spec(b, strings, floats, i as int),
            decreases constants@.len() - i,
        {
            let float_text: &str = if i < float_texts.len() {
                float_texts[i].as_str()
            } else {
                ""
            };
            proof {
                reveal_strlit("");
                assert(constants@[i as int] == b.constants[i as int]);
            }
            t.append(pad_left(decimal_text(i as u64).as_str(), 4).as_str());
            t.append("  ");
            t.append(self.value_text(constants[i], float_text).as_str());
            t.append("\n");
            proof {
                assert(t@ =~= "Constants:\n"@ + constant_lines_spec(b, strings, floats, i + 1));
            }
            i = i + 1;
        }
        t.append("\n");
        t.append("Globals:\n");
        let ghost after_constants = t@;
        let globals = self.bytecode.globals();
        let mut j: usize = 0;
        proof {
            assert(t@ =~= after_constants + global_lines_spec(b, strings, 0));
        }
        while j < globals.len()
            invariant
                globals@ == b.globals,
                b == self.bytecode()@,
                strings == self.symbols()@,
                names_known(b, strings),
                j <= globals@.len(),
                t@ == after_constants + global_lines_spec(b, strings, j as int),
            decreases globals@.len() - j,
        {
            proof {
                assert(globals@[j as int] == b.globals[j as int]);
            }
            t.append(pad_left(decimal_text(j as u64).as_str(), 4).as_str());
            t.append("  ");
            t.append(self.name(globals[j]));
            t.append("\n");
            proof {
                assert(t@ =~= after_constants + global_lines_spec(b, strings, j + 1));
            }
            j = j + 1;
        }
        t.append("\n");
        t.append("Bytecode:\n");
        let ghost after_globals = t@;
        let lines = self.lines();
        let mut k: usize = 0;
        proof {
            assert(t@ =~= after_globals + code_lines_spec(b, strings, floats, 0));
        }
        while k < lines.len()
            invariant
                lines@ == listing_spec(b),
                b == self.bytecode()@,
                strings == self.symbols()@,
                floats == float_texts@.map_values(|f: String| f@),
                names_known(b, strings),
                k <= lines@.len(),
                t@ == after_globals + code_lines_spec(b, strings, floats, k as int),
            decreases lines@.len() - k,
        {
            let line = &lines[k];
            let float_text: &str = match line.instr {
                Instruction::LoadConstant(index) => if (index as usize) < float_texts.len() {
                    float_texts[index as usize].as_str()
                } else {
                    ""
                },
                _ => "",
            };
            proof {
                reveal_strlit("");
                assert(line.instr == b.instrs[k as int]);
                assert(line.note == note_spec(b, b.instrs[k as int]));
            }
            t.append(self.line_text(line, float_text).as_str());
            proof {
                assert(t@ =~= after_globals + code_lines_spec(b, strings, floats, k + 1));
            }
            k = k + 1;
        }
        proof {
            assert(t@ =~= listing_text_spec(b, strings, floats));
        }
        t
    }

    /// What the listing shows beside `instr`.
    fn note(&self, instr: Instruction) -> (n: Note)
        ensures
            n == note_spec(self.bytecode()@, instr),
    {
        match instr {
            Instruction::LoadConstant(index) => {
                let constants = self.bytecode.constants();
                if (index as usize) < constants.len() {
                    Note::Constant(constants[index as usize])
                } else {
                    Note::InvalidConstant
                }
            },
            Instruction::DefineGlobal(slot) | Instruction::LoadGlobal(slot) | Instruction::StoreGlobal(slot) => {
                let globals = self.bytecode.globals();
                if (slot as usize) < globals.len() {
                    Note::Global(globals[slot as usize])
                } else {
                    Note::UnknownGlobal
                }
            },
            Instruction::Binary(code) => Note::BinaryOp(BinaryOpCode::from_byte(code)),
            Instruction::Unary(code) => Note::UnaryOp(UnaryOpCode::from_byte(code)),
            _ => Note::Plain,
        }
    }
}

/// The instruction whose encoding starts at `offset`, and its length in bytes.
fn decode_at(code: &[u8], offset: usize) -> (r: (Instruction, usize))
    requires
        offset < code@.len(),
        decode_first(code@.skip(offset as int)) is Some,
    ensures
        decode_first(code@.skip(offset as int)) == Some((r.0, r.1 as int)),
{
    let ghost rest = code@.skip(offset as int);
    let byte = code[offset];
    match OpCode::from_byte(byte) {
        None => (Instruction::Unknown(byte), 1),
        Some(op) => match op {
            OpCode::Binary => (Instruction::Binary(code[offset + 1]), 2),
            OpCode::Unary => (Instruction::Unary(code[offset + 1]), 2),
            _ => {
                let v = read_u16(code[offset + 1], code[offset + 2]);
                let i = match op {
                    OpCode::DefineGlobal => Instruction::DefineGlobal(v),
                    OpCode::LoadGlobal => Instruction::LoadGlobal(v),
                    OpCode::StoreGlobal => Instruction::StoreGlobal(v),
                    OpCode::DefineLocal => Instruction::DefineLocal(v),
                    OpCode::LoadLocal => Instruction::LoadLocal(v),
                    OpCode::StoreLocal => Instruction::StoreLocal(v),
                    _ => Instruction::LoadConstant(v),
                };
                (i, 3)
            },
        },
    }
}

/// The `u16` whose bytes are `lo` and `hi`, least significant first.
fn read_u16(lo: u8, hi: u8) -> (v: u16)
    ensures
        v == operand_u16(lo, hi),
{
    (lo as u16) + 256 * (hi as u16)
}

} // verus!
