//! Bytecode operation codes understood by the Nyx virtual machine.
//!
//! Each [`OpCode`] identifies one instruction of compiled bytecode. Its byte
//! is part of the bytecode encoding; the codes are grouped by instruction
//! category.
use vstd::prelude::*;

verus! {

/// An operation code identifying a virtual machine instruction.
#[derive(Debug, Clone, Copy, PartialEq, Eq, Structural)]
pub enum OpCode {
    /// Defines a new global variable.
    DefineGlobal,
    /// Loads the value of a global variable.
    LoadGlobal,
    /// Stores a value in an existing global variable.
    StoreGlobal,
    /// Defines a new local variable.
    DefineLocal,
    /// Loads the value of a local variable.
    LoadLocal,
    /// Stores a value in an existing local variable.
    StoreLocal,
    /// Loads a constant value from the constant pool.
    LoadConstant,
    /// A binary operator; the next byte selects a [`BinaryOpCode`].
    Binary,
    /// A unary operator; the next byte selects a [`UnaryOpCode`].
    Unary,
}

impl OpCode {
    /// The byte encoding the operation.
    pub open spec fn byte(self) -> u8 {
        match self {
            OpCode::DefineGlobal => 0x20,
            OpCode::LoadGlobal => 0x21,
            OpCode::StoreGlobal => 0x22,
            OpCode::DefineLocal => 0x23,
            OpCode::LoadLocal => 0x24,
            OpCode::StoreLocal => 0x25,
            OpCode::LoadConstant => 0x26,
            OpCode::Binary => 0x30,
            OpCode::Unary => 0x31,
        }
    }

    /// The operation a byte encodes, if any.
    pub open spec fn of_byte(byte: u8) -> Option<OpCode> {
        if byte == 0x20 {
            Some(OpCode::DefineGlobal)
        } else if byte == 0x21 {
            Some(OpCode::LoadGlobal)
        } else if byte == 0x22 {
            Some(OpCode::StoreGlobal)
        } else if byte == 0x23 {
            Some(OpCode::DefineLocal)
        } else if byte == 0x24 {
            Some(OpCode::LoadLocal)
        } else if byte == 0x25 {
            Some(OpCode::StoreLocal)
        } else if byte == 0x26 {
            Some(OpCode::LoadConstant)
        } else if byte == 0x30 {
            Some(OpCode::Binary)
        } else if byte == 0x31 {
            Some(OpCode::Unary)
        } else {
            None
        }
    }

    /// The operation's name as printed in listings.
    pub open spec fn name_spec(self) -> Seq<char> {
        match self {
            OpCode::DefineGlobal => "DEFINE_GLOBAL"@,
            OpCode::LoadGlobal => "LOAD_GLOBAL"@,
            OpCode::StoreGlobal => "STORE_GLOBAL"@,
            OpCode::DefineLocal => "DEFINE_LOCAL"@,
            OpCode::LoadLocal => "LOAD_LOCAL"@,
            OpCode::StoreLocal => "STORE_LOCAL"@,
            OpCode::LoadConstant => "LOAD_CONSTANT"@,
            OpCode::Binary => "BINARY"@,
            OpCode::Unary => "UNARY"@,
        }
    }

    /// The operation encoded by `byte`, if any.
    pub fn from_byte(byte: u8) -> (op: Option<OpCode>)
        ensures
            op == OpCode::of_byte(byte),
    {
        match byte {
            0x20 => Some(OpCode::DefineGlobal),
            0x21 => Some(OpCode::LoadGlobal),
            0x22 => Some(OpCode::StoreGlobal),
            0x23 => Some(OpCode::DefineLocal),
            0x24 => Some(OpCode::LoadLocal),
            0x25 => Some(OpCode::StoreLocal),
            0x26 => Some(OpCode::LoadConstant),
            0x30 => Some(OpCode::Binary),
            0x31 => Some(OpCode::Unary),
            _ => None,
        }
    }

    /// The byte encoding the operation.
    pub fn to_byte(self) -> (byte: u8)
        ensures
            byte == self.byte(),
    {
        match self {
            OpCode::DefineGlobal => 0x20,
            OpCode::LoadGlobal => 0x21,
            OpCode::StoreGlobal => 0x22,
            OpCode::DefineLocal => 0x23,
            OpCode::LoadLocal => 0x24,
            OpCode::StoreLocal => 0x25,
            OpCode::LoadConstant => 0x26,
            OpCode::Binary => 0x30,
            OpCode::Unary => 0x31,
        }
    }

    /// The operation's name as printed in listings, in screaming snake case.
    pub fn name(self) -> (s: &'static str)
        ensures
            s@ == self.name_spec(),
    {
        match self {
            OpCode::DefineGlobal => "DEFINE_GLOBAL",
            OpCode::LoadGlobal => "LOAD_GLOBAL",
            OpCode::StoreGlobal => "STORE_GLOBAL",
            OpCode::DefineLocal => "DEFINE_LOCAL",
            OpCode::LoadLocal => "LOAD_LOCAL",
            OpCode::StoreLocal => "STORE_LOCAL",
            OpCode::LoadConstant => "LOAD_CONSTANT",
            OpCode::Binary => "BINARY",
            OpCode::Unary => "UNARY",
        }
    }
}

/// The operator selected by the byte after a [`OpCode::Binary`].
#[derive(Debug, Clone, Copy, PartialEq, Eq, Structural)]
pub enum BinaryOpCode {
    Add,
    Sub,
    Mul,
    Div,
}

impl BinaryOpCode {
    /// The byte encoding the operator.
    pub open spec fn byte(self) -> u8 {
        match self {
            BinaryOpCode::Add => 0x00,
            BinaryOpCode::Sub => 0x01,
            BinaryOpCode::Mul => 0x02,
            BinaryOpCode::Div => 0x03,
        }
    }

    /// The operator a byte encodes, if any.
    pub open spec fn of_byte(byte: u8) -> Option<BinaryOpCode> {
        if byte == 0x00 {
            Some(BinaryOpCode::Add)
        } else if byte == 0x01 {
            Some(BinaryOpCode::Sub)
        } else if byte == 0x02 {
            Some(BinaryOpCode::Mul)
        } else if byte == 0x03 {
            Some(BinaryOpCode::Div)
        } else {
            None
        }
    }

    /// The operator's name as printed in listings.
    pub open spec fn name_spec(self) -> Seq<char> {
        match self {
            BinaryOpCode::Add => "ADD"@,
            BinaryOpCode::Sub => "SUB"@,
            BinaryOpCode::Mul => "MUL"@,
            BinaryOpCode::Div => "DIV"@,
        }
    }

    /// The operator encoded by `byte`, if any.
    pub fn from_byte(byte: u8) -> (op: Option<BinaryOpCode>)
        ensures
            op == BinaryOpCode::of_byte(byte),
    {
        match byte {
            0x00 => Some(BinaryOpCode::Add),
            0x01 => Some(BinaryOpCode::Sub),
            0x02 => Some(BinaryOpCode::Mul),
            0x03 => Some(BinaryOpCode::Div),
            _ => None,
        }
    }

    /// The byte encoding the operator.
    pub fn to_byte(self) -> (byte: u8)
        ensures
            byte == self.byte(),
    {
        match self {
            BinaryOpCode::Add => 0x00,
            BinaryOpCode::Sub => 0x01,
            BinaryOpCode::Mul => 0x02,
            BinaryOpCode::Div => 0x03,
        }
    }

    /// The operator's name as printed in listings.
    pub fn name(self) -> (s: &'static str)
        ensures
            s@ == self.name_spec(),
    {
        match self {
            BinaryOpCode::Add => "ADD",
            BinaryOpCode::Sub => "SUB",
            BinaryOpCode::Mul => "MUL",
            BinaryOpCode::Div => "DIV",
        }
    }
}

/// The operator selected by the byte after a [`OpCode::Unary`].
#[derive(Debug, Clone, Copy, PartialEq, Eq, Structural)]
pub enum UnaryOpCode {
    Neg,
    Not,
}

impl UnaryOpCode {
    /// The byte encoding the operator.
    pub open spec fn byte(self) -> u8 {
        match self {
            UnaryOpCode::Neg => 0x00,
            UnaryOpCode::Not => 0x01,
        }
    }

    /// The operator a byte encodes, if any.
    pub open spec fn of_byte(byte: u8) -> Option<UnaryOpCode> {
        if byte == 0x00 {
            Some(UnaryOpCode::Neg)
        } else if byte == 0x01 {
            Some(UnaryOpCode::Not)
        } else {
            None
        }
    }

    /// The operator's name as printed in listings.
    pub open spec fn name_spec(self) -> Seq<char> {
        match self {
            UnaryOpCode::Neg => "NEG"@,
            UnaryOpCode::Not => "NOT"@,
        }
    }

    /// The operator encoded by `byte`, if any.
    pub fn from_byte(byte: u8) -> (op: Option<UnaryOpCode>)
        ensures
            op == UnaryOpCode::of_byte(byte),
    {
        match byte {
            0x00 => Some(UnaryOpCode::Neg),
            0x01 => Some(UnaryOpCode::Not),
            _ => None,
        }
    }

    /// The byte encoding the operator.
    pub fn to_byte(self) -> (byte: u8)
        ensures
            byte == self.byte(),
    {
        match self {
            UnaryOpCode::Neg => 0x00,
            UnaryOpCode::Not => 0x01,
        }
    }

    /// The operator's name as printed in listings.
    pub fn name(self) -> (s: &'static str)
        ensures
            s@ == self.name_spec(),
    {
        match self {
            UnaryOpCode::Neg => "NEG",
            UnaryOpCode::Not => "NOT",
        }
    }
}

/// Decoding a byte undoes encoding: every operation code reads back as itself
/// from its byte, and a byte that reads as an operation is that operation's
/// byte.
pub proof fn lemma_opcode_bytes_round_trip(op: OpCode, byte: u8)
    ensures
        OpCode::of_byte(op.byte()) == Some(op),
        OpCode::of_byte(byte) matches Some(o) ==> o.byte() == byte,
{
}

/// Decoding undoes encoding for the operators of [`OpCode::Binary`].
pub proof fn lemma_binary_opcode_bytes_round_trip(op: BinaryOpCode, byte: u8)
    ensures
        BinaryOpCode::of_byte(op.byte()) == Some(op),
        BinaryOpCode::of_byte(byte) matches Some(o) ==> o.byte() == byte,
{
}

/// Decoding undoes encoding for the operators of [`OpCode::Unary`].
pub proof fn lemma_unary_opcode_bytes_round_trip(op: UnaryOpCode, byte: u8)
    ensures
        UnaryOpCode::of_byte(op.byte()) == Some(op),
        UnaryOpCode::of_byte(byte) matches Some(o) ==> o.byte() == byte,
{
}

} // verus!
