//! The program representation executed by the virtual machine: a flat
//! instruction stream and a pool of numeric constants.

use vstd::prelude::*;
use vstd::std_specs::convert::IntoSpec;

verus! {

/// One instruction of the stack machine. `Constant` is followed in the
/// instruction stream by one operand byte, an index into the constant pool;
/// every other instruction stands alone.
#[derive(Debug, Clone, Copy, PartialEq, Eq, Structural)]
pub enum Opcode {
    Constant,
    Pop,
    Return,
    Add,
    Subtract,
    Multiply,
    Divide,
    Remainder,
    Negate,
}

/// The opcode that a byte encodes, if any.
pub open spec fn decode(byte: u8) -> Option<Opcode> {
    if byte == 0 {
        Some(Opcode::Constant)
    } else if byte == 1 {
        Some(Opcode::Pop)
    } else if byte == 2 {
        Some(Opcode::Return)
    } else if byte == 3 {
        Some(Opcode::Add)
    } else if byte == 4 {
        Some(Opcode::Subtract)
    } else if byte == 5 {
        Some(Opcode::Multiply)
    } else if byte == 6 {
        Some(Opcode::Divide)
    } else if byte == 7 {
        Some(Opcode::Remainder)
    } else if byte == 8 {
        Some(Opcode::Negate)
    } else {
        None
    }
}

impl Opcode {
    /// The byte that encodes this opcode.
    pub open spec fn encoding(self) -> u8 {
        match self {
            Opcode::Constant => 0,
            Opcode::Pop => 1,
            Opcode::Return => 2,
            Opcode::Add => 3,
            Opcode::Subtract => 4,
            Opcode::Multiply => 5,
            Opcode::Divide => 6,
            Opcode::Remainder => 7,
            Opcode::Negate => 8,
        }
    }

    /// Number of operand bytes that follow the opcode.
    pub open spec fn arity(self) -> nat {
        match self {
            Opcode::Constant => 1,
            _ => 0,
        }
    }

    /// The two-operand arithmetic instructions.
    pub open spec fn is_binary(self) -> bool {
        match self {
            Opcode::Add
            | Opcode::Subtract
            | Opcode::Multiply
            | Opcode::Divide
            | Opcode::Remainder => true,
            _ => false,
        }
    }

    /// Encodes the opcode as a byte.
    pub fn to_byte(self) -> (byte: u8)
        ensures
            byte == self.encoding(),
            decode(byte) == Some(self),
    {
        match self {
            Opcode::Constant => 0,
            Opcode::Pop => 1,
            Opcode::Return => 2,
            Opcode::Add => 3,
            Opcode::Subtract => 4,
            Opcode::Multiply => 5,
            Opcode::Divide => 6,
            Opcode::Remainder => 7,
            Opcode::Negate => 8,
        }
    }
}

impl TryFrom<u8> for Opcode {
    type Error = ();

    /// Decodes a byte; bytes that encode no opcode are rejected.
    fn try_from(value: u8) -> (opcode: Result<Opcode, ()>) {
        let opcode = match value {
            0 => Opcode::Constant,
            1 => Opcode::Pop,
            2 => Opcode::Return,
            3 => Opcode::Add,
            4 => Opcode::Subtract,
            5 => Opcode::Multiply,
            6 => Opcode::Divide,
            7 => Opcode::Remainder,
            8 => Opcode::Negate,
            _ => return Err(()),
        };
        Ok(opcode)
    }
}

impl vstd::std_specs::convert::TryFromSpecImpl<u8> for Opcode {
    open spec fn obeys_try_from_spec() -> bool {
        true
    }

    open spec fn try_from_spec(value: u8) -> Result<Opcode, ()> {
        match decode(value) {
            Some(opcode) => Ok(opcode),
            None => Err(()),
        }
    }
}

/// Decoding inverts encoding, and only the encodings decode.
pub proof fn opcode_encoding_round_trips(op: Opcode, byte: u8)
    ensures
        decode(op.encoding()) == Some(op),
        decode(byte) == Some(op) <==> byte == op.encoding(),
        decode(byte) is Some <==> byte <= 8,
{
}

/// An instruction as it stands in the instruction stream: the opcode and, for
/// `Constant`, its operand.
#[derive(Debug, Clone, Copy, PartialEq, Eq, Structural)]
pub struct Instruction {
    pub opcode: Opcode,
    pub operand: Option<u8>,
}

/// The instructions that the bytes from offset `at` on encode, if they encode
/// instructions throughout: every opcode is known and every `Constant` has
/// its operand byte.
pub open spec fn listing(code: Seq<u8>, at: int) -> Option<Seq<Instruction>>
    decreases code.len() - at,
{
    if at < 0 || at >= code.len() {
        Some(Seq::empty())
    } else {
        match decode(code[at]) {
            None => None,
            Some(Opcode::Constant) => {
                if at + 1 < code.len() {
                    match listing(code, at + 2) {
                        Some(rest) => Some(
                            seq![
                                Instruction {
                                    opcode: Opcode::Constant,
                                    operand: Some(code[at + 1]),
                                },
                            ] + rest,
                        ),
                        None => None,
                    }
                } else {
                    None
                }
            },
            Some(opcode) => match listing(code, at + 1) {
                Some(rest) => Some(seq![Instruction { opcode, operand: None }] + rest),
                None => None,
            },
        }
    }
}

/// A program: the instruction stream and the constants it refers to. A
/// constant is the bit pattern of an IEEE-754 binary64 value.
#[derive(Debug, Clone)]
pub struct Bytecode {
    pub code: Vec<u8>,
    pub constants: Vec<u64>,
}

impl Default for Bytecode {
    fn default() -> (bytecode: Bytecode)
        ensures
            bytecode.code@ == Seq::<u8>::empty(),
            bytecode.constants@ == Seq::<u64>::empty(),
    {
        Bytecode { code: Vec::new(), constants: Vec::new() }
    }
}

impl Bytecode {
    /// Appends a raw byte to the instruction stream.
    pub fn write_byte(&mut self, byte: u8)
        ensures
            final(self).code@ == old(self).code@.push(byte),
            final(self).constants@ == old(self).constants@,
    {
        self.code.push(byte);
    }

    /// Appends the encoding of `opcode` to the instruction stream.
    pub fn write_opcode(&mut self, opcode: Opcode)
        ensures
            final(self).code@ == old(self).code@.push(opcode.encoding()),
            final(self).constants@ == old(self).constants@,
    {
        self.code.push(opcode.to_byte());
    }

    /// Appends `value` to the constant pool and returns its index.
    pub fn add_constant(&mut self, value: u64) -> (index: usize)
        ensures
            index == old(self).constants@.len(),
            final(self).constants@ == old(self).constants@.push(value),
            final(self).code@ == old(self).code@,
    {
        let next_idx = self.constants.len();
        self.constants.push(value);
        next_idx
    }

    /// The constant stored at `idx`.
    pub fn constant<T: Into<usize>>(&self, idx: T) -> (value: u64)
        requires
            T::obeys_into_spec(),
            idx.into_spec() < self.constants@.len(),
        ensures
            value == self.constants@[idx.into_spec() as int],
    {
        let at: usize = idx.into();
        self.constants[at]
    }

    /// The instruction stream as raw bytes.
    pub fn as_ref(&self) -> (bytes: &[u8])
        ensures
            bytes@ == self.code@,
    {
        self.code.as_slice()
    }

    /// Decodes the instruction stream, or gives nothing if some byte in
    /// instruction position encodes no opcode or the stream ends where an
    /// operand is due.
    pub fn instructions(&self) -> (decoded: Option<Vec<Instruction>>)
        ensures
            match decoded {
                Some(instructions) => listing(self.code@, 0) == Some(instructions@),
                None => listing(self.code@, 0) is None,
            },
    {
        let mut instructions: Vec<Instruction> = Vec::new();
        let mut at: usize = 0;
        while at < self.code.len()
            invariant
                at <= self.code@.len(),
                listing(self.code@, 0) is Some <==> listing(self.code@, at as int) is Some,
                listing(self.code@, 0) is Some ==> listing(self.code@, 0)->0 == instructions@
                    + listing(self.code@, at as int)->0,
            decreases self.code@.len() - at,
        {
            let opcode = match Opcode::try_from(self.code[at]) {
                Ok(opcode) => opcode,
                Err(_) => {
                    return None;
                },
            };
            match opcode {
                Opcode::Constant => {
                    if at + 1 >= self.code.len() {
                        return None;
                    }
                    let operand = self.code[at + 1];
                    let instruction = Instruction { opcode, operand: Some(operand) };
                    instructions.push(instruction);
                    at = at + 2;
                },
                _ => {
                    let instruction = Instruction { opcode, operand: None };
                    instructions.push(instruction);
                    at = at + 1;
                },
            }
        }
        Some(instructions)
    }
}

} // verus!
