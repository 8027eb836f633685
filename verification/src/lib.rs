//! A minimal register-based virtual machine with a line-oriented assembler.
//!
//! The assembler turns one line of mnemonic text into one 16-bit instruction
//! word; the virtual machine owns a register file, an operand stack and the
//! loaded bytecode, and executes it one fetch-decode-execute step at a time.

use vstd::prelude::*;

pub mod parser;
pub mod vm;

verus! {

/// A single 16-bit instruction word: opcode in bits 15-12, target register
/// in bits 11-8, value field (immediate or register id) in bits 7-0.
pub type Instruction = u16;

/// The machine's cell size: registers, stack cells and value fields are 8-bit.
pub type Rsize = u8;

/// An assembled program: an ordered sequence of instruction words.
pub type Bytecode = Vec<Instruction>;

/// The operand stack, pushed and popped only at the tail.
pub type Stack = Vec<Rsize>;

// Register ids, as they appear in the target and value fields.
pub const R0: Rsize = 0x0;
pub const R1: Rsize = 0x1;
pub const R2: Rsize = 0x2;
pub const R3: Rsize = 0x3;
pub const R4: Rsize = 0x4;
pub const R5: Rsize = 0x5;
pub const R6: Rsize = 0x6;
pub const R7: Rsize = 0x7;
/// Instruction pointer: index of the next instruction to fetch.
pub const RN: Rsize = 0x8;
/// Stack depth counter: mirrors the live length of the operand stack.
pub const RD: Rsize = 0x9;
/// Comparison-flag register, written by `chk`.
pub const RF: Rsize = 0xa;
/// Compare-target register, read by `cns`.
pub const RC: Rsize = 0xb;
/// Interrupt-selector register, read by `int`.
pub const RS: Rsize = 0xc;

// Opcodes, as they appear in bits 15-12 of an instruction word.
pub const INT: Rsize = 0x0;
pub const SET: Rsize = 0x1;
pub const PSH: Rsize = 0x2;
pub const POP: Rsize = 0x3;
pub const ADD: Rsize = 0x4;
pub const SUB: Rsize = 0x5;
pub const MUL: Rsize = 0x6;
pub const DIV: Rsize = 0x7;
pub const CHK: Rsize = 0x8;
pub const CNS: Rsize = 0x9;
pub const LPT: Rsize = 0xa;
pub const LSH: Rsize = 0xb;
pub const RSH: Rsize = 0xc;
pub const AND: Rsize = 0xd;
pub const BOR: Rsize = 0xe;
pub const XOR: Rsize = 0xf;

// Interrupt selector codes, read from the RS register by the `int` opcode.
pub const HALT: Rsize = 0x0;
pub const PRINTLINE: Rsize = 0x1;
pub const READLINE: Rsize = 0x2;

// Comparison outcome codes, stored into RF by the `chk` opcode.
pub const EQ: Rsize = 0x0;
pub const LE: Rsize = 0x1;
pub const GR: Rsize = 0x2;

/// An assembly-time parse error. Assembly of a file stops at the first line
/// that reports one; no partial bytecode is returned.
#[derive(Clone, Copy, Debug, PartialEq, Eq, Structural)]
pub enum Error {
    /// The mnemonic token is missing or not in the mnemonic table.
    ParseNoOpcodeError,
    /// The target token is missing or not a register name.
    ParseNoTargetError,
    /// The value token is missing, or is neither a register name nor,
    /// for `set`, a decimal integer between 0 and 255.
    ParseNoValueError,
    /// A line whose tokenization is malformed.
    ParseLineError,
    /// A failure that concerns the file as a whole rather than one line.
    ParseFileError,
}

/// An execution-time fault. Every variant but `VMHaltError` terminates the
/// run loop as an error; `VMHaltError` is the clean-termination signal.
#[derive(Clone, Copy, Debug, PartialEq, Eq, Structural)]
pub enum VMError {
    /// The run loop gave up before the program reached a terminal state.
    VMRunError,
    /// Incrementing the instruction pointer past 255 while the current
    /// instruction does not itself target RN.
    VMContextFetchNextError,
    /// The instruction pointer is at or past the end of the loaded bytecode.
    VMContextFetchInvalidError,
    /// Clean termination requested by the halt interrupt.
    VMHaltError,
    /// An opcode outside the instruction table.
    VMInvalidOpcodeError,
    /// A target field that does not denote a register.
    VMInvalidTargetError,
    /// A value field that must denote a register but does not.
    VMInvalidValueError,
    /// Checked 8-bit arithmetic overflowed, underflowed or divided by zero.
    VMRegisterOverflowError,
    /// A push would raise the stack depth counter past 255.
    VMStackOverflowError,
    /// A pop from an empty stack, or a stack depth counter at zero.
    VMStackUnderflowError,
    /// An indirect load addressed a stack cell that does not exist.
    VMStackInvalidAccessError,
    /// The external input line could not be read.
    VMInterruptError,
    /// An interrupt selector value with no implementation.
    VMUnimplementedError,
}

} // verus!
