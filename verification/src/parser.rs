//! The assembler: one trimmed, non-empty, non-comment line of text becomes
//! one 16-bit instruction word, or a specific parse error.

use vstd::prelude::*;
use vstd::slice::slice_subrange;

use crate::Bytecode;
use crate::Error;
use crate::Instruction;
use crate::Rsize;
use crate::{INT, SET, PSH, POP, ADD, SUB, MUL, DIV, CHK, CNS, LPT, LSH, RSH, AND, BOR, XOR};
use crate::{R0, R1, R2, R3, R4, R5, R6, R7, RN, RD, RF, RC, RS};

verus! {

/// The position of the first occurrence of `b` in `s` at or after `from`,
/// or the length of `s` when there is none.
pub open spec fn find_byte(s: Seq<u8>, b: u8, from: int) -> int
    recommends
        0 <= from <= s.len(),
    decreases s.len() - from,
{
    if from < 0 || from >= s.len() {
        s.len() as int
    } else if s[from] == b {
        from
    } else {
        find_byte(s, b, from + 1)
    }
}

pub proof fn lemma_find_byte_bounds(s: Seq<u8>, b: u8, from: int)
    requires
        0 <= from <= s.len(),
    ensures
        from <= find_byte(s, b, from) <= s.len(),
    decreases s.len() - from,
{
    if from < s.len() && s[from] != b {
        lemma_find_byte_bounds(s, b, from + 1);
    }
}

/// The first token of a line: everything before the first space.
pub open spec fn token0(s: Seq<u8>) -> Seq<u8> {
    s.subrange(0, find_byte(s, 32, 0))
}

/// The second token: between the first space and the second, if a first
/// space exists at all.
pub open spec fn token1(s: Seq<u8>) -> Option<Seq<u8>> {
    let e0 = find_byte(s, 32, 0);
    if e0 < s.len() {
        Some(s.subrange(e0 + 1, find_byte(s, 32, e0 + 1)))
    } else {
        None
    }
}

/// The third token: between the second space and the third, if a second
/// space exists at all.
pub open spec fn token2(s: Seq<u8>) -> Option<Seq<u8>> {
    let e0 = find_byte(s, 32, 0);
    if e0 < s.len() {
        let e1 = find_byte(s, 32, e0 + 1);
        if e1 < s.len() {
            Some(s.subrange(e1 + 1, find_byte(s, 32, e1 + 1)))
        } else {
            None
        }
    } else {
        None
    }
}

/// The fixed mnemonic table: a three-letter lowercase mnemonic maps to
/// its opcode; everything else maps to nothing.
pub open spec fn opcode_of_mnemonic(t: Seq<u8>) -> Option<Rsize> {
    if t.len() == 3 {
        let a = t[0];
        let b = t[1];
        let c = t[2];
        if a == ('i' as u8) && b == ('n' as u8) && c == ('t' as u8) {
            Some(INT)
        } else if a == ('s' as u8) && b == ('e' as u8) && c == ('t' as u8) {
            Some(SET)
        } else if a == ('p' as u8) && b == ('s' as u8) && c == ('h' as u8) {
            Some(PSH)
        } else if a == ('p' as u8) && b == ('o' as u8) && c == ('p' as u8) {
            Some(POP)
        } else if a == ('a' as u8) && b == ('d' as u8) && c == ('d' as u8) {
            Some(ADD)
        } else if a == ('s' as u8) && b == ('u' as u8) && c == ('b' as u8) {
            Some(SUB)
        } else if a == ('m' as u8) && b == ('u' as u8) && c == ('l' as u8) {
            Some(MUL)
        } else if a == ('d' as u8) && b == ('i' as u8) && c == ('v' as u8) {
            Some(DIV)
        } else if a == ('c' as u8) && b == ('h' as u8) && c == ('k' as u8) {
            Some(CHK)
        } else if a == ('c' as u8) && b == ('n' as u8) && c == ('s' as u8) {
            Some(CNS)
        } else if a == ('l' as u8) && b == ('p' as u8) && c == ('t' as u8) {
            Some(LPT)
        } else if a == ('l' as u8) && b == ('s' as u8) && c == ('h' as u8) {
            Some(LSH)
        } else if a == ('r' as u8) && b == ('s' as u8) && c == ('h' as u8) {
            Some(RSH)
        } else if a == ('a' as u8) && b == ('n' as u8) && c == ('d' as u8) {
            Some(AND)
        } else if a == ('b' as u8) && b == ('o' as u8) && c == ('r' as u8) {
            Some(BOR)
        } else if a == ('x' as u8) && b == ('o' as u8) && c == ('r' as u8) {
            Some(XOR)
        } else {
            None
        }
    } else {
        None
    }
}

/// The fixed register table: a two-letter register name maps to its id;
/// everything else maps to nothing.
pub open spec fn register_of_token(t: Seq<u8>) -> Option<Rsize> {
    if t.len() == 2 && t[0] == ('r' as u8) {
        let c = t[1];
        if c == ('0' as u8) {
            Some(R0)
        } else if c == ('1' as u8) {
            Some(R1)
        } else if c == ('2' as u8) {
            Some(R2)
        } else if c == ('3' as u8) {
            Some(R3)
        } else if c == ('4' as u8) {
            Some(R4)
        } else if c == ('5' as u8) {
            Some(R5)
        } else if c == ('6' as u8) {
            Some(R6)
        } else if c == ('7' as u8) {
            Some(R7)
        } else if c == ('n' as u8) {
            Some(RN)
        } else if c == ('d' as u8) {
            Some(RD)
        } else if c == ('f' as u8) {
            Some(RF)
        } else if c == ('c' as u8) {
            Some(RC)
        } else if c == ('s' as u8) {
            Some(RS)
        } else {
            None
        }
    } else {
        None
    }
}

/// Whether a byte is a decimal digit.
pub open spec fn is_digit(b: u8) -> bool {
    ('0' as u8) <= b <= ('9' as u8)
}

/// Whether every byte of a token is a decimal digit.
pub open spec fn all_digits(t: Seq<u8>) -> bool {
    forall|i: int| 0 <= i < t.len() ==> is_digit(#[trigger] t[i])
}

/// The number the digits of `t` spell from position `i` on, read left to
/// right on top of the accumulator `acc`.
pub open spec fn digits_value_from(t: Seq<u8>, i: int, acc: int) -> int
    decreases t.len() - i,
{
    if i < 0 || i >= t.len() {
        acc
    } else {
        digits_value_from(t, i + 1, acc * 10 + (t[i] - ('0' as u8)))
    }
}

/// The decimal literal a token denotes for the `set` opcode: defined only
/// for a non-empty all-digit token whose value fits in eight bits.
pub open spec fn literal_of_token(t: Seq<u8>) -> Option<Rsize> {
    if t.len() > 0 && all_digits(t) && digits_value_from(t, 0, 0) <= 255 {
        Some(digits_value_from(t, 0, 0) as Rsize)
    } else {
        None
    }
}

/// The 16-bit word with the three fields in place:
/// opcode in bits 15-12, target in bits 11-8, value in bits 7-0.
pub open spec fn word_of(op: Rsize, target: Rsize, value: Rsize) -> Instruction
    recommends
        op <= 0xf,
        target <= 0xf,
{
    (op * 0x1000 + target * 0x100 + value) as Instruction
}

/// The three fields of an instruction under construction; a field still
/// unset after parsing its token is `None`.
pub struct InstructionBuilder {
    pub opcode_hex: Option<Rsize>,
    pub target_hex: Option<Rsize>,
    pub value_hex: Option<Rsize>,
}

/// Fields the parser can produce: opcode and target fit in four bits.
pub open spec fn builder_wf(b: InstructionBuilder) -> bool {
    &&& (b.opcode_hex matches Some(op) ==> op <= 0xf)
    &&& (b.target_hex matches Some(t) ==> t <= 0xf)
}

/// What building an instruction from the three fields yields: the packed
/// word, or the error for the first missing field. Only the interrupt
/// opcode may leave the target or the value out; a left-out field packs
/// as zero.
pub open spec fn spec_build(b: InstructionBuilder) -> Result<Instruction, Error> {
    match b.opcode_hex {
        None => Err(Error::ParseNoOpcodeError),
        Some(op) => match b.target_hex {
            None => if op == INT {
                Ok(word_of(op, 0, 0))
            } else {
                Err(Error::ParseNoTargetError)
            },
            Some(target) => match b.value_hex {
                None => if op == INT {
                    Ok(word_of(op, target, 0))
                } else {
                    Err(Error::ParseNoValueError)
                },
                Some(value) => Ok(word_of(op, target, value)),
            },
        },
    }
}

impl InstructionBuilder {
    /// Pack the collected fields into one instruction word, or report the
    /// first field that is missing and required.
    pub fn build_instruction(self) -> (r: Result<Instruction, Error>)
        requires
            builder_wf(self),
        ensures
            r == spec_build(self),
    {
        let op: Rsize = match self.opcode_hex {
            Some(op) => op,
            None => {
                return Err(Error::ParseNoOpcodeError);
            },
        };
        let mut instruction: Instruction = (op as u16) * 0x1000;
        let target: Rsize = match self.target_hex {
            Some(target) => target,
            None => {
                if op == INT {
                    return Ok(instruction);
                }
                return Err(Error::ParseNoTargetError);
            },
        };
        instruction = instruction + (target as u16) * 0x100;
        let value: Rsize = match self.value_hex {
            Some(value) => value,
            None => {
                if op == INT {
                    return Ok(instruction);
                }
                return Err(Error::ParseNoValueError);
            },
        };
        Ok(instruction + (value as u16))
    }
}

/// Find the first occurrence of `b` at or after `from`, or the end;
/// exactly `find_byte`.
fn scan_byte(s: &[u8], b: u8, from: usize) -> (r: usize)
    requires
        from <= s@.len(),
    ensures
        r == find_byte(s@, b, from as int),
        from <= r <= s@.len(),
{
    let mut i: usize = from;
    while i < s.len() && s[i] != b
        invariant
            from <= i <= s@.len(),
            find_byte(s@, b, from as int) == find_byte(s@, b, i as int),
        decreases s@.len() - i,
    {
        i = i + 1;
    }
    i
}

/// Look the token `s[start..end]` up in the mnemonic table.
fn parse_mnemonic(s: &[u8], start: usize, end: usize) -> (r: Option<Rsize>)
    requires
        start <= end <= s@.len(),
    ensures
        r == opcode_of_mnemonic(s@.subrange(start as int, end as int)),
        r matches Some(op) ==> op <= 0xf,
{
    let ghost tok = s@.subrange(start as int, end as int);
    if end - start != 3 {
        return None;
    }
    let a: u8 = s[start];
    let b: u8 = s[start + 1];
    let c: u8 = s[start + 2];
    proof {
        assert(tok.len() == 3 && tok[0] == a && tok[1] == b && tok[2] == c);
    }
    if a == ('i' as u8) && b == ('n' as u8) && c == ('t' as u8) {
        Some(INT)
    } else if a == ('s' as u8) && b == ('e' as u8) && c == ('t' as u8) {
        Some(SET)
    } else if a == ('p' as u8) && b == ('s' as u8) && c == ('h' as u8) {
        Some(PSH)
    } else if a == ('p' as u8) && b == ('o' as u8) && c == ('p' as u8) {
        Some(POP)
    } else if a == ('a' as u8) && b == ('d' as u8) && c == ('d' as u8) {
        Some(ADD)
    } else if a == ('s' as u8) && b == ('u' as u8) && c == ('b' as u8) {
        Some(SUB)
    } else if a == ('m' as u8) && b == ('u' as u8) && c == ('l' as u8) {
        Some(MUL)
    } else if a == ('d' as u8) && b == ('i' as u8) && c == ('v' as u8) {
        Some(DIV)
    } else if a == ('c' as u8) && b == ('h' as u8) && c == ('k' as u8) {
        Some(CHK)
    } else if a == ('c' as u8) && b == ('n' as u8) && c == ('s' as u8) {
        Some(CNS)
    } else if a == ('l' as u8) && b == ('p' as u8) && c == ('t' as u8) {
        Some(LPT)
    } else if a == ('l' as u8) && b == ('s' as u8) && c == ('h' as u8) {
        Some(LSH)
    } else if a == ('r' as u8) && b == ('s' as u8) && c == ('h' as u8) {
        Some(RSH)
    } else if a == ('a' as u8) && b == ('n' as u8) && c == ('d' as u8) {
        Some(AND)
    } else if a == ('b' as u8) && b == ('o' as u8) && c == ('r' as u8) {
        Some(BOR)
    } else if a == ('x' as u8) && b == ('o' as u8) && c == ('r' as u8) {
        Some(XOR)
    } else {
        None
    }
}

/// Look the token `s[start..end]` up in the register table.
fn parse_register(s: &[u8], start: usize, end: usize) -> (r: Option<Rsize>)
    requires
        start <= end <= s@.len(),
    ensures
        r == register_of_token(s@.subrange(start as int, end as int)),
        r matches Some(id) ==> id <= 0xc,
{
    let ghost tok = s@.subrange(start as int, end as int);
    if end - start != 2 {
        return None;
    }
    let a: u8 = s[start];
    let c: u8 = s[start + 1];
    proof {
        assert(tok.len() == 2 && tok[0] == a && tok[1] == c);
    }
    if a != ('r' as u8) {
        return None;
    }
    if c == ('0' as u8) {
        Some(R0)
    } else if c == ('1' as u8) {
        Some(R1)
    } else if c == ('2' as u8) {
        Some(R2)
    } else if c == ('3' as u8) {
        Some(R3)
    } else if c == ('4' as u8) {
        Some(R4)
    } else if c == ('5' as u8) {
        Some(R5)
    } else if c == ('6' as u8) {
        Some(R6)
    } else if c == ('7' as u8) {
        Some(R7)
    } else if c == ('n' as u8) {
        Some(RN)
    } else if c == ('d' as u8) {
        Some(RD)
    } else if c == ('f' as u8) {
        Some(RF)
    } else if c == ('c' as u8) {
        Some(RC)
    } else if c == ('s' as u8) {
        Some(RS)
    } else {
        None
    }
}

/// The digits from `i` on can only push the spelled number up: reading
/// one more digit multiplies the accumulator by ten.
proof fn lemma_digits_value_from_lower(t: Seq<u8>, i: int, acc: int)
    requires
        0 <= i <= t.len(),
        0 <= acc,
        all_digits(t),
    ensures
        digits_value_from(t, i, acc) >= acc,
    decreases t.len() - i,
{
    if i < t.len() {
        lemma_digits_value_from_lower(t, i + 1, acc * 10 + (t[i] - ('0' as u8)));
    }
}

/// Parse the token `s[start..end]` as a decimal literal between 0 and 255.
fn parse_literal(s: &[u8], start: usize, end: usize) -> (r: Option<Rsize>)
    requires
        start <= end <= s@.len(),
    ensures
        r == literal_of_token(s@.subrange(start as int, end as int)),
{
    let ghost tok = s@.subrange(start as int, end as int);
    if start == end {
        return None;
    }
    let mut value: u32 = 0;
    let mut i: usize = start;
    while i < end
        invariant
            start <= i <= end <= s@.len(),
            tok == s@.subrange(start as int, end as int),
            value <= 255,
            forall|k: int| 0 <= k < i - start ==> is_digit(#[trigger] tok[k]),
            digits_value_from(tok, 0, 0) == digits_value_from(tok, i - start, value as int),
        decreases end - i,
    {
        let d: u8 = s[i];
        proof {
            assert(tok[i - start] == d);
        }
        if d < ('0' as u8) || d > ('9' as u8) {
            proof {
                assert(!all_digits(tok));
            }
            return None;
        }
        let new_value: u32 = value * 10 + ((d - ('0' as u8)) as u32);
        if new_value > 255 {
            proof {
                if all_digits(tok) {
                    lemma_digits_value_from_lower(tok, i + 1 - start, new_value as int);
                }
            }
            return None;
        }
        value = new_value;
        i = i + 1;
    }
    proof {
        assert(all_digits(tok));
        assert(digits_value_from(tok, (end - start) as int, value as int) == value);
    }
    Some(value as Rsize)
}

/// The target field a line provides: nothing when the line has no second
/// token, its register id when it names a register, and the target error
/// otherwise.
pub open spec fn spec_target_field(line: Seq<u8>) -> Result<Option<Rsize>, Error> {
    match token1(line) {
        None => Ok(None),
        Some(t1) => match register_of_token(t1) {
            Some(id) => Ok(Some(id)),
            None => Err(Error::ParseNoTargetError),
        },
    }
}

/// The value field a line provides: nothing when the line has no third
/// token, a register id when the token names a register, for `set` also
/// a decimal literal, and the value error otherwise.
pub open spec fn spec_value_field(line: Seq<u8>, op: Rsize) -> Result<Option<Rsize>, Error> {
    match token2(line) {
        None => Ok(None),
        Some(t2) => match register_of_token(t2) {
            Some(id) => Ok(Some(id)),
            None => if op == SET {
                match literal_of_token(t2) {
                    Some(value) => Ok(Some(value)),
                    None => Err(Error::ParseNoValueError),
                }
            } else {
                Err(Error::ParseNoValueError)
            },
        },
    }
}

/// What assembling one line yields: the packed instruction word, or the
/// error for the first token that fails — unknown mnemonic, then target,
/// then value.
pub open spec fn spec_assemble_line(line: Seq<u8>) -> Result<Instruction, Error> {
    match opcode_of_mnemonic(token0(line)) {
        None => Err(Error::ParseNoOpcodeError),
        Some(op) => match spec_target_field(line) {
            Err(e) => Err(e),
            Ok(target) => match spec_value_field(line, op) {
                Err(e) => Err(e),
                Ok(value) => spec_build(
                    InstructionBuilder { opcode_hex: Some(op), target_hex: target, value_hex: value },
                ),
            },
        },
    }
}

/// Assemble one trimmed, non-empty, non-comment line: split it on single
/// spaces into mnemonic, target and value tokens, look each up in its
/// table, and pack the fields; exactly `spec_assemble_line`.
pub fn assemble_line(line: &[u8]) -> (r: Result<Instruction, Error>)
    ensures
        r == spec_assemble_line(line@),
{
    let end0: usize = scan_byte(line, 32, 0);
    let mut instruction_builder = InstructionBuilder {
        opcode_hex: None,
        target_hex: None,
        value_hex: None,
    };
    let op: Rsize = match parse_mnemonic(line, 0, end0) {
        Some(op) => op,
        None => {
            return Err(Error::ParseNoOpcodeError);
        },
    };
    instruction_builder.opcode_hex = Some(op);
    if end0 < line.len() {
        let start1: usize = end0 + 1;
        let end1: usize = scan_byte(line, 32, start1);
        match parse_register(line, start1, end1) {
            Some(id) => {
                instruction_builder.target_hex = Some(id);
            },
            None => {
                return Err(Error::ParseNoTargetError);
            },
        }
        if end1 < line.len() {
            let start2: usize = end1 + 1;
            let end2: usize = scan_byte(line, 32, start2);
            match parse_register(line, start2, end2) {
                Some(id) => {
                    instruction_builder.value_hex = Some(id);
                },
                None => {
                    if op == SET {
                        match parse_literal(line, start2, end2) {
                            Some(value) => {
                                instruction_builder.value_hex = Some(value);
                            },
                            None => {
                                return Err(Error::ParseNoValueError);
                            },
                        }
                    } else {
                        return Err(Error::ParseNoValueError);
                    }
                },
            }
        }
    }
    instruction_builder.build_instruction()
}

/// Whether a byte is ASCII whitespace: space, tab, line feed, vertical
/// tab, form feed or carriage return.
pub open spec fn is_ascii_space(b: u8) -> bool {
    b == 32 || 9 <= b <= 13
}

/// The position of the first non-whitespace byte at or after `from`, or
/// the end.
pub open spec fn skip_ws(s: Seq<u8>, from: int) -> int
    recommends
        0 <= from <= s.len(),
    decreases s.len() - from,
{
    if from < 0 || from >= s.len() {
        s.len() as int
    } else if is_ascii_space(s[from]) {
        skip_ws(s, from + 1)
    } else {
        from
    }
}

/// One past the last non-whitespace byte before `upto`, or zero.
pub open spec fn rskip_ws(s: Seq<u8>, upto: int) -> int
    recommends
        upto <= s.len(),
    decreases upto,
{
    if upto <= 0 {
        0
    } else if is_ascii_space(s[upto - 1]) {
        rskip_ws(s, upto - 1)
    } else {
        upto
    }
}

/// A line with its leading and trailing ASCII whitespace removed.
pub open spec fn trimmed(s: Seq<u8>) -> Seq<u8> {
    let lo = skip_ws(s, 0);
    let hi = rskip_ws(s, s.len() as int);
    if lo <= hi {
        s.subrange(lo, hi)
    } else {
        Seq::empty()
    }
}

pub proof fn lemma_skip_ws_bounds(s: Seq<u8>, from: int)
    requires
        0 <= from <= s.len(),
    ensures
        from <= skip_ws(s, from) <= s.len(),
    decreases s.len() - from,
{
    if from < s.len() && is_ascii_space(s[from]) {
        lemma_skip_ws_bounds(s, from + 1);
    }
}

pub proof fn lemma_rskip_ws_bounds(s: Seq<u8>, upto: int)
    requires
        0 <= upto <= s.len(),
    ensures
        0 <= rskip_ws(s, upto) <= upto,
    decreases upto,
{
    if upto > 0 && is_ascii_space(s[upto - 1]) {
        lemma_rskip_ws_bounds(s, upto - 1);
    }
}

/// What assembling a whole source text from byte position `from` on
/// yields, counting physical lines from `lineno`: the instruction words
/// of the remaining lines in order, or the 0-based physical index and
/// error of the first line that fails. A line is everything up to the
/// next line feed; trimmed-empty lines and lines starting with `#` are
/// skipped and produce no word, but still count as physical lines.
pub open spec fn spec_assemble_from(src: Seq<u8>, from: int, lineno: int) -> Result<
    Seq<Instruction>,
    (int, Error),
>
    decreases src.len() - from + 1,
    via spec_assemble_from_decreases
{
    if from < 0 || from >= src.len() {
        Ok(Seq::empty())
    } else {
        let line_end = find_byte(src, 10, from);
        let line = trimmed(src.subrange(from, line_end));
        if line.len() == 0 || line[0] == ('#' as u8) {
            spec_assemble_from(src, line_end + 1, lineno + 1)
        } else {
            match spec_assemble_line(line) {
                Err(e) => Err((lineno, e)),
                Ok(w) => match spec_assemble_from(src, line_end + 1, lineno + 1) {
                    Err(p) => Err(p),
                    Ok(rest) => Ok(seq![w] + rest),
                },
            }
        }
    }
}

#[via_fn]
proof fn spec_assemble_from_decreases(src: Seq<u8>, from: int, lineno: int) {
    if 0 <= from < src.len() {
        lemma_find_byte_bounds(src, 10, from);
    }
}

/// What assembling a whole source text yields: the bytecode, or the
/// 0-based physical line index and error of the first failing line.
pub open spec fn spec_assemble_source(src: Seq<u8>) -> Result<Seq<Instruction>, (int, Error)> {
    spec_assemble_from(src, 0, 0)
}

/// Find the first non-whitespace byte; exactly `skip_ws` from the start.
fn skip_ws_exec(s: &[u8]) -> (r: usize)
    ensures
        r == skip_ws(s@, 0),
        r <= s@.len(),
{
    let mut i: usize = 0;
    while i < s.len() && (s[i] == 32 || (9 <= s[i] && s[i] <= 13))
        invariant
            i <= s@.len(),
            skip_ws(s@, 0) == skip_ws(s@, i as int),
        decreases s@.len() - i,
    {
        i = i + 1;
    }
    i
}

/// Find one past the last non-whitespace byte; exactly `rskip_ws` from
/// the end.
fn rskip_ws_exec(s: &[u8]) -> (r: usize)
    ensures
        r == rskip_ws(s@, s@.len() as int),
        r <= s@.len(),
{
    let mut i: usize = s.len();
    while i > 0 && (s[i - 1] == 32 || (9 <= s[i - 1] && s[i - 1] <= 13))
        invariant
            i <= s@.len(),
            rskip_ws(s@, s@.len() as int) == rskip_ws(s@, i as int),
        decreases i,
    {
        i = i - 1;
    }
    i
}

/// Assemble a whole source text: one instruction per line, lines split on
/// line feeds, each line trimmed first; trimmed-empty lines and lines
/// starting with `#` are skipped. Assembly stops at the first failing
/// line and reports its 0-based physical index together with the error;
/// no partial bytecode is returned then. Exactly `spec_assemble_source`.
pub fn assemble_source(src: &[u8]) -> (r: Result<Bytecode, (usize, Error)>)
    ensures
        ({
            match (r, spec_assemble_source(src@)) {
                (Ok(bytecode), Ok(words)) => bytecode@ == words,
                (Err((line1, e1)), Err((line2, e2))) => line1 == line2 && e1 == e2,
                _ => false,
            }
        }),
{
    let mut bytecode: Bytecode = Vec::new();
    let mut from: usize = 0;
    let mut lineno: usize = 0;
    while from < src.len()
        invariant
            from <= src@.len(),
            lineno <= from,
            ({
                let whole = spec_assemble_source(src@);
                let rest = spec_assemble_from(src@, from as int, lineno as int);
                whole == (match rest {
                    Ok(rs) => Ok::<Seq<Instruction>, (int, Error)>(bytecode@ + rs),
                    Err(p) => Err::<Seq<Instruction>, (int, Error)>(p),
                })
            }),
        decreases src@.len() - from,
    {
        let ghost pre_from = from as int;
        let ghost pre_lineno = lineno as int;
        let line_end: usize = scan_byte(src, 10, from);
        let line: &[u8] = slice_subrange(src, from, line_end);
        let lo: usize = skip_ws_exec(line);
        let hi: usize = rskip_ws_exec(line);
        proof {
            lemma_skip_ws_bounds(line@, 0);
            lemma_rskip_ws_bounds(line@, line@.len() as int);
        }
        if lo >= hi {
            proof {
                assert(trimmed(line@).len() == 0);
            }
        } else {
            proof {
                assert(trimmed(line@) == line@.subrange(lo as int, hi as int));
                assert(trimmed(line@)[0] == line@[lo as int]);
            }
            if line[lo] == 35 {
                // a comment line: skipped, but it still counts as a line
            } else {
                let token_part: &[u8] = slice_subrange(line, lo, hi);
                match assemble_line(token_part) {
                    Ok(w) => {
                        let ghost pre_words = bytecode@;
                        bytecode.push(w);
                        proof {
                            let rest1 = spec_assemble_from(src@, line_end + 1, pre_lineno + 1);
                            if rest1 is Ok {
                                assert(pre_words + (seq![w] + rest1->Ok_0) =~= bytecode@
                                    + rest1->Ok_0);
                            }
                        }
                    },
                    Err(e) => {
                        return Err((lineno, e));
                    },
                }
            }
        }
        from = line_end;
        if from < src.len() {
            from = from + 1;
        }
        lineno = lineno + 1;
        proof {
            if line_end < src@.len() {
                assert(from as int == line_end + 1);
            } else {
                assert(spec_assemble_from(src@, line_end + 1, pre_lineno + 1)
                    == spec_assemble_from(src@, from as int, lineno as int));
            }
        }
    }
    proof {
        assert(spec_assemble_from(src@, from as int, lineno as int)
            == Ok::<Seq<Instruction>, (int, Error)>(Seq::empty()));
        assert(bytecode@ + Seq::<Instruction>::empty() =~= bytecode@);
    }
    Ok(bytecode)
}

/// Law: for every valid opcode, target and value combination, the
/// assembled word is exactly `(opcode << 12) | (target << 8) | value`,
/// and decoding each field out of that word gives the field back.
pub proof fn lemma_word_fields_round_trip(op: Rsize, target: Rsize, value: Rsize)
    requires
        op <= 0xf,
        target <= 0xf,
    ensures
        word_of(op, target, value) == (((op as u16) << 12) | ((target as u16) << 8) | (
        value as u16)),
        crate::vm::opcode_of(word_of(op, target, value)) == op,
        crate::vm::target_of(word_of(op, target, value)) == target,
        crate::vm::value_of(word_of(op, target, value)) == value,
{
    let o = op as u16;
    let t = target as u16;
    let v = value as u16;
    assert(o <= 0xf && t <= 0xf && v <= 0xff ==> o * 0x1000 + t * 0x100 + v == ((o << 12) | (t
        << 8) | v)) by (bit_vector);
    assert(o <= 0xf && t <= 0xf && v <= 0xff ==> (((o * 0x1000 + t * 0x100 + v) as u16) >> 12)
        & 0xf == o) by (bit_vector);
    assert(o <= 0xf && t <= 0xf && v <= 0xff ==> (((o * 0x1000 + t * 0x100 + v) as u16) >> 8)
        & 0xf == t) by (bit_vector);
    assert(o <= 0xf && t <= 0xf && v <= 0xff ==> (((o * 0x1000 + t * 0x100 + v) as u16) & 0xff)
        == v) by (bit_vector);
}

/// Law: assembly is a pure function of the source text alone, so
/// assembling the same file twice yields bit-identical bytecode.
pub proof fn lemma_assemble_idempotent(first: Seq<u8>, second: Seq<u8>)
    requires
        first == second,
    ensures
        spec_assemble_source(first) == spec_assemble_source(second),
{
}

} // verus!
