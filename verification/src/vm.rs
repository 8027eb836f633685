//! The virtual machine: a register file, an operand stack and the loaded
//! bytecode, executed one fetch-decode-execute step at a time.

use vstd::prelude::*;

use crate::Bytecode;
use crate::Instruction;
use crate::Rsize;
use crate::Stack;
use crate::VMError;
use crate::{INT, SET, PSH, POP, ADD, SUB, MUL, DIV, CHK, CNS, LPT, LSH, RSH, AND, BOR, XOR};
use crate::{RN, RD, RF, RC, RS};
use crate::{HALT, PRINTLINE, READLINE};
use crate::{EQ, LE, GR};

verus! {

/// The whole machine state: thirteen 8-bit registers, the operand stack,
/// and the immutable instruction sequence.
pub struct Context {
    pub registers: Vec<Rsize>,
    pub stack: Stack,
    pub bytecode: Bytecode,
}

/// The mathematical model of a `Context`.
pub ghost struct CtxView {
    pub regs: Seq<u8>,
    pub stack: Seq<u8>,
    pub code: Seq<u16>,
}

impl CtxView {
    /// The register file always holds exactly thirteen cells.
    pub open spec fn wf(self) -> bool {
        self.regs.len() == 13
    }
}

impl View for Context {
    type V = CtxView;

    open spec fn view(&self) -> CtxView {
        CtxView { regs: self.registers@, stack: self.stack@, code: self.bytecode@ }
    }
}

/// The state of a machine that has just been created: every register
/// zero, the stack empty, the given bytecode loaded.
pub open spec fn init_ctx(code: Seq<u16>) -> CtxView {
    CtxView { regs: Seq::new(13, |i: int| 0u8), stack: Seq::empty(), code }
}

impl Context {
    /// A fresh machine: every register zero, the stack empty, the given
    /// bytecode loaded.
    pub fn new(bytecode: Bytecode) -> (c: Context)
        ensures
            c@.wf(),
            c@ == init_ctx(bytecode@),
    {
        let context = Context { registers: vec![0u8; 13], stack: Vec::new(), bytecode };
        proof {
            assert(context@.regs =~= init_ctx(context@.code).regs);
            assert(context@.stack =~= init_ctx(context@.code).stack);
        }
        context
    }
}

/// Bits 15-12 of an instruction word: the opcode.
pub open spec fn opcode_of(w: Instruction) -> Rsize {
    ((w >> 12) & 0xf) as Rsize
}

/// Bits 11-8 of an instruction word: the target register id.
pub open spec fn target_of(w: Instruction) -> Rsize {
    ((w >> 8) & 0xf) as Rsize
}

/// Bits 7-0 of an instruction word: an immediate literal or a register id,
/// depending on the opcode.
pub open spec fn value_of(w: Instruction) -> Rsize {
    (w & 0xff) as Rsize
}

/// What one step asks of the world outside the machine; the machine's own
/// state never depends on how the request is served.
pub enum Effect {
    /// The instruction completed with no outside involvement.
    Tick,
    /// The print interrupt: emit these stack bytes as text, one Unicode
    /// code point per byte.
    Print(Vec<u8>),
    /// The read interrupt: obtain one line of input and hand it to
    /// `Context::read_input`.
    Read,
}

/// The mathematical model of an `Effect`.
pub ghost enum EffectView {
    Tick,
    Print(Seq<u8>),
    Read,
}

impl View for Effect {
    type V = EffectView;

    open spec fn view(&self) -> EffectView {
        match self {
            Effect::Tick => EffectView::Tick,
            Effect::Print(bytes) => EffectView::Print(bytes@),
            Effect::Read => EffectView::Read,
        }
    }
}

/// What `fetch` does: read the instruction pointer, look the instruction
/// up, and advance the pointer. Past the end of the bytecode the fetch
/// itself fails; a pointer increment past 255 fails unless the fetched
/// instruction targets RN and is thus expected to overwrite the pointer.
pub open spec fn spec_fetch(c: CtxView) -> (CtxView, Result<Instruction, VMError>)
    recommends
        c.wf(),
{
    let pointer = c.regs[RN as int];
    if pointer >= c.code.len() {
        (c, Err(VMError::VMContextFetchInvalidError))
    } else {
        let w = c.code[pointer as int];
        if pointer < 255 {
            (
                CtxView { regs: c.regs.update(RN as int, (pointer + 1) as u8), ..c },
                Ok(w),
            )
        } else if target_of(w) == RN {
            (c, Ok(w))
        } else {
            (c, Err(VMError::VMContextFetchNextError))
        }
    }
}

/// What the push opcode does to the registers and the stack, one register
/// at a time from `lo` up to `hi`: push the register's current value, then
/// raise the stack depth counter, which is itself register RD and fails
/// past 255. The `bool` is false when the counter overflowed.
pub open spec fn psh_rec(regs: Seq<u8>, stack: Seq<u8>, lo: int, hi: int) -> (Seq<u8>, Seq<u8>, bool)
    recommends
        regs.len() == 13,
        0 <= lo,
        hi <= 12,
    decreases hi + 1 - lo,
{
    if lo > hi {
        (regs, stack, true)
    } else {
        let stack1 = stack.push(regs[lo]);
        if regs[RD as int] < 255 {
            psh_rec(regs.update(RD as int, (regs[RD as int] + 1) as u8), stack1, lo + 1, hi)
        } else {
            (regs, stack1, false)
        }
    }
}

/// What the pop opcode does, one register at a time from `hi` down to
/// `lo`: move the stack's tail value into the register, then lower the
/// stack depth counter. An empty stack or a counter already at zero is a
/// stack underflow; the `bool` is false then.
pub open spec fn pop_rec(regs: Seq<u8>, stack: Seq<u8>, lo: int, hi: int) -> (Seq<u8>, Seq<u8>, bool)
    recommends
        regs.len() == 13,
        0 <= lo,
        hi <= 12,
    decreases hi + 1 - lo,
{
    if hi < lo {
        (regs, stack, true)
    } else if stack.len() == 0 {
        (regs, stack, false)
    } else {
        let regs1 = regs.update(hi, stack.last());
        let stack1 = stack.drop_last();
        if regs1[RD as int] > 0 {
            pop_rec(regs1.update(RD as int, (regs1[RD as int] - 1) as u8), stack1, lo, hi - 1)
        } else {
            (regs1, stack1, false)
        }
    }
}

/// What the read interrupt does with an input line: push its bytes one by
/// one, at most as many as register R0 asked for, raising the stack depth
/// counter per push; then record in R0 how many were pushed. The `bool` is
/// false when the counter overflowed; R0 is left alone then.
pub open spec fn read_rec(regs: Seq<u8>, stack: Seq<u8>, line: Seq<u8>, i: int, limit: int) -> (Seq<u8>, Seq<u8>, bool)
    recommends
        regs.len() == 13,
        0 <= i <= line.len(),
        0 <= limit <= 255,
    decreases line.len() - i,
{
    if i >= line.len() || i >= limit {
        (regs.update(0, i as u8), stack, true)
    } else {
        let stack1 = stack.push(line[i]);
        if regs[RD as int] < 255 {
            read_rec(regs.update(RD as int, (regs[RD as int] + 1) as u8), stack1, line, i + 1, limit)
        } else {
            (regs, stack1, false)
        }
    }
}

/// What the print interrupt emits: the stack's bytes from the index in R0
/// to the top, or nothing when R0 points past the top.
pub open spec fn printline_bytes(c: CtxView) -> Seq<u8> {
    if c.regs[0] <= c.stack.len() {
        c.stack.subrange(c.regs[0] as int, c.stack.len() as int)
    } else {
        Seq::empty()
    }
}

/// An 8-bit left shift that cannot fail: shifting by eight or more clears
/// every bit.
pub open spec fn shl8(x: u8, k: u8) -> u8 {
    if k >= 8 {
        0u8
    } else {
        x << k
    }
}

/// An 8-bit right shift that cannot fail: shifting by eight or more clears
/// every bit.
pub open spec fn shr8(x: u8, k: u8) -> u8 {
    if k >= 8 {
        0u8
    } else {
        x >> k
    }
}

/// Project the opcode out of an instruction word. Four bits exhaust the
/// opcode table, so this never fails.
pub fn decode_opcode(instruction: &Instruction) -> (r: Result<Rsize, VMError>)
    ensures
        r == Ok::<Rsize, VMError>(opcode_of(*instruction)),
{
    let w: u16 = *instruction;
    proof {
        assert((w & 0xf000) >> 12 == (w >> 12) & 0xf && (w >> 12) & 0xf <= 0xf) by (bit_vector);
    }
    let result: Rsize = ((w & 0xf000) >> 12) as Rsize;
    if result <= 0xf {
        Ok(result)
    } else {
        Err(VMError::VMInvalidOpcodeError)
    }
}

/// Project the target register id out of an instruction word; a field past
/// the last register id (RS) does not denote a register.
pub fn decode_target(instruction: &Instruction) -> (r: Result<Rsize, VMError>)
    ensures
        r == (if target_of(*instruction) <= RS {
            Ok::<Rsize, VMError>(target_of(*instruction))
        } else {
            Err::<Rsize, VMError>(VMError::VMInvalidTargetError)
        }),
{
    let w: u16 = *instruction;
    proof {
        assert((w & 0x0f00) >> 8 == (w >> 8) & 0xf && (w >> 8) & 0xf <= 0xf) by (bit_vector);
    }
    let result: Rsize = ((w & 0x0f00) >> 8) as Rsize;
    if result <= RS {
        Ok(result)
    } else {
        Err(VMError::VMInvalidTargetError)
    }
}

/// Project the value field out of an instruction word as a register id; the
/// raw 8-bit field does not always denote one.
pub fn decode_value_as_register(instruction: &Instruction) -> (r: Result<Rsize, VMError>)
    ensures
        r == (if value_of(*instruction) <= RS {
            Ok::<Rsize, VMError>(value_of(*instruction))
        } else {
            Err::<Rsize, VMError>(VMError::VMInvalidTargetError)
        }),
{
    let w: u16 = *instruction;
    proof {
        assert(w & 0x00ff <= 0xff) by (bit_vector);
    }
    let result: Rsize = (w & 0x00ff) as Rsize;
    if result <= RS {
        Ok(result)
    } else {
        Err(VMError::VMInvalidTargetError)
    }
}

/// Project the value field out of an instruction word as an immediate
/// literal; always valid.
pub fn decode_value(instruction: &Instruction) -> (r: Rsize)
    ensures
        r == value_of(*instruction),
{
    let w: u16 = *instruction;
    proof {
        assert(w & 0x00ff <= 0xff) by (bit_vector);
    }
    (w & 0x00ff) as Rsize
}

/// What executing one already-fetched instruction does to the machine:
/// the next state, and either the effect asked of the outside world or
/// the fault that ends the run.
pub open spec fn spec_execute(c: CtxView, w: Instruction) -> (CtxView, Result<EffectView, VMError>)
    recommends
        c.wf(),
{
    let op = opcode_of(w);
    let t = target_of(w);
    let v = value_of(w);
    if op == INT {
        let selector = c.regs[RS as int];
        if selector == HALT {
            (c, Err(VMError::VMHaltError))
        } else if selector == PRINTLINE {
            (c, Ok(EffectView::Print(printline_bytes(c))))
        } else if selector == READLINE {
            (c, Ok(EffectView::Read))
        } else {
            (c, Err(VMError::VMUnimplementedError))
        }
    } else if t > RS {
        (c, Err(VMError::VMInvalidTargetError))
    } else if op == SET {
        (CtxView { regs: c.regs.update(t as int, v), ..c }, Ok(EffectView::Tick))
    } else if v > RS {
        (c, Err(VMError::VMInvalidValueError))
    } else if op == PSH {
        let lo = if t <= v { t } else { v };
        let hi = if t <= v { v } else { t };
        let (regs1, stack1, ok) = psh_rec(c.regs, c.stack, lo as int, hi as int);
        if ok {
            (CtxView { regs: regs1, stack: stack1, ..c }, Ok(EffectView::Tick))
        } else {
            (CtxView { regs: regs1, stack: stack1, ..c }, Err(VMError::VMStackOverflowError))
        }
    } else if op == POP {
        let lo = if t <= v { t } else { v };
        let hi = if t <= v { v } else { t };
        let (regs1, stack1, ok) = pop_rec(c.regs, c.stack, lo as int, hi as int);
        if ok {
            (CtxView { regs: regs1, stack: stack1, ..c }, Ok(EffectView::Tick))
        } else {
            (CtxView { regs: regs1, stack: stack1, ..c }, Err(VMError::VMStackUnderflowError))
        }
    } else if op == ADD {
        if c.regs[t as int] + c.regs[v as int] <= 255 {
            (
                CtxView { regs: c.regs.update(t as int, (c.regs[t as int] + c.regs[v as int]) as u8), ..c },
                Ok(EffectView::Tick),
            )
        } else {
            (c, Err(VMError::VMRegisterOverflowError))
        }
    } else if op == SUB {
        if c.regs[t as int] >= c.regs[v as int] {
            (
                CtxView { regs: c.regs.update(t as int, (c.regs[t as int] - c.regs[v as int]) as u8), ..c },
                Ok(EffectView::Tick),
            )
        } else {
            (c, Err(VMError::VMRegisterOverflowError))
        }
    } else if op == MUL {
        if c.regs[t as int] * c.regs[v as int] <= 255 {
            (
                CtxView { regs: c.regs.update(t as int, (c.regs[t as int] * c.regs[v as int]) as u8), ..c },
                Ok(EffectView::Tick),
            )
        } else {
            (c, Err(VMError::VMRegisterOverflowError))
        }
    } else if op == DIV {
        if c.regs[v as int] != 0 {
            (
                CtxView { regs: c.regs.update(t as int, (c.regs[t as int] / c.regs[v as int]) as u8), ..c },
                Ok(EffectView::Tick),
            )
        } else {
            (c, Err(VMError::VMRegisterOverflowError))
        }
    } else if op == CHK {
        let flag = if c.regs[t as int] == c.regs[v as int] {
            EQ
        } else if c.regs[t as int] < c.regs[v as int] {
            LE
        } else {
            GR
        };
        (CtxView { regs: c.regs.update(RF as int, flag), ..c }, Ok(EffectView::Tick))
    } else if op == CNS {
        if c.regs[RF as int] == c.regs[RC as int] {
            (CtxView { regs: c.regs.update(t as int, c.regs[v as int]), ..c }, Ok(EffectView::Tick))
        } else {
            (c, Ok(EffectView::Tick))
        }
    } else if op == LPT {
        if c.regs[v as int] < c.stack.len() {
            (
                CtxView { regs: c.regs.update(t as int, c.stack[c.regs[v as int] as int]), ..c },
                Ok(EffectView::Tick),
            )
        } else {
            (c, Err(VMError::VMStackInvalidAccessError))
        }
    } else if op == LSH {
        (CtxView { regs: c.regs.update(t as int, shl8(c.regs[t as int], c.regs[v as int])), ..c }, Ok(EffectView::Tick))
    } else if op == RSH {
        (CtxView { regs: c.regs.update(t as int, shr8(c.regs[t as int], c.regs[v as int])), ..c }, Ok(EffectView::Tick))
    } else if op == AND {
        (CtxView { regs: c.regs.update(t as int, c.regs[t as int] & c.regs[v as int]), ..c }, Ok(EffectView::Tick))
    } else if op == BOR {
        (CtxView { regs: c.regs.update(t as int, c.regs[t as int] | c.regs[v as int]), ..c }, Ok(EffectView::Tick))
    } else if op == XOR {
        (CtxView { regs: c.regs.update(t as int, c.regs[t as int] ^ c.regs[v as int]), ..c }, Ok(EffectView::Tick))
    } else {
        (c, Err(VMError::VMInvalidOpcodeError))
    }
}

/// What one whole step does: fetch, then execute the fetched word. The
/// successful result carries the word itself, for tracing.
pub open spec fn spec_step(c: CtxView) -> (CtxView, Result<(Instruction, EffectView), VMError>)
    recommends
        c.wf(),
{
    let (c1, fetched) = spec_fetch(c);
    match fetched {
        Err(e) => (c1, Err(e)),
        Ok(w) => {
            let (c2, executed) = spec_execute(c1, w);
            match executed {
                Err(e) => (c2, Err(e)),
                Ok(eff) => (c2, Ok((w, eff))),
            }
        },
    }
}

/// Whether an executable step result agrees with the modelled one.
pub open spec fn step_result_matches(
    r: Result<(Instruction, Effect), VMError>,
    s: Result<(Instruction, EffectView), VMError>,
) -> bool {
    match (r, s) {
        (Ok((w1, e1)), Ok((w2, e2))) => w1 == w2 && e1@ == e2,
        (Err(e1), Err(e2)) => e1 == e2,
        _ => false,
    }
}

impl Context {
    /// Read the instruction pointer afresh, look up the instruction, and
    /// advance the pointer; exactly `spec_fetch`.
    pub fn fetch(&mut self) -> (r: Result<Instruction, VMError>)
        requires
            old(self)@.wf(),
        ensures
            final(self)@.wf(),
            final(self)@ == spec_fetch(old(self)@).0,
            r == spec_fetch(old(self)@).1,
    {
        let pointer_next: Rsize = self.registers[RN as usize];
        if (pointer_next as usize) < self.bytecode.len() {
            let instruction: Instruction = self.bytecode[pointer_next as usize];
            match pointer_next.checked_add(1) {
                Some(next) => {
                    self.registers[RN as usize] = next;
                    Ok(instruction)
                },
                None => {
                    match decode_target(&instruction) {
                        Ok(register) => {
                            if register == RN {
                                Ok(instruction)
                            } else {
                                Err(VMError::VMContextFetchNextError)
                            }
                        },
                        Err(_) => Err(VMError::VMContextFetchNextError),
                    }
                },
            }
        } else {
            Err(VMError::VMContextFetchInvalidError)
        }
    }

    /// Gather the bytes the print interrupt emits: the stack from the
    /// index in R0 to the top.
    fn printline_collect(&self) -> (bytes: Vec<u8>)
        requires
            self@.wf(),
        ensures
            bytes@ == printline_bytes(self@),
    {
        let mut bytes: Vec<u8> = Vec::new();
        let mut index: usize = self.registers[0] as usize;
        if index > self.stack.len() {
            return bytes;
        }
        while index < self.stack.len()
            invariant
                self@.regs[0] <= index <= self@.stack.len(),
                bytes@ == self@.stack.subrange(self@.regs[0] as int, index as int),
            decreases self@.stack.len() - index,
        {
            bytes.push(self.stack[index]);
            index = index + 1;
        }
        bytes
    }

    /// The push opcode's loop: push registers `lo` up to `hi`, raising the
    /// stack depth counter per push; exactly `psh_rec`.
    fn exec_psh(&mut self, lo: Rsize, hi: Rsize) -> (r: Result<(), VMError>)
        requires
            old(self)@.wf(),
            lo <= hi,
            hi <= 12,
        ensures
            final(self)@.wf(),
            ({
                let (regs1, stack1, ok) = psh_rec(old(self)@.regs, old(self)@.stack, lo as int, hi as int);
                &&& final(self)@ == (CtxView { regs: regs1, stack: stack1, ..old(self)@ })
                &&& r == (if ok {
                    Ok::<(), VMError>(())
                } else {
                    Err::<(), VMError>(VMError::VMStackOverflowError)
                })
            }),
    {
        let mut register: Rsize = lo;
        while register <= hi
            invariant
                self@.wf(),
                self@.code == old(self)@.code,
                lo <= register <= hi + 1,
                hi <= 12,
                psh_rec(old(self)@.regs, old(self)@.stack, lo as int, hi as int)
                    == psh_rec(self@.regs, self@.stack, register as int, hi as int),
            decreases hi + 1 - register,
        {
            let pushed: Rsize = self.registers[register as usize];
            self.stack.push(pushed);
            match self.registers[RD as usize].checked_add(1) {
                Some(new_rd) => {
                    self.registers[RD as usize] = new_rd;
                },
                None => {
                    return Err(VMError::VMStackOverflowError);
                },
            }
            register = register + 1;
        }
        Ok(())
    }

    /// The pop opcode's loop: pop into registers `hi` down to `lo`,
    /// lowering the stack depth counter per pop; exactly `pop_rec`.
    fn exec_pop(&mut self, lo: Rsize, hi: Rsize) -> (r: Result<(), VMError>)
        requires
            old(self)@.wf(),
            lo <= hi,
            hi <= 12,
        ensures
            final(self)@.wf(),
            ({
                let (regs1, stack1, ok) = pop_rec(old(self)@.regs, old(self)@.stack, lo as int, hi as int);
                &&& final(self)@ == (CtxView { regs: regs1, stack: stack1, ..old(self)@ })
                &&& r == (if ok {
                    Ok::<(), VMError>(())
                } else {
                    Err::<(), VMError>(VMError::VMStackUnderflowError)
                })
            }),
    {
        let mut above: Rsize = hi + 1;
        while above > lo
            invariant
                self@.wf(),
                self@.code == old(self)@.code,
                lo <= above <= hi + 1,
                hi <= 12,
                pop_rec(old(self)@.regs, old(self)@.stack, lo as int, hi as int)
                    == pop_rec(self@.regs, self@.stack, lo as int, above - 1),
            decreases above,
        {
            let register: Rsize = above - 1;
            match self.stack.pop() {
                Some(value) => {
                    self.registers[register as usize] = value;
                },
                None => {
                    return Err(VMError::VMStackUnderflowError);
                },
            }
            match self.registers[RD as usize].checked_sub(1) {
                Some(new_rd) => {
                    self.registers[RD as usize] = new_rd;
                },
                None => {
                    return Err(VMError::VMStackUnderflowError);
                },
            }
            above = register;
        }
        Ok(())
    }

    /// Serve the read interrupt with one line of input: push at most as
    /// many of its bytes as R0 asks for, then record in R0 how many were
    /// pushed; exactly `read_rec`. A caller hands the line in whenever a
    /// step returns `Effect::Read`.
    pub fn read_input(&mut self, line: &[u8]) -> (r: Result<(), VMError>)
        requires
            old(self)@.wf(),
        ensures
            final(self)@.wf(),
            ({
                let (regs1, stack1, ok) = read_rec(
                    old(self)@.regs,
                    old(self)@.stack,
                    line@,
                    0,
                    old(self)@.regs[0] as int,
                );
                &&& final(self)@ == (CtxView { regs: regs1, stack: stack1, ..old(self)@ })
                &&& r == (if ok {
                    Ok::<(), VMError>(())
                } else {
                    Err::<(), VMError>(VMError::VMStackOverflowError)
                })
            }),
    {
        let limit: usize = self.registers[0] as usize;
        let mut count: usize = 0;
        while count < line.len() && count < limit
            invariant
                self@.wf(),
                self@.code == old(self)@.code,
                limit == old(self)@.regs[0],
                0 <= count <= line@.len(),
                count <= limit,
                read_rec(old(self)@.regs, old(self)@.stack, line@, 0, limit as int)
                    == read_rec(self@.regs, self@.stack, line@, count as int, limit as int),
            decreases line@.len() - count,
        {
            let pushed: u8 = line[count];
            self.stack.push(pushed);
            match self.registers[RD as usize].checked_add(1) {
                Some(new_rd) => {
                    self.registers[RD as usize] = new_rd;
                },
                None => {
                    return Err(VMError::VMStackOverflowError);
                },
            }
            count = count + 1;
        }
        self.registers[0] = count as Rsize;
        Ok(())
    }

    /// One fetch-decode-execute step; exactly `spec_step`. A successful
    /// step returns the fetched word, for tracing, and the effect the
    /// outside world is asked to perform; a fault ends the run and leaves
    /// the state as of the fault for inspection.
    pub fn step(&mut self) -> (r: Result<(Instruction, Effect), VMError>)
        requires
            old(self)@.wf(),
        ensures
            final(self)@.wf(),
            final(self)@ == spec_step(old(self)@).0,
            step_result_matches(r, spec_step(old(self)@).1),
    {
        let instruction: Instruction = match self.fetch() {
            Ok(instruction) => instruction,
            Err(error) => {
                return Err(error);
            },
        };
        let op: Rsize = match decode_opcode(&instruction) {
            Ok(op) => op,
            Err(error) => {
                return Err(error);
            },
        };
        if op == INT {
            let selector: Rsize = self.registers[RS as usize];
            if selector == HALT {
                return Err(VMError::VMHaltError);
            }
            if selector == PRINTLINE {
                let bytes = self.printline_collect();
                return Ok((instruction, Effect::Print(bytes)));
            }
            if selector == READLINE {
                return Ok((instruction, Effect::Read));
            }
            return Err(VMError::VMUnimplementedError);
        }
        let target: Rsize = match decode_target(&instruction) {
            Ok(target) => target,
            Err(_) => {
                return Err(VMError::VMInvalidTargetError);
            },
        };
        if op == SET {
            let value: Rsize = decode_value(&instruction);
            self.registers[target as usize] = value;
            return Ok((instruction, Effect::Tick));
        }
        let value: Rsize = match decode_value_as_register(&instruction) {
            Ok(value) => value,
            Err(_) => {
                return Err(VMError::VMInvalidValueError);
            },
        };
        let lo: Rsize = if target <= value { target } else { value };
        let hi: Rsize = if target <= value { value } else { target };
        if op == PSH {
            return match self.exec_psh(lo, hi) {
                Ok(()) => Ok((instruction, Effect::Tick)),
                Err(error) => Err(error),
            };
        }
        if op == POP {
            return match self.exec_pop(lo, hi) {
                Ok(()) => Ok((instruction, Effect::Tick)),
                Err(error) => Err(error),
            };
        }
        if op == ADD {
            return match self.registers[target as usize].checked_add(self.registers[value as usize]) {
                Some(new_value) => {
                    self.registers[target as usize] = new_value;
                    Ok((instruction, Effect::Tick))
                },
                None => Err(VMError::VMRegisterOverflowError),
            };
        }
        if op == SUB {
            return match self.registers[target as usize].checked_sub(self.registers[value as usize]) {
                Some(new_value) => {
                    self.registers[target as usize] = new_value;
                    Ok((instruction, Effect::Tick))
                },
                None => Err(VMError::VMRegisterOverflowError),
            };
        }
        if op == MUL {
            return match self.registers[target as usize].checked_mul(self.registers[value as usize]) {
                Some(new_value) => {
                    self.registers[target as usize] = new_value;
                    Ok((instruction, Effect::Tick))
                },
                None => Err(VMError::VMRegisterOverflowError),
            };
        }
        if op == DIV {
            return match self.registers[target as usize].checked_div(self.registers[value as usize]) {
                Some(new_value) => {
                    self.registers[target as usize] = new_value;
                    Ok((instruction, Effect::Tick))
                },
                None => Err(VMError::VMRegisterOverflowError),
            };
        }
        if op == CHK {
            let left: Rsize = self.registers[target as usize];
            let right: Rsize = self.registers[value as usize];
            let flag: Rsize = if left == right {
                EQ
            } else if left < right {
                LE
            } else {
                GR
            };
            self.registers[RF as usize] = flag;
            return Ok((instruction, Effect::Tick));
        }
        if op == CNS {
            if self.registers[RF as usize] == self.registers[RC as usize] {
                let moved: Rsize = self.registers[value as usize];
                self.registers[target as usize] = moved;
            }
            return Ok((instruction, Effect::Tick));
        }
        if op == LPT {
            let index: usize = self.registers[value as usize] as usize;
            if index < self.stack.len() {
                let resolved: Rsize = self.stack[index];
                self.registers[target as usize] = resolved;
                return Ok((instruction, Effect::Tick));
            }
            return Err(VMError::VMStackInvalidAccessError);
        }
        if op == LSH {
            let amount: Rsize = self.registers[value as usize];
            let shifted: Rsize = if amount >= 8 {
                0
            } else {
                self.registers[target as usize] << amount
            };
            self.registers[target as usize] = shifted;
            return Ok((instruction, Effect::Tick));
        }
        if op == RSH {
            let amount: Rsize = self.registers[value as usize];
            let shifted: Rsize = if amount >= 8 {
                0
            } else {
                self.registers[target as usize] >> amount
            };
            self.registers[target as usize] = shifted;
            return Ok((instruction, Effect::Tick));
        }
        if op == AND {
            let operand: Rsize = self.registers[value as usize];
            self.registers[target as usize] = self.registers[target as usize] & operand;
            return Ok((instruction, Effect::Tick));
        }
        if op == BOR {
            let operand: Rsize = self.registers[value as usize];
            self.registers[target as usize] = self.registers[target as usize] | operand;
            return Ok((instruction, Effect::Tick));
        }
        if op == XOR {
            let operand: Rsize = self.registers[value as usize];
            self.registers[target as usize] = self.registers[target as usize] ^ operand;
            return Ok((instruction, Effect::Tick));
        }
        Err(VMError::VMInvalidOpcodeError)
    }
}

/// Law: a push that completes keeps the stack depth counter equal to the
/// stack's live length, provided they were equal before it; and since the
/// counter is an 8-bit register, the stack never exceeds 255 cells after
/// a successful push.
pub proof fn lemma_psh_preserves_depth(regs: Seq<u8>, stack: Seq<u8>, lo: int, hi: int)
    requires
        regs.len() == 13,
        0 <= lo,
        hi <= 12,
        regs[RD as int] == stack.len(),
    ensures
        ({
            let (regs1, stack1, ok) = psh_rec(regs, stack, lo, hi);
            ok ==> regs1[RD as int] == stack1.len() && stack1.len() <= 255
        }),
    decreases hi + 1 - lo,
{
    if lo <= hi && regs[RD as int] < 255 {
        lemma_psh_preserves_depth(
            regs.update(RD as int, (regs[RD as int] + 1) as u8),
            stack.push(regs[lo]),
            lo + 1,
            hi,
        );
    }
}

/// Law: a push overflows the stack depth counter, and so faults, exactly
/// when it pushes more cells than the counter has room left for; pushing
/// past a full counter always faults.
pub proof fn lemma_psh_overflow(regs: Seq<u8>, stack: Seq<u8>, lo: int, hi: int)
    requires
        regs.len() == 13,
        0 <= lo <= hi + 1,
        hi <= 12,
    ensures
        psh_rec(regs, stack, lo, hi).2 <==> hi + 1 - lo <= 255 - regs[RD as int],
    decreases hi + 1 - lo,
{
    if lo <= hi && regs[RD as int] < 255 {
        lemma_psh_overflow(
            regs.update(RD as int, (regs[RD as int] + 1) as u8),
            stack.push(regs[lo]),
            lo + 1,
            hi,
        );
    }
}

/// Law: a pop whose register range leaves the depth counter itself alone
/// keeps the counter equal to the stack's live length, provided they were
/// equal before it; and with the counter consistent, the pop completes
/// exactly when the stack holds enough cells for the whole range.
pub proof fn lemma_pop_preserves_depth(regs: Seq<u8>, stack: Seq<u8>, lo: int, hi: int)
    requires
        regs.len() == 13,
        0 <= lo <= hi + 1,
        hi <= 12,
        !(lo <= RD as int <= hi),
        regs[RD as int] == stack.len(),
    ensures
        ({
            let (regs1, stack1, ok) = pop_rec(regs, stack, lo, hi);
            &&& (ok ==> regs1[RD as int] == stack1.len())
            &&& (ok <==> hi + 1 - lo <= stack.len())
        }),
    decreases hi + 1 - lo,
{
    if lo <= hi && stack.len() > 0 {
        let regs1 = regs.update(hi, stack.last());
        if regs1[RD as int] > 0 {
            lemma_pop_preserves_depth(
                regs1.update(RD as int, (regs1[RD as int] - 1) as u8),
                stack.drop_last(),
                lo,
                hi - 1,
            );
        }
    }
}

/// Law: serving the read interrupt keeps the depth counter equal to the
/// stack's live length, provided they were equal before it.
pub proof fn lemma_read_preserves_depth(regs: Seq<u8>, stack: Seq<u8>, line: Seq<u8>, i: int, limit: int)
    requires
        regs.len() == 13,
        0 <= i <= line.len(),
        i <= limit <= 255,
        regs[RD as int] == stack.len(),
    ensures
        ({
            let (regs1, stack1, ok) = read_rec(regs, stack, line, i, limit);
            ok ==> regs1[RD as int] == stack1.len() && stack1.len() <= 255
        }),
    decreases line.len() - i,
{
    if i < line.len() && i < limit && regs[RD as int] < 255 {
        lemma_read_preserves_depth(
            regs.update(RD as int, (regs[RD as int] + 1) as u8),
            stack.push(line[i]),
            line,
            i + 1,
            limit,
        );
    }
}

/// Law: a step that faults with a register overflow leaves every register
/// but the instruction pointer, as well as the stack and the bytecode,
/// exactly as they were before the faulting instruction.
pub proof fn lemma_arith_fault_preserves_state(c: CtxView)
    requires
        c.wf(),
        spec_step(c).1 == Err::<(Instruction, EffectView), VMError>(
            VMError::VMRegisterOverflowError,
        ),
    ensures
        spec_step(c).0.stack == c.stack,
        spec_step(c).0.code == c.code,
        forall|i: int| 0 <= i < 13 && i != RN ==> spec_step(c).0.regs[i] == c.regs[i],
{
}

/// What a whole run leaves behind: the machine state as of the terminal
/// step, the terminal condition (`VMHaltError` for clean termination,
/// `VMRunError` when the step budget ran out first, any other fault for a
/// crash), and everything the print interrupt emitted, in order.
pub struct RunOutcome {
    pub context: Context,
    pub fault: VMError,
    pub prints: Vec<Vec<u8>>,
}

/// The mathematical model of a `RunOutcome`.
pub ghost struct RunView {
    pub ctx: CtxView,
    pub fault: VMError,
    pub prints: Seq<Seq<u8>>,
}

/// The run loop as a function: step until a fault or until the fuel runs
/// out, feeding the read interrupt from `inputs` in order and collecting
/// what the print interrupt emits. A read past the last input fails like
/// a failed read would.
pub open spec fn spec_run(c: CtxView, inputs: Seq<Seq<u8>>, next_input: int, fuel: nat) -> RunView
    recommends
        c.wf(),
    decreases fuel,
{
    if fuel == 0 {
        RunView { ctx: c, fault: VMError::VMRunError, prints: Seq::empty() }
    } else {
        let (c1, stepped) = spec_step(c);
        match stepped {
            Err(e) => RunView { ctx: c1, fault: e, prints: Seq::empty() },
            Ok((w, eff)) => match eff {
                EffectView::Tick => spec_run(c1, inputs, next_input, (fuel - 1) as nat),
                EffectView::Print(bytes) => {
                    let rest = spec_run(c1, inputs, next_input, (fuel - 1) as nat);
                    RunView { prints: seq![bytes] + rest.prints, ..rest }
                },
                EffectView::Read => {
                    if 0 <= next_input < inputs.len() {
                        let (regs1, stack1, ok) = read_rec(
                            c1.regs,
                            c1.stack,
                            inputs[next_input],
                            0,
                            c1.regs[0] as int,
                        );
                        let c2 = CtxView { regs: regs1, stack: stack1, ..c1 };
                        if ok {
                            spec_run(c2, inputs, next_input + 1, (fuel - 1) as nat)
                        } else {
                            RunView { ctx: c2, fault: VMError::VMStackOverflowError, prints: Seq::empty() }
                        }
                    } else {
                        RunView { ctx: c1, fault: VMError::VMInterruptError, prints: Seq::empty() }
                    }
                },
            },
        }
    }
}

/// Whether an executable run outcome agrees with the modelled one.
pub open spec fn run_outcome_matches(outcome: RunOutcome, modelled: RunView) -> bool {
    &&& outcome.context@ == modelled.ctx
    &&& outcome.fault == modelled.fault
    &&& outcome.prints.deep_view() == modelled.prints
}

/// Load the bytecode into a fresh machine and step it until it halts,
/// faults, or has taken `max_steps` steps; exactly `spec_run`. The read
/// interrupt is served from `inputs` in order, and what the print
/// interrupt emits is collected in order. The machine state at the end is
/// returned whole, for inspection, whatever the terminal condition.
pub fn run(bytecode: Bytecode, inputs: &Vec<Vec<u8>>, max_steps: usize) -> (outcome: RunOutcome)
    ensures
        outcome.context@.wf(),
        run_outcome_matches(
            outcome,
            spec_run(init_ctx(bytecode@), inputs.deep_view(), 0, max_steps as nat),
        ),
{
    let ghost code = bytecode@;
    let mut context = Context::new(bytecode);
    let mut prints: Vec<Vec<u8>> = Vec::new();
    let mut next_input: usize = 0;
    let mut steps_left: usize = max_steps;
    proof {
        assert(prints.deep_view() =~= Seq::<Seq<u8>>::empty());
    }
    loop
        invariant
            context@.wf(),
            next_input <= inputs@.len(),
            code == bytecode@,
            ({
                let whole = spec_run(init_ctx(code), inputs.deep_view(), 0, max_steps as nat);
                let rest = spec_run(context@, inputs.deep_view(), next_input as int, steps_left as nat);
                &&& whole.ctx == rest.ctx
                &&& whole.fault == rest.fault
                &&& whole.prints == prints.deep_view() + rest.prints
            }),
        decreases steps_left,
    {
        let ghost dv = inputs.deep_view();
        if steps_left == 0 {
            proof {
                assert(spec_run(context@, dv, next_input as int, steps_left as nat) == RunView {
                    ctx: context@,
                    fault: VMError::VMRunError,
                    prints: Seq::<Seq<u8>>::empty(),
                });
                assert(prints.deep_view() + Seq::<Seq<u8>>::empty() =~= prints.deep_view());
            }
            return RunOutcome { context, fault: VMError::VMRunError, prints };
        }
        let ghost pre = context@;
        let ghost ni0 = next_input as int;
        let ghost sl0 = steps_left as nat;
        let ghost deep_prints = prints.deep_view();
        let stepped = context.step();
        steps_left = steps_left - 1;
        match stepped {
            Ok((_, Effect::Tick)) => {
                proof {
                    assert(spec_run(pre, dv, ni0, sl0) == spec_run(
                        context@,
                        dv,
                        ni0,
                        (sl0 - 1) as nat,
                    ));
                }
            },
            Ok((_, Effect::Print(bytes))) => {
                let ghost printed = bytes@;
                prints.push(bytes);
                proof {
                    let rest0 = spec_run(pre, dv, ni0, sl0);
                    let rest1 = spec_run(context@, dv, ni0, (sl0 - 1) as nat);
                    assert(rest0.ctx == rest1.ctx && rest0.fault == rest1.fault && rest0.prints
                        == seq![printed] + rest1.prints);
                    assert(prints.deep_view() =~~= deep_prints.push(printed));
                    assert(deep_prints + (seq![printed] + rest1.prints) =~= deep_prints.push(
                        printed,
                    ) + rest1.prints);
                }
            },
            Ok((_, Effect::Read)) => {
                if next_input < inputs.len() {
                    let ghost mid = context@;
                    let line: &Vec<u8> = &inputs[next_input];
                    next_input = next_input + 1;
                    proof {
                        assert(dv[ni0] =~= line@);
                    }
                    match context.read_input(line.as_slice()) {
                        Ok(()) => {
                            proof {
                                assert(spec_run(pre, dv, ni0, sl0) == spec_run(
                                    context@,
                                    dv,
                                    ni0 + 1,
                                    (sl0 - 1) as nat,
                                ));
                            }
                        },
                        Err(error) => {
                            proof {
                                assert(spec_run(pre, dv, ni0, sl0) == RunView {
                                    ctx: context@,
                                    fault: VMError::VMStackOverflowError,
                                    prints: Seq::<Seq<u8>>::empty(),
                                });
                                assert(prints.deep_view() + Seq::<Seq<u8>>::empty()
                                    =~= prints.deep_view());
                            }
                            return RunOutcome { context, fault: error, prints };
                        },
                    }
                } else {
                    proof {
                        assert(spec_run(pre, dv, ni0, sl0) == RunView {
                            ctx: context@,
                            fault: VMError::VMInterruptError,
                            prints: Seq::<Seq<u8>>::empty(),
                        });
                        assert(prints.deep_view() + Seq::<Seq<u8>>::empty() =~= prints.deep_view());
                    }
                    return RunOutcome { context, fault: VMError::VMInterruptError, prints };
                }
            },
            Err(error) => {
                proof {
                    assert(spec_run(pre, dv, ni0, sl0) == RunView {
                        ctx: context@,
                        fault: error,
                        prints: Seq::<Seq<u8>>::empty(),
                    });
                    assert(prints.deep_view() + Seq::<Seq<u8>>::empty() =~= prints.deep_view());
                }
                return RunOutcome { context, fault: error, prints };
            },
        }
    }
}

} // verus!
