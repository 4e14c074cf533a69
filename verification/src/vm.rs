//! The stack machine.
//!
//! A program has no jumps, so which instructions execute, how deep the
//! operand stack is at each of them and how the run ends depend on the
//! instruction stream alone, never on the values computed. [`flow`] describes
//! that part.
//!
//! The machine negates by itself, by flipping the sign bit. For the five
//! binary operations it asks the caller, who supplies the arithmetic as a
//! function on bit patterns. [`run_from`] describes the values of a run for
//! arithmetic that is a function in the mathematical sense, [`may_end`] for
//! any arithmetic.

use crate::bytecode::{decode, Bytecode, Opcode};
use vstd::prelude::*;

verus! {

/// The ways in which execution fails.
#[derive(Debug, Clone, Copy, PartialEq, Eq, Structural)]
pub enum VmError {
    /// An instruction needed more operands than the stack held.
    MissingOperand,
    /// A byte in instruction position encodes no opcode.
    InvalidOpcode,
}

/// How a run ends.
pub enum End {
    /// A `Return` instruction found its operand.
    Returned,
    /// The run stopped with an error.
    Failed(VmError),
    /// The run left the instruction stream without returning, or a
    /// `Constant` instruction lacked a valid operand. The machine gives no
    /// outcome for such programs.
    Stuck,
}

/// Where and how a run ends: the instruction pointer and the stack depth at
/// that moment, and the kind of ending.
pub struct Flow {
    pub ip: int,
    pub depth: int,
    pub end: End,
}

/// The state in which a run ends, with its result where it has one.
pub struct Halt {
    pub ip: int,
    pub stack: Seq<u64>,
    pub result: Option<Result<u64, VmError>>,
}

/// IEEE-754 negation on a binary64 bit pattern: the sign bit is flipped and
/// every other bit kept.
pub open spec fn negate(bits: u64) -> u64 {
    bits ^ 0x8000_0000_0000_0000u64
}

/// The course of a run that starts at `ip` with `depth` operands on the stack,
/// for a program with `pool` constants.
pub open spec fn flow(code: Seq<u8>, pool: nat, ip: int, depth: int) -> Flow
    decreases code.len() - ip,
{
    if ip < 0 || ip >= code.len() {
        Flow { ip, depth, end: End::Stuck }
    } else {
        match decode(code[ip]) {
            None => Flow { ip: ip + 1, depth, end: End::Failed(VmError::InvalidOpcode) },
            Some(Opcode::Constant) => {
                if ip + 1 < code.len() && code[ip + 1] < pool {
                    flow(code, pool, ip + 2, depth + 1)
                } else {
                    Flow { ip: ip + 1, depth, end: End::Stuck }
                }
            },
            Some(Opcode::Pop) => {
                if depth < 1 {
                    Flow { ip: ip + 1, depth: 0, end: End::Failed(VmError::MissingOperand) }
                } else {
                    flow(code, pool, ip + 1, depth - 1)
                }
            },
            Some(Opcode::Return) => {
                if depth < 1 {
                    Flow { ip: ip + 1, depth: 0, end: End::Failed(VmError::MissingOperand) }
                } else {
                    Flow { ip: ip + 1, depth: depth - 1, end: End::Returned }
                }
            },
            Some(Opcode::Negate) => {
                if depth < 1 {
                    Flow { ip: ip + 1, depth: 0, end: End::Failed(VmError::MissingOperand) }
                } else {
                    flow(code, pool, ip + 1, depth)
                }
            },
            Some(_) => {
                if depth < 2 {
                    Flow { ip: ip + 1, depth: 0, end: End::Failed(VmError::MissingOperand) }
                } else {
                    flow(code, pool, ip + 1, depth - 1)
                }
            },
        }
    }
}

/// The state in which a run ends that starts at `ip` with the operands
/// `stack`, when `f` is the arithmetic: `f(op, a, b)` is the result of the
/// binary instruction `op` on the left operand `a` and the right operand `b`.
pub open spec fn run_from(
    code: Seq<u8>,
    pool: Seq<u64>,
    ip: int,
    stack: Seq<u64>,
    f: spec_fn(Opcode, u64, u64) -> u64,
) -> Halt
    decreases code.len() - ip,
{
    if ip < 0 || ip >= code.len() {
        Halt { ip, stack, result: None }
    } else {
        let failed = Halt {
            ip: ip + 1,
            stack: Seq::empty(),
            result: Some(Err(VmError::MissingOperand)),
        };
        match decode(code[ip]) {
            None => Halt { ip: ip + 1, stack, result: Some(Err(VmError::InvalidOpcode)) },
            Some(Opcode::Constant) => {
                if ip + 1 < code.len() && code[ip + 1] < pool.len() {
                    run_from(code, pool, ip + 2, stack.push(pool[code[ip + 1] as int]), f)
                } else {
                    Halt { ip: ip + 1, stack, result: None }
                }
            },
            Some(Opcode::Pop) => {
                if stack.len() < 1 {
                    failed
                } else {
                    run_from(code, pool, ip + 1, stack.drop_last(), f)
                }
            },
            Some(Opcode::Return) => {
                if stack.len() < 1 {
                    failed
                } else {
                    Halt { ip: ip + 1, stack: stack.drop_last(), result: Some(Ok(stack.last())) }
                }
            },
            Some(Opcode::Negate) => {
                if stack.len() < 1 {
                    failed
                } else {
                    run_from(code, pool, ip + 1, stack.drop_last().push(negate(stack.last())), f)
                }
            },
            Some(op) => {
                if stack.len() < 2 {
                    failed
                } else {
                    let b = stack.last();
                    let a = stack.drop_last().last();
                    run_from(code, pool, ip + 1, stack.drop_last().drop_last().push(f(op, a, b)), f)
                }
            },
        }
    }
}

/// The function `f` describes everything that `arith` may return for a binary
/// instruction.
pub open spec fn computes<F: Fn(Opcode, u64, u64) -> u64>(
    arith: F,
    f: spec_fn(Opcode, u64, u64) -> u64,
) -> bool {
    forall|op: Opcode, a: u64, b: u64, r: u64|
        op.is_binary() && #[trigger] arith.ensures((op, a, b), r) ==> r == f(op, a, b)
}

/// The state `halt` is one in which a run may end that starts at `ip` with the
/// operands `stack`, when a binary instruction pushes what `arith` returns
/// for it. The run is as [`run_from`] describes it, but that the arithmetic
/// need not be a function: wherever `arith` may return one of several
/// results, the run may go on with any of them.
pub open spec fn may_end<F: Fn(Opcode, u64, u64) -> u64>(
    code: Seq<u8>,
    pool: Seq<u64>,
    ip: int,
    stack: Seq<u64>,
    arith: F,
    halt: Halt,
) -> bool
    decreases code.len() - ip, 1int,
{
    if ip < 0 || ip >= code.len() {
        halt == (Halt { ip, stack, result: None })
    } else {
        let failed = Halt {
            ip: ip + 1,
            stack: Seq::empty(),
            result: Some(Err(VmError::MissingOperand)),
        };
        match decode(code[ip]) {
            None => halt == (Halt {
                ip: ip + 1,
                stack,
                result: Some(Err(VmError::InvalidOpcode)),
            }),
            Some(Opcode::Constant) => {
                if ip + 1 < code.len() && code[ip + 1] < pool.len() {
                    may_end(code, pool, ip + 2, stack.push(pool[code[ip + 1] as int]), arith, halt)
                } else {
                    halt == (Halt { ip: ip + 1, stack, result: None })
                }
            },
            Some(Opcode::Pop) => {
                if stack.len() < 1 {
                    halt == failed
                } else {
                    may_end(code, pool, ip + 1, stack.drop_last(), arith, halt)
                }
            },
            Some(Opcode::Return) => {
                if stack.len() < 1 {
                    halt == failed
                } else {
                    halt == (Halt {
                        ip: ip + 1,
                        stack: stack.drop_last(),
                        result: Some(Ok(stack.last())),
                    })
                }
            },
            Some(Opcode::Negate) => {
                if stack.len() < 1 {
                    halt == failed
                } else {
                    may_end(
                        code,
                        pool,
                        ip + 1,
                        stack.drop_last().push(negate(stack.last())),
                        arith,
                        halt,
                    )
                }
            },
            Some(op) => {
                if stack.len() < 2 {
                    halt == failed
                } else {
                    may_end_behind(code, pool, ip, stack, op, arith, halt)
                }
            },
        }
    }
}

/// The state `halt` is one in which a run may end whose next step is the
/// binary instruction `op` at `ip`: `arith` may return a result for the two
/// operands on top of the stack with which the run may end in `halt`.
pub open spec fn may_end_behind<F: Fn(Opcode, u64, u64) -> u64>(
    code: Seq<u8>,
    pool: Seq<u64>,
    ip: int,
    stack: Seq<u64>,
    op: Opcode,
    arith: F,
    halt: Halt,
) -> bool
    decreases code.len() - ip, 0int,
{
    exists|r: u64| #[trigger]
        arith.ensures((op, stack.drop_last().last(), stack.last()), r) && 0 <= ip < code.len()
            && may_end(code, pool, ip + 1, stack.drop_last().drop_last().push(r), arith, halt)
}

/// Where a function describes the arithmetic, it fixes the run: the only
/// state in which the run may end is the one that [`run_from`] gives.
pub proof fn lemma_function_fixes_run<F: Fn(Opcode, u64, u64) -> u64>(
    code: Seq<u8>,
    pool: Seq<u64>,
    ip: int,
    stack: Seq<u64>,
    arith: F,
    f: spec_fn(Opcode, u64, u64) -> u64,
    halt: Halt,
)
    requires
        may_end(code, pool, ip, stack, arith, halt),
        computes(arith, f),
    ensures
        halt == run_from(code, pool, ip, stack, f),
    decreases code.len() - ip,
{
    if 0 <= ip < code.len() {
        match decode(code[ip]) {
            None => {},
            Some(Opcode::Constant) => {
                if ip + 1 < code.len() && code[ip + 1] < pool.len() {
                    lemma_function_fixes_run(
                        code,
                        pool,
                        ip + 2,
                        stack.push(pool[code[ip + 1] as int]),
                        arith,
                        f,
                        halt,
                    );
                }
            },
            Some(Opcode::Pop) => {
                if stack.len() >= 1 {
                    lemma_function_fixes_run(code, pool, ip + 1, stack.drop_last(), arith, f, halt);
                }
            },
            Some(Opcode::Return) => {},
            Some(Opcode::Negate) => {
                if stack.len() >= 1 {
                    lemma_function_fixes_run(
                        code,
                        pool,
                        ip + 1,
                        stack.drop_last().push(negate(stack.last())),
                        arith,
                        f,
                        halt,
                    );
                }
            },
            Some(op) => {
                if stack.len() >= 2 {
                    assert(may_end_behind(code, pool, ip, stack, op, arith, halt));
                    let r = choose|r: u64| #[trigger]
                        arith.ensures((op, stack.drop_last().last(), stack.last()), r) && 0 <= ip
                            < code.len() && may_end(
                            code,
                            pool,
                            ip + 1,
                            stack.drop_last().drop_last().push(r),
                            arith,
                            halt,
                        );
                    lemma_function_fixes_run(
                        code,
                        pool,
                        ip + 1,
                        stack.drop_last().drop_last().push(r),
                        arith,
                        f,
                        halt,
                    );
                }
            },
        }
    }
}

/// A byte in instruction position that encodes no opcode ends the run with
/// the error `InvalidOpcode`, whatever the stack holds.
pub proof fn lemma_unknown_opcode_fails(
    code: Seq<u8>,
    pool: Seq<u64>,
    ip: int,
    stack: Seq<u64>,
    f: spec_fn(Opcode, u64, u64) -> u64,
)
    requires
        0 <= ip < code.len(),
        code[ip] > 8,
    ensures
        flow(code, pool.len(), ip, stack.len() as int).end == End::Failed(VmError::InvalidOpcode),
        run_from(code, pool, ip, stack, f).result == Some(
            Err::<u64, VmError>(VmError::InvalidOpcode),
        ),
{
}

/// An instruction that finds fewer operands than it takes ends the run with
/// the error `MissingOperand`: `Pop`, `Return` and `Negate` take one, the
/// binary instructions two.
pub proof fn lemma_missing_operand_fails(
    code: Seq<u8>,
    pool: Seq<u64>,
    ip: int,
    stack: Seq<u64>,
    f: spec_fn(Opcode, u64, u64) -> u64,
)
    requires
        0 <= ip < code.len(),
        decode(code[ip]) is Some,
        decode(code[ip]) != Some(Opcode::Constant),
        stack.len() < (if decode(code[ip])->0.is_binary() {
            2nat
        } else {
            1nat
        }),
    ensures
        flow(code, pool.len(), ip, stack.len() as int).end == End::Failed(
            VmError::MissingOperand,
        ),
        run_from(code, pool, ip, stack, f).result == Some(
            Err::<u64, VmError>(VmError::MissingOperand),
        ),
{
}

/// How a run ends does not depend on the arithmetic: [`run_from`] ends where
/// and how [`flow`] says, with as many operands left.
pub proof fn lemma_run_follows_flow(
    code: Seq<u8>,
    pool: Seq<u64>,
    ip: int,
    stack: Seq<u64>,
    f: spec_fn(Opcode, u64, u64) -> u64,
)
    ensures
        run_from(code, pool, ip, stack, f).ip == flow(code, pool.len(), ip, stack.len() as int).ip,
        run_from(code, pool, ip, stack, f).stack.len() == flow(
            code,
            pool.len(),
            ip,
            stack.len() as int,
        ).depth,
        match run_from(code, pool, ip, stack, f).result {
            None => flow(code, pool.len(), ip, stack.len() as int).end is Stuck,
            Some(Ok(_)) => flow(code, pool.len(), ip, stack.len() as int).end is Returned,
            Some(Err(error)) => flow(code, pool.len(), ip, stack.len() as int).end == End::Failed(
                error,
            ),
        },
    decreases code.len() - ip,
{
    if 0 <= ip < code.len() {
        match decode(code[ip]) {
            None => {},
            Some(Opcode::Constant) => {
                if ip + 1 < code.len() && code[ip + 1] < pool.len() {
                    lemma_run_follows_flow(
                        code,
                        pool,
                        ip + 2,
                        stack.push(pool[code[ip + 1] as int]),
                        f,
                    );
                }
            },
            Some(Opcode::Pop) => {
                if stack.len() >= 1 {
                    lemma_run_follows_flow(code, pool, ip + 1, stack.drop_last(), f);
                }
            },
            Some(Opcode::Return) => {},
            Some(Opcode::Negate) => {
                if stack.len() >= 1 {
                    lemma_run_follows_flow(
                        code,
                        pool,
                        ip + 1,
                        stack.drop_last().push(negate(stack.last())),
                        f,
                    );
                }
            },
            Some(op) => {
                if stack.len() >= 2 {
                    let b = stack.last();
                    let a = stack.drop_last().last();
                    lemma_run_follows_flow(
                        code,
                        pool,
                        ip + 1,
                        stack.drop_last().drop_last().push(f(op, a, b)),
                        f,
                    );
                }
            },
        }
    }
}

/// A stack machine with a program loaded.
pub struct Vm {
    pub bytecode: Bytecode,
    pub ip: usize,
    pub stack: Vec<u64>,
}

impl Vm {
    /// The course that a run from the current state takes.
    pub open spec fn flow(&self) -> Flow {
        flow(
            self.bytecode.code@,
            self.bytecode.constants@.len(),
            self.ip as int,
            self.stack@.len() as int,
        )
    }

    /// A run from the current state ends, with a value or with an error.
    pub open spec fn halts(&self) -> bool {
        !(self.flow().end is Stuck)
    }

    /// The state `halt` is one in which a run from the current state may
    /// end, when `arith` is the arithmetic.
    pub open spec fn may_end<F: Fn(Opcode, u64, u64) -> u64>(&self, arith: F, halt: Halt) -> bool {
        may_end(
            self.bytecode.code@,
            self.bytecode.constants@,
            self.ip as int,
            self.stack@,
            arith,
            halt,
        )
    }

    /// A machine at the first instruction of `bytecode`, with an empty stack.
    pub fn new(bytecode: Bytecode) -> (vm: Vm)
        ensures
            vm.bytecode == bytecode,
            vm.ip == 0,
            vm.stack@ == Seq::<u64>::empty(),
    {
        Vm { bytecode, ip: 0, stack: Vec::new() }
    }

    /// Tells whether a run from the current state ends, by following the
    /// instruction stream without computing any value.
    pub fn can_run(&self) -> (ok: bool)
        ensures
            ok == self.halts(),
    {
        let code = self.bytecode.as_ref();
        let pool = self.bytecode.constants.len();
        let mut ip: usize = self.ip;
        let mut depth: u128 = self.stack.len() as u128;
        while ip < code.len()
            invariant
                code@ == self.bytecode.code@,
                pool == self.bytecode.constants@.len(),
                self.stack@.len() <= usize::MAX,
                depth <= self.stack@.len() + ip,
                flow(code@, pool as nat, ip as int, depth as int) == self.flow(),
            decreases code.len() - ip,
        {
            match Opcode::try_from(code[ip]) {
                Err(_) => {
                    return true;
                },
                Ok(Opcode::Constant) => {
                    if ip + 1 < code.len() && (code[ip + 1] as usize) < pool {
                        ip = ip + 2;
                        depth = depth + 1;
                    } else {
                        return false;
                    }
                },
                Ok(Opcode::Pop) => {
                    if depth < 1 {
                        return true;
                    }
                    ip = ip + 1;
                    depth = depth - 1;
                },
                Ok(Opcode::Return) => {
                    return true;
                },
                Ok(Opcode::Negate) => {
                    if depth < 1 {
                        return true;
                    }
                    ip = ip + 1;
                },
                Ok(_) => {
                    if depth < 2 {
                        return true;
                    }
                    ip = ip + 1;
                    depth = depth - 1;
                },
            }
        }
        false
    }

    /// Executes the program from the current state until it returns or
    /// fails. A binary instruction `op` with left operand `a` and right
    /// operand `b` pushes `arith(op, a, b)`; negation flips the sign bit.
    ///
    /// How the run ends is fixed by the program. The values are those that
    /// `arith` returned on the way. Where a function describes `arith`, the
    /// run is the one that [`run_from`] gives for that function:
    /// [`lemma_function_fixes_run`].
    pub fn run<F: Fn(Opcode, u64, u64) -> u64>(&mut self, arith: F) -> (result: Result<
        u64,
        VmError,
    >)
        requires
            old(self).halts(),
            forall|op: Opcode, a: u64, b: u64| op.is_binary() ==> arith.requires((op, a, b)),
        ensures
            final(self).bytecode == old(self).bytecode,
            final(self).ip == old(self).flow().ip,
            final(self).stack@.len() == old(self).flow().depth,
            match result {
                Ok(_) => old(self).flow().end == End::Returned,
                Err(e) => old(self).flow().end == End::Failed(e),
            },
            old(self).may_end(
                arith,
                Halt { ip: final(self).ip as int, stack: final(self).stack@, result: Some(result) },
            ),
    {
        let ghost start = *self;
        loop
            invariant
                start == *old(self),
                self.bytecode == start.bytecode,
                self.halts(),
                self.flow() == start.flow(),
                forall|op: Opcode, a: u64, b: u64| op.is_binary() ==> arith.requires((op, a, b)),
                forall|halt: Halt| #[trigger]
                    self.may_end(arith, halt) ==> start.may_end(arith, halt),
            decreases self.bytecode.code@.len() - self.ip,
        {
            let ghost before = *self;
            let byte = self.read_byte();
            let opcode = match Opcode::try_from(byte) {
                Ok(opcode) => opcode,
                Err(_) => {
                    proof {
                        let halt = Halt {
                            ip: self.ip as int,
                            stack: self.stack@,
                            result: Some(Err(VmError::InvalidOpcode)),
                        };
                        assert(before.may_end(arith, halt));
                    }
                    return Err(VmError::InvalidOpcode);
                },
            };
            match opcode {
                Opcode::Add
                | Opcode::Subtract
                | Opcode::Multiply
                | Opcode::Divide
                | Opcode::Remainder => {
                    let b = match self.pop() {
                        Ok(b) => b,
                        Err(error) => {
                            proof {
                                before.ends_in(arith, *self, Err(error));
                            }
                            return Err(error);
                        },
                    };
                    let a = match self.pop() {
                        Ok(a) => a,
                        Err(error) => {
                            proof {
                                before.ends_in(arith, *self, Err(error));
                            }
                            return Err(error);
                        },
                    };
                    let r = arith(opcode, a, b);
                    self.push(r)?;
                    assert forall|halt: Halt| #[trigger]
                        self.may_end(arith, halt) implies before.may_end(arith, halt) by {
                        assert(may_end_behind(
                            before.bytecode.code@,
                            before.bytecode.constants@,
                            before.ip as int,
                            before.stack@,
                            opcode,
                            arith,
                            halt,
                        ));
                    }
                },
                Opcode::Negate => {
                    let a = match self.pop() {
                        Ok(a) => a,
                        Err(error) => {
                            proof {
                                before.ends_in(arith, *self, Err(error));
                            }
                            return Err(error);
                        },
                    };
                    self.push(a ^ 0x8000_0000_0000_0000u64)?;
                    assert forall|halt: Halt| #[trigger]
                        self.may_end(arith, halt) implies before.may_end(arith, halt) by {}
                },
                Opcode::Constant => {
                    let offset = self.read_byte();
                    let value = self.bytecode.constant(offset);
                    self.push(value)?;
                    assert forall|halt: Halt| #[trigger]
                        self.may_end(arith, halt) implies before.may_end(arith, halt) by {}
                },
                Opcode::Pop => {
                    match self.pop() {
                        Ok(_) => {
                            assert forall|halt: Halt| #[trigger]
                                self.may_end(arith, halt) implies before.may_end(
                                arith,
                                halt,
                            ) by {}
                        },
                        Err(error) => {
                            proof {
                                before.ends_in(arith, *self, Err(error));
                            }
                            return Err(error);
                        },
                    }
                },
                Opcode::Return => {
                    let value = self.pop();
                    proof {
                        before.ends_in(arith, *self, value);
                    }
                    return value;
                },
            }
        }
    }

    /// A run whose next instruction ends it may end in the state that the
    /// instruction leaves.
    proof fn ends_in<F: Fn(Opcode, u64, u64) -> u64>(
        self,
        arith: F,
        after: Vm,
        result: Result<u64, VmError>,
    )
        requires
            0 <= self.ip < self.bytecode.code@.len(),
            after.ip == self.ip + 1,
            match decode(self.bytecode.code@[self.ip as int]) {
                None => after.stack@ == self.stack@ && result == Err::<u64, VmError>(
                    VmError::InvalidOpcode,
                ),
                Some(Opcode::Constant) => false,
                Some(Opcode::Return) => if self.stack@.len() < 1 {
                    after.stack@ =~= Seq::<u64>::empty() && result == Err::<u64, VmError>(
                        VmError::MissingOperand,
                    )
                } else {
                    after.stack@ == self.stack@.drop_last() && result == Ok::<u64, VmError>(
                        self.stack@.last(),
                    )
                },
                Some(op) => self.stack@.len() < (if op.is_binary() {
                    2nat
                } else {
                    1nat
                }) && after.stack@ =~= Seq::<u64>::empty() && result == Err::<u64, VmError>(
                    VmError::MissingOperand,
                ),
            },
        ensures
            self.may_end(
                arith,
                Halt { ip: after.ip as int, stack: after.stack@, result: Some(result) },
            ),
    {
    }

    /// Fetches the byte at the instruction pointer and moves past it.
    fn read_byte(&mut self) -> (byte: u8)
        requires
            old(self).ip < old(self).bytecode.code@.len(),
        ensures
            byte == old(self).bytecode.code@[old(self).ip as int],
            final(self).ip == old(self).ip + 1,
            final(self).bytecode == old(self).bytecode,
            final(self).stack == old(self).stack,
    {
        let slice = self.bytecode.as_ref();
        let byte = slice[self.ip];
        self.ip += 1;
        byte
    }

    /// Pushes an operand. The stack has no limit of its own, so this never
    /// fails.
    fn push(&mut self, value: u64) -> (result: Result<(), VmError>)
        ensures
            result is Ok,
            final(self).stack@ == old(self).stack@.push(value),
            final(self).ip == old(self).ip,
            final(self).bytecode == old(self).bytecode,
    {
        self.stack.push(value);
        Ok(())
    }

    /// Pops the top operand, or fails on an empty stack.
    fn pop(&mut self) -> (result: Result<u64, VmError>)
        ensures
            final(self).ip == old(self).ip,
            final(self).bytecode == old(self).bytecode,
            match result {
                Ok(value) => old(self).stack@.len() > 0 && value == old(self).stack@.last()
                    && final(self).stack@ == old(self).stack@.drop_last(),
                Err(e) => old(self).stack@.len() == 0 && e == VmError::MissingOperand
                    && final(self).stack@ == old(self).stack@,
            },
    {
        match self.stack.pop() {
            Some(value) => Ok(value),
            None => Err(VmError::MissingOperand),
        }
    }
}

} // verus!
