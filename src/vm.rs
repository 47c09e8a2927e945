use crate::errors::VMError;
use crate::inst::Inst;
use crate::program::Program;
use crate::word::{same_word, word_as_i64, word_as_u64, word_float_is_zero, Word};
use vstd::prelude::*;

verus! {

/// Number of slots of the operand stack.
pub const STACK_SIZE_LIMIT: usize = 1024;

/// Steps a run may take when no limit is given.
pub const DEFAULT_STEP_LIMIT: u16 = 64;

/// A float arithmetic instruction.
#[derive(Debug, Clone, Copy, PartialEq, Eq, Structural)]
pub enum FloatOp {
    Add,
    Sub,
    Mul,
    Div,
}

/// Why a run returned without an error.
///
/// `Float` means that the current instruction is float arithmetic on `lhs`
/// and `rhs` (second-from-top and top of the stack): the caller computes
/// the result and hands it to `complete_float`, which finishes the step and
/// goes on.
#[derive(Debug, Clone, Copy, PartialEq, Eq, Structural)]
pub enum Stop {
    Halted,
    LimitReached,
    Float { op: FloatOp, lhs: Word, rhs: Word },
}

/// The abstract state of an interpreter: the live part of the stack, the
/// instruction pointer, the halt flag, the loaded program and the steps
/// that the current run may still take.
pub ghost struct VmModel {
    pub stack: Seq<Word>,
    pub ip: int,
    pub halted: bool,
    pub program: Seq<Inst>,
    pub steps_left: nat,
}

/// What one step does.
pub ghost enum StepResult {
    Next(VmModel),
    Fault(VMError),
    Float(FloatOp, Word, Word),
}

/// Signed division as the machine does it: truncating, with the one
/// overflowing quotient (`i64::MIN / -1`) wrapped to `i64::MIN`.
pub open spec fn int_div(a: i64, b: i64) -> i64 {
    match a.checked_div(b) {
        Some(q) => q,
        None => i64::MIN,
    }
}

pub open spec fn advance(m: VmModel, stack: Seq<Word>) -> VmModel {
    VmModel { stack, ip: m.ip + 1, ..m }
}

/// Replaces the two topmost entries with one.
pub open spec fn combine(m: VmModel, w: Word) -> VmModel {
    advance(m, m.stack.drop_last().drop_last().push(w))
}

pub open spec fn second(m: VmModel) -> Word {
    m.stack[m.stack.len() - 2]
}

pub open spec fn top(m: VmModel) -> Word {
    m.stack.last()
}

pub open spec fn float_op_of(inst: Inst) -> Option<FloatOp> {
    match inst {
        Inst::InstAddf => Some(FloatOp::Add),
        Inst::InstSubf => Some(FloatOp::Sub),
        Inst::InstMulf => Some(FloatOp::Mul),
        Inst::InstDivf => Some(FloatOp::Div),
        _ => None,
    }
}

/// One step of the machine from a state that has not halted. `eq` on an
/// empty stack has no top to compare and fails with `StackUnderflow`.
pub open spec fn step_spec(m: VmModel) -> StepResult {
    if m.ip >= m.program.len() {
        StepResult::Fault(VMError::SegmentFault)
    } else {
        let inst = m.program[m.ip];
        let size = m.stack.len();
        match inst {
            Inst::InstPush(w) => if size >= STACK_SIZE_LIMIT {
                StepResult::Fault(VMError::StackOverflow { inst })
            } else {
                StepResult::Next(advance(m, m.stack.push(w)))
            },
            Inst::InstAddi | Inst::InstSubi | Inst::InstMuli | Inst::InstDivi => if size < 2 {
                StepResult::Fault(VMError::StackUnderflow { inst })
            } else {
                let a = word_as_i64(second(m));
                let b = word_as_i64(top(m));
                match inst {
                    Inst::InstAddi => StepResult::Next(combine(m, Word::Int(a.wrapping_add(b)))),
                    Inst::InstSubi => StepResult::Next(combine(m, Word::Int(a.wrapping_sub(b)))),
                    Inst::InstMuli => StepResult::Next(combine(m, Word::Int(a.wrapping_mul(b)))),
                    _ => if b == 0 {
                        StepResult::Fault(VMError::DivisionByZero)
                    } else {
                        StepResult::Next(combine(m, Word::Int(int_div(a, b))))
                    },
                }
            },
            Inst::InstAddf | Inst::InstSubf | Inst::InstMulf | Inst::InstDivf => if size < 2 {
                StepResult::Fault(VMError::StackUnderflow { inst })
            } else if inst == Inst::InstDivf && word_float_is_zero(top(m)) {
                StepResult::Fault(VMError::DivisionByZero)
            } else {
                StepResult::Float(float_op_of(inst)->0, second(m), top(m))
            },
            Inst::InstHalt => StepResult::Next(VmModel { halted: true, ..m }),
            Inst::InstJmp(w) => StepResult::Next(VmModel { ip: word_as_u64(w) as int, ..m }),
            Inst::InstEq(w) => if size >= STACK_SIZE_LIMIT {
                StepResult::Fault(VMError::StackOverflow { inst })
            } else if size == 0 {
                StepResult::Fault(VMError::StackUnderflow { inst })
            } else {
                let flag = if same_word(top(m), w) { 1u64 } else { 0u64 };
                StepResult::Next(advance(m, m.stack.push(Word::UInt(flag))))
            },
            Inst::InstDup(w) => if word_as_u64(w) >= size {
                StepResult::Fault(VMError::StackUnderflow { inst })
            } else if size >= STACK_SIZE_LIMIT {
                StepResult::Fault(VMError::StackOverflow { inst })
            } else {
                let copied = m.stack[size - 1 - word_as_u64(w)];
                StepResult::Next(advance(m, m.stack.push(copied)))
            },
            Inst::InstNop => StepResult::Next(advance(m, m.stack)),
        }
    }
}

/// Runs until the machine halts, a step faults, a float step needs its
/// result, or the steps left are used up. A fault leaves the state as it
/// was before the faulting step.
pub open spec fn run_spec(m: VmModel) -> (VmModel, Result<Stop, VMError>)
    decreases m.steps_left,
{
    if m.halted {
        (m, Ok(Stop::Halted))
    } else if m.steps_left == 0 {
        (m, Ok(Stop::LimitReached))
    } else {
        match step_spec(m) {
            StepResult::Fault(e) => (m, Err(e)),
            StepResult::Float(op, lhs, rhs) => (m, Ok(Stop::Float { op, lhs, rhs })),
            StepResult::Next(n) => run_spec(VmModel { steps_left: (m.steps_left - 1) as nat, ..n }),
        }
    }
}

/// A run whose instruction pointer is past the end of the program, without
/// a halt, fails with `SegmentFault` and leaves the state as it was.
pub proof fn lemma_fall_through_faults(m: VmModel)
    requires
        !m.halted,
        m.steps_left > 0,
        m.ip >= m.program.len(),
    ensures
        run_spec(m) == (m, Err::<Stop, VMError>(VMError::SegmentFault)),
{
}

/// A push onto a full stack fails with `StackOverflow` and leaves the stack
/// at its capacity.
pub proof fn lemma_push_onto_full_stack(m: VmModel, w: Word)
    requires
        !m.halted,
        m.steps_left > 0,
        0 <= m.ip < m.program.len(),
        m.program[m.ip] == Inst::InstPush(w),
        m.stack.len() == STACK_SIZE_LIMIT,
    ensures
        run_spec(m) == (m, Err::<Stop, VMError>(VMError::StackOverflow { inst: Inst::InstPush(w) })),
        run_spec(m).0.stack.len() == STACK_SIZE_LIMIT,
{
}

/// A division whose right operand is zero fails with `DivisionByZero`
/// before it changes the stack or the instruction pointer.
pub proof fn lemma_division_by_zero(m: VmModel)
    requires
        !m.halted,
        m.steps_left > 0,
        0 <= m.ip < m.program.len(),
        m.program[m.ip] == Inst::InstDivi,
        m.stack.len() >= 2,
        word_as_i64(m.stack.last()) == 0,
    ensures
        run_spec(m) == (m, Err::<Stop, VMError>(VMError::DivisionByZero)),
{
}

/// A run stopped on a float step that waits for its result.
pub open spec fn float_pending(m: VmModel) -> bool {
    !m.halted && m.steps_left > 0 && step_spec(m) is Float
}

/// The state after a waiting float step received its result.
pub open spec fn after_float(m: VmModel, bits: u64) -> VmModel {
    VmModel { steps_left: (m.steps_left - 1) as nat, ..combine(m, Word::Float(bits)) }
}

/// The interpreter: a fixed-capacity operand stack, the loaded program, an
/// instruction pointer and a halt flag.
#[derive(Debug)]
pub struct VM {
    stack: Vec<Word>,
    stack_size: usize,
    program: Program,
    program_size: usize,
    ip: u64,
    halt: bool,
    steps_left: u16,
}

impl VM {
    pub closed spec fn wf(&self) -> bool {
        &&& self.stack@.len() == STACK_SIZE_LIMIT
        &&& self.stack_size <= STACK_SIZE_LIMIT
        &&& self.program_size == self.program.insts@.len()
    }

    pub closed spec fn view(&self) -> VmModel {
        VmModel {
            stack: self.stack@.subrange(0, self.stack_size as int),
            ip: self.ip as int,
            halted: self.halt,
            program: self.program.insts@,
            steps_left: self.steps_left as nat,
        }
    }

    pub fn new() -> (r: VM)
        ensures
            r.wf(),
            r.view() == (VmModel {
                stack: Seq::empty(),
                ip: 0,
                halted: false,
                program: Seq::empty(),
                steps_left: 0,
            }),
    {
        let mut stack: Vec<Word> = Vec::new();
        let mut i: usize = 0;
        while i < STACK_SIZE_LIMIT
            invariant
                i <= STACK_SIZE_LIMIT,
                stack@.len() == i,
            decreases STACK_SIZE_LIMIT - i,
        {
            stack.push(Word::Int(0));
            i = i + 1;
        }
        let vm = VM {
            stack,
            stack_size: 0,
            program: Program { insts: Vec::new() },
            program_size: 0,
            ip: 0,
            halt: false,
            steps_left: 0,
        };
        assert(vm.view().stack =~= Seq::<Word>::empty());
        vm
    }

    /// Loads a program; the stack, the instruction pointer and the halt
    /// flag are kept.
    pub fn load_ha_from_memory(&mut self, program: Program) -> (r: Result<(), VMError>)
        requires
            old(self).wf(),
        ensures
            final(self).wf(),
            r is Ok,
            final(self).view() == (VmModel { program: program.insts@, ..old(self).view() }),
    {
        self.program_size = program.insts.len();
        self.program = program;
        Ok(())
    }

    pub fn stack_size(&self) -> (r: usize)
        requires
            self.wf(),
        ensures
            r == self.view().stack.len(),
    {
        self.stack_size
    }

    /// The live part of the stack, bottom first.
    pub fn stack(&self) -> (r: Vec<Word>)
        requires
            self.wf(),
        ensures
            r@ == self.view().stack,
    {
        let mut out: Vec<Word> = Vec::new();
        let mut i: usize = 0;
        while i < self.stack_size
            invariant
                self.wf(),
                i <= self.stack_size,
                out@ == self.stack@.subrange(0, i as int),
            decreases self.stack_size - i,
        {
            out.push(self.stack[i]);
            i = i + 1;
            assert(out@ =~= self.stack@.subrange(0, i as int));
        }
        out
    }

    pub fn ip(&self) -> (r: u64)
        ensures
            r == self.view().ip,
    {
        self.ip
    }

    pub fn is_halted(&self) -> (r: bool)
        ensures
            r == self.view().halted,
    {
        self.halt
    }

    /// The float step that the last run stopped on, if it waits for a result.
    pub fn pending_float(&self) -> (r: Option<Stop>)
        requires
            self.wf(),
        ensures
            r is Some <==> float_pending(self.view()),
            r matches Some(s) ==> step_spec(self.view()) matches StepResult::Float(op, a, b)
                && s == (Stop::Float { op, lhs: a, rhs: b }),
    {
        if self.halt || self.steps_left == 0 {
            return None;
        }
        match self.float_step() {
            Some(s) => Some(s),
            None => None,
        }
    }

    /// Whether the current step is float arithmetic that can go ahead.
    fn float_step(&self) -> (r: Option<Stop>)
        requires
            self.wf(),
        ensures
            r is Some <==> step_spec(self.view()) is Float,
            r matches Some(s) ==> step_spec(self.view()) matches StepResult::Float(op, a, b)
                && s == (Stop::Float { op, lhs: a, rhs: b }),
    {
        if self.ip >= self.program_size as u64 {
            return None;
        }
        let inst = self.program.insts[self.ip as usize];
        let size = self.stack_size;
        let op = match inst {
            Inst::InstAddf => FloatOp::Add,
            Inst::InstSubf => FloatOp::Sub,
            Inst::InstMulf => FloatOp::Mul,
            Inst::InstDivf => FloatOp::Div,
            _ => return None,
        };
        if size < 2 {
            return None;
        }
        let lhs = self.stack[size - 2];
        let rhs = self.stack[size - 1];
        if op == FloatOp::Div && rhs.is_zero_as_float() {
            return None;
        }
        Some(Stop::Float { op, lhs, rhs })
    }

    /// Replaces the two topmost entries with `w` and moves to the next
    /// instruction.
    fn combine_top(&mut self, w: Word)
        requires
            old(self).wf(),
            old(self).stack_size >= 2,
            old(self).ip < old(self).program_size,
        ensures
            final(self).wf(),
            final(self).view() == combine(old(self).view(), w),
    {
        let size = self.stack_size;
        self.stack[size - 2] = w;
        self.stack_size = size - 1;
        self.ip = self.ip + 1;
        assert(self.view().stack =~= old(self).view().stack.drop_last().drop_last().push(w));
    }

    /// Pushes `w` and moves to the next instruction.
    fn push_top(&mut self, w: Word)
        requires
            old(self).wf(),
            old(self).stack_size < STACK_SIZE_LIMIT,
            old(self).ip < old(self).program_size,
        ensures
            final(self).wf(),
            final(self).view() == advance(old(self).view(), old(self).view().stack.push(w)),
    {
        let size = self.stack_size;
        self.stack[size] = w;
        self.stack_size = size + 1;
        self.ip = self.ip + 1;
        assert(self.view().stack =~= old(self).view().stack.push(w));
    }

    /// Carries out one step; a fault or a float step leaves the state as it
    /// was.
    fn execute_one(&mut self) -> (r: Result<Option<Stop>, VMError>)
        requires
            old(self).wf(),
        ensures
            final(self).wf(),
            match step_spec(old(self).view()) {
                StepResult::Fault(e) => r == Err::<Option<Stop>, VMError>(e) && final(self).view()
                    == old(self).view(),
                StepResult::Float(op, lhs, rhs) => r == Ok::<Option<Stop>, VMError>(
                    Some(Stop::Float { op, lhs, rhs }),
                ) && final(self).view() == old(self).view(),
                StepResult::Next(n) => r == Ok::<Option<Stop>, VMError>(None) && final(self).view()
                    == n,
            },
    {
        if self.ip >= self.program_size as u64 {
            return Err(VMError::SegmentFault);
        }
        let inst = self.program.insts[self.ip as usize];
        let size = self.stack_size;
        match inst {
            Inst::InstPush(w) => {
                if size >= STACK_SIZE_LIMIT {
                    return Err(VMError::StackOverflow { inst });
                }
                self.push_top(w);
            },
            Inst::InstAddi | Inst::InstSubi | Inst::InstMuli | Inst::InstDivi => {
                if size < 2 {
                    return Err(VMError::StackUnderflow { inst });
                }
                let a = self.stack[size - 2].to_i64();
                let b = self.stack[size - 1].to_i64();
                let v = match inst {
                    Inst::InstAddi => a.wrapping_add(b),
                    Inst::InstSubi => a.wrapping_sub(b),
                    Inst::InstMuli => a.wrapping_mul(b),
                    _ => {
                        if b == 0 {
                            return Err(VMError::DivisionByZero);
                        }
                        match a.checked_div(b) {
                            Some(q) => q,
                            None => i64::MIN,
                        }
                    },
                };
                self.combine_top(Word::Int(v));
            },
            Inst::InstAddf | Inst::InstSubf | Inst::InstMulf | Inst::InstDivf => {
                if size < 2 {
                    return Err(VMError::StackUnderflow { inst });
                }
                let lhs = self.stack[size - 2];
                let rhs = self.stack[size - 1];
                let op = match inst {
                    Inst::InstAddf => FloatOp::Add,
                    Inst::InstSubf => FloatOp::Sub,
                    Inst::InstMulf => FloatOp::Mul,
                    _ => FloatOp::Div,
                };
                if op == FloatOp::Div && rhs.is_zero_as_float() {
                    return Err(VMError::DivisionByZero);
                }
                return Ok(Some(Stop::Float { op, lhs, rhs }));
            },
            Inst::InstHalt => {
                self.halt = true;
            },
            Inst::InstJmp(w) => {
                self.ip = w.to_u64();
            },
            Inst::InstEq(w) => {
                if size >= STACK_SIZE_LIMIT {
                    return Err(VMError::StackOverflow { inst });
                }
                if size == 0 {
                    return Err(VMError::StackUnderflow { inst });
                }
                let flag: u64 = if self.stack[size - 1].same_as(&w) {
                    1
                } else {
                    0
                };
                self.push_top(Word::UInt(flag));
            },
            Inst::InstDup(w) => {
                let n = w.to_u64();
                if n >= size as u64 {
                    return Err(VMError::StackUnderflow { inst });
                }
                if size >= STACK_SIZE_LIMIT {
                    return Err(VMError::StackOverflow { inst });
                }
                let copied = self.stack[size - 1 - n as usize];
                self.push_top(copied);
            },
            Inst::InstNop => {
                self.ip = self.ip + 1;
            },
        }
        Ok(None)
    }

    /// Goes on from the current state with the steps left.
    fn resume(&mut self) -> (r: Result<Stop, VMError>)
        requires
            old(self).wf(),
        ensures
            final(self).wf(),
            (final(self).view(), r) == run_spec(old(self).view()),
    {
        loop
            invariant
                self.wf(),
                run_spec(self.view()) == run_spec(old(self).view()),
            decreases self.steps_left,
        {
            if self.halt {
                return Ok(Stop::Halted);
            }
            if self.steps_left == 0 {
                return Ok(Stop::LimitReached);
            }
            match self.execute_one() {
                Err(e) => {
                    return Err(e);
                },
                Ok(Some(stop)) => {
                    return Ok(stop);
                },
                Ok(None) => {
                    self.steps_left = self.steps_left - 1;
                },
            }
        }
    }

    /// Runs the loaded program for at most `limit` steps (64 when `None`),
    /// from the current state.
    pub fn run(&mut self, limit: Option<u16>) -> (r: Result<Stop, VMError>)
        requires
            old(self).wf(),
        ensures
            final(self).wf(),
            (final(self).view(), r) == run_spec(
                VmModel {
                    steps_left: match limit {
                        Some(l) => l as nat,
                        None => DEFAULT_STEP_LIMIT as nat,
                    },
                    ..old(self).view()
                },
            ),
    {
        self.steps_left = match limit {
            Some(l) => l,
            None => DEFAULT_STEP_LIMIT,
        };
        self.resume()
    }

    /// Finishes the float step that the last run stopped on with the
    /// result's bits, then goes on with the steps left.
    pub fn complete_float(&mut self, result_bits: u64) -> (r: Result<Stop, VMError>)
        requires
            old(self).wf(),
            float_pending(old(self).view()),
        ensures
            final(self).wf(),
            (final(self).view(), r) == run_spec(after_float(old(self).view(), result_bits)),
    {
        self.combine_top(Word::Float(result_bits));
        self.steps_left = self.steps_left - 1;
        self.resume()
    }
}

} // verus!
