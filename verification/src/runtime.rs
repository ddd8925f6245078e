//! Execution of compiled contracts: an operand stack, named state variables and
//! an event log, with a bound on the number of executed instructions.

use vstd::prelude::*;
use crate::bytecode::Opcode;
use crate::keyed::KeyedMap;
use crate::text::{dec_u64, dec_nat};

verus! {

/// Default number of instructions a contract may execute.
pub const DEFAULT_STEP_LIMIT: usize = 10_000;

/// Summary of a finished execution.
#[derive(Debug, Clone, PartialEq, Eq)]
pub struct ExecutionReport {
    /// Whether execution stopped at a `Halt` instruction.
    pub halted: bool,
    /// Number of executed instructions.
    pub steps_executed: usize,
    /// Program counter when execution stopped.
    pub final_pc: usize,
}

/// Errors raised while executing a program.
#[derive(Debug, Clone, PartialEq, Eq)]
pub enum VmError {
    /// An instruction needed more operands than the stack holds.
    StackUnderflow { opcode: &'static str },
    /// A jump target lies outside the program.
    InvalidJumpTarget { target: usize, program_len: usize },
    /// The step limit was reached before the program finished.
    StepLimitExceeded { limit: usize },
    /// A division had a zero divisor.
    DivisionByZero,
    /// An arithmetic result does not fit in 64 bits.
    ArithmeticOverflow { opcode: &'static str },
}

/// The text of a runtime error.
pub open spec fn vm_error_text(e: VmError) -> Seq<char> {
    match e {
        VmError::StackUnderflow { opcode } => "栈下溢: opcode="@ + opcode@,
        VmError::InvalidJumpTarget { target, program_len } => "跳转目标越界: target="@ + dec_nat(target as nat) + ", program_len="@ + dec_nat(program_len as nat),
        VmError::StepLimitExceeded { limit } => "执行步数超限: limit="@ + dec_nat(limit as nat),
        VmError::DivisionByZero => "除数为零"@,
        VmError::ArithmeticOverflow { opcode } => "算术溢出: opcode="@ + opcode@,
    }
}

impl VmError {
    /// The error as text.
    pub fn message(&self) -> (r: String)
        ensures
            r@ == vm_error_text(*self),
    {
        match self {
            VmError::StackUnderflow { opcode } => {
                let mut s = String::from_str("栈下溢: opcode=");
                s.append(*opcode);
                s
            },
            VmError::InvalidJumpTarget { target, program_len } => {
                let mut s = String::from_str("跳转目标越界: target=");
                let a = dec_u64(*target as u64);
                s.append(a.as_str());
                s.append(", program_len=");
                let b = dec_u64(*program_len as u64);
                s.append(b.as_str());
                s
            },
            VmError::StepLimitExceeded { limit } => {
                let mut s = String::from_str("执行步数超限: limit=");
                let a = dec_u64(*limit as u64);
                s.append(a.as_str());
                s
            },
            VmError::DivisionByZero => String::from_str("除数为零"),
            VmError::ArithmeticOverflow { opcode } => {
                let mut s = String::from_str("算术溢出: opcode=");
                s.append(*opcode);
                s
            },
        }
    }
}

/// Abstract machine state: operand stack (top last), variables and events.
pub struct VmState {
    pub stack: Seq<i64>,
    pub vars: Map<Seq<char>, i64>,
    pub events: Seq<Seq<char>>,
}

/// Result of executing one instruction.
pub enum StepOutcome {
    /// Continue at the given program counter.
    Next(VmState, int),
    /// A `Halt` was executed.
    Halt,
    /// The instruction failed; the state is what it left behind.
    Fail(VmState, VmError),
}

/// Quotient truncated toward zero, as Rust's integer division computes it.
pub open spec fn trunc_div(a: int, b: int) -> int {
    let q = (if a < 0 { -a } else { a }) / (if b < 0 { -b } else { b });
    if (a < 0) != (b < 0) { -q } else { q }
}

/// Whether an integer fits in `i64`.
pub open spec fn fits_i64(v: int) -> bool {
    i64::MIN <= v <= i64::MAX
}

/// Name reported by a binary operator when it fails.
pub open spec fn binop_name(op: Opcode) -> &'static str {
    match op {
        Opcode::Add => "add",
        Opcode::Sub => "sub",
        Opcode::Mul => "mul",
        Opcode::Div => "div",
        Opcode::Eq => "eq",
        _ => "gt",
    }
}

/// Result of a binary operator on `a` (pushed first) and `b`.
pub open spec fn binop_result(op: Opcode, a: i64, b: i64) -> Result<int, VmError> {
    match op {
        Opcode::Add => if fits_i64(a + b) { Ok(a + b) } else { Err(VmError::ArithmeticOverflow { opcode: "add" }) },
        Opcode::Sub => if fits_i64(a - b) { Ok(a - b) } else { Err(VmError::ArithmeticOverflow { opcode: "sub" }) },
        Opcode::Mul => if fits_i64(a * b) { Ok(a * b) } else { Err(VmError::ArithmeticOverflow { opcode: "mul" }) },
        Opcode::Div => if b == 0 { Err(VmError::DivisionByZero) }
            else if fits_i64(trunc_div(a as int, b as int)) { Ok(trunc_div(a as int, b as int)) }
            else { Err(VmError::ArithmeticOverflow { opcode: "div" }) },
        Opcode::Eq => Ok(if a == b { 1 } else { 0 }),
        _ => Ok(if a > b { 1 } else { 0 }),
    }
}

/// Whether an opcode is one of the binary operators.
pub open spec fn is_binop(op: Opcode) -> bool {
    op is Add || op is Sub || op is Mul || op is Div || op is Eq || op is Gt
}

/// Executes the instruction at `pc` (which lies inside `prog`).
pub open spec fn step(prog: Seq<Opcode>, s: VmState, pc: int) -> StepOutcome {
    let len = prog.len() as int;
    match prog[pc] {
        Opcode::LoadConst(v) => StepOutcome::Next(VmState { stack: s.stack.push(v), ..s }, pc + 1),
        Opcode::Load(k) => {
            let v = if s.vars.contains_key(k@) { s.vars[k@] } else { 0i64 };
            StepOutcome::Next(VmState { stack: s.stack.push(v), ..s }, pc + 1)
        },
        Opcode::Store(k) => if s.stack.len() == 0 {
            StepOutcome::Fail(s, VmError::StackUnderflow { opcode: "store" })
        } else {
            StepOutcome::Next(VmState { stack: s.stack.drop_last(), vars: s.vars.insert(k@, s.stack.last()), events: s.events }, pc + 1)
        },
        Opcode::Jump(t) => if t >= len {
            StepOutcome::Fail(s, VmError::InvalidJumpTarget { target: t, program_len: len as usize })
        } else {
            StepOutcome::Next(s, t as int)
        },
        Opcode::JumpIfFalse(t) => if s.stack.len() == 0 {
            StepOutcome::Fail(s, VmError::StackUnderflow { opcode: "jump_if_false" })
        } else {
            let c = s.stack.last();
            let s2 = VmState { stack: s.stack.drop_last(), ..s };
            if c == 0 {
                if t >= len {
                    StepOutcome::Fail(s2, VmError::InvalidJumpTarget { target: t, program_len: len as usize })
                } else {
                    StepOutcome::Next(s2, t as int)
                }
            } else {
                StepOutcome::Next(s2, pc + 1)
            }
        },
        Opcode::Emit(e) => StepOutcome::Next(VmState { events: s.events.push(e@), ..s }, pc + 1),
        Opcode::Halt => StepOutcome::Halt,
        op => {
            let name = binop_name(op);
            if s.stack.len() == 0 {
                StepOutcome::Fail(s, VmError::StackUnderflow { opcode: name })
            } else if s.stack.len() == 1 {
                StepOutcome::Fail(VmState { stack: Seq::empty(), ..s }, VmError::StackUnderflow { opcode: name })
            } else {
                let b = s.stack.last();
                let a = s.stack.drop_last().last();
                let rest = s.stack.drop_last().drop_last();
                match binop_result(op, a, b) {
                    Ok(v) => StepOutcome::Next(VmState { stack: rest.push(v as i64), ..s }, pc + 1),
                    Err(e) => StepOutcome::Fail(VmState { stack: rest, ..s }, e),
                }
            }
        },
    }
}

/// Runs `prog` from `pc` with `steps` already executed, under the limit `max`:
/// the final machine state and the outcome.
pub open spec fn run(prog: Seq<Opcode>, s: VmState, pc: int, steps: int, max: int) -> (VmState, Result<ExecutionReport, VmError>)
    decreases max - steps,
{
    if pc >= prog.len() || pc < 0 {
        (s, Ok(ExecutionReport { halted: false, steps_executed: steps as usize, final_pc: pc as usize }))
    } else if steps >= max {
        (s, Err(VmError::StepLimitExceeded { limit: max as usize }))
    } else {
        match step(prog, s, pc) {
            StepOutcome::Fail(s2, e) => (s2, Err(e)),
            StepOutcome::Halt => (s, Ok(ExecutionReport { halted: true, steps_executed: (steps + 1) as usize, final_pc: pc as usize })),
            StepOutcome::Next(s2, pc2) => run(prog, s2, pc2, steps + 1, max),
        }
    }
}

/// A run from a position inside the program, or just past its end, never
/// moves past that end.
proof fn lemma_step_stays(prog: Seq<Opcode>, s: VmState, pc: int)
    requires
        0 <= pc < prog.len(),
    ensures
        step(prog, s, pc) matches StepOutcome::Next(_, pc2) ==> 0 <= pc2 <= prog.len(),
{
}

/// What a run that ends well reports: no more steps than the limit, and no
/// fewer than were taken before; a halted run stops on a `Halt`; any other
/// run stops just past the program's end.
proof fn lemma_run_bounds(prog: Seq<Opcode>, s: VmState, pc: int, steps: int, max: int)
    requires
        0 <= pc <= prog.len(),
        0 <= steps <= max,
        max <= usize::MAX,
        prog.len() <= usize::MAX,
    ensures
        run(prog, s, pc, steps, max).1 matches Ok(r) ==> {
            &&& steps <= r.steps_executed <= max
            &&& r.halted ==> r.final_pc < prog.len() && prog[r.final_pc as int] is Halt
            &&& !r.halted ==> r.final_pc == prog.len()
        },
    decreases max - steps,
{
    if pc < prog.len() && steps < max {
        lemma_step_stays(prog, s, pc);
        match step(prog, s, pc) {
            StepOutcome::Next(s2, pc2) => {
                lemma_run_bounds(prog, s2, pc2, steps + 1, max);
            },
            _ => {},
        }
    }
}

/// Running a program from its first instruction under a limit of `max`
/// steps, when it ends well: it took at most `max` steps; if it halted, it
/// stopped on a `Halt` instruction; otherwise it ran off the program's end.
pub proof fn law_run_ends_in_bounds(prog: Seq<Opcode>, s: VmState, max: int)
    requires
        0 <= max <= usize::MAX,
        prog.len() <= usize::MAX,
    ensures
        run(prog, s, 0, 0, max).1 matches Ok(r) ==> {
            &&& r.steps_executed <= max
            &&& r.halted ==> r.final_pc < prog.len() && prog[r.final_pc as int] is Halt
            &&& !r.halted ==> r.final_pc == prog.len()
        },
{
    lemma_run_bounds(prog, s, 0, 0, max);
}

/// A conditional jump pops its condition and jumps exactly when that
/// condition is 0: on any other value the run goes on with the next
/// instruction; on 0 it goes on at the target, or fails when the target lies
/// outside the program.
pub proof fn law_jump_if_false(prog: Seq<Opcode>, s: VmState, pc: int, steps: int, max: int, target: usize)
    requires
        0 <= pc < prog.len(),
        prog[pc] == Opcode::JumpIfFalse(target),
        s.stack.len() > 0,
        0 <= steps < max,
    ensures
        ({
            let popped = VmState { stack: s.stack.drop_last(), vars: s.vars, events: s.events };
            &&& s.stack.last() != 0 ==> run(prog, s, pc, steps, max) == run(prog, popped, pc + 1, steps + 1, max)
            &&& s.stack.last() == 0 && target < prog.len() ==> run(prog, s, pc, steps, max) == run(prog, popped, target as int, steps + 1, max)
            &&& s.stack.last() == 0 && target >= prog.len() ==> run(prog, s, pc, steps, max)
                == (popped, Err::<ExecutionReport, VmError>(VmError::InvalidJumpTarget { target, program_len: prog.len() as usize }))
        }),
{
}

/// An unconditional jump goes on at its target when the target lies inside
/// the program, and fails otherwise; the machine's state is untouched.
pub proof fn law_jump(prog: Seq<Opcode>, s: VmState, pc: int, steps: int, max: int, target: usize)
    requires
        0 <= pc < prog.len(),
        prog[pc] == Opcode::Jump(target),
        0 <= steps < max,
    ensures
        target < prog.len() ==> run(prog, s, pc, steps, max) == run(prog, s, target as int, steps + 1, max),
        target >= prog.len() ==> run(prog, s, pc, steps, max)
            == (s, Err::<ExecutionReport, VmError>(VmError::InvalidJumpTarget { target, program_len: prog.len() as usize })),
{
}

/// The arithmetic and comparison instructions take the two top values `a`
/// (below) and `b` (on top) and push, in their place: `a + b`, `a - b`,
/// `a * b`, `a / b` rounded toward zero, `1` when `a == b` (else `0`), `1`
/// when `a > b` (else `0`); the run then goes on with the next instruction.
/// A result outside `i64` is an overflow, and a division by zero fails.
pub proof fn law_arithmetic(prog: Seq<Opcode>, s: VmState, pc: int, steps: int, max: int)
    requires
        0 <= pc < prog.len(),
        s.stack.len() >= 2,
        0 <= steps < max,
    ensures
        ({
            let b = s.stack.last();
            let a = s.stack.drop_last().last();
            let rest = s.stack.drop_last().drop_last();
            let next = |v: int| run(prog, VmState { stack: rest.push(v as i64), vars: s.vars, events: s.events }, pc + 1, steps + 1, max);
            let here = run(prog, s, pc, steps, max);
            &&& prog[pc] == Opcode::Add && i64::MIN <= a + b <= i64::MAX ==> here == next(a + b)
            &&& prog[pc] == Opcode::Sub && i64::MIN <= a - b <= i64::MAX ==> here == next(a - b)
            &&& prog[pc] == Opcode::Mul && i64::MIN <= a * b <= i64::MAX ==> here == next(a * b)
            &&& prog[pc] == Opcode::Div && b != 0 && !(a == i64::MIN && b == -1) ==> here == next(
                if (a < 0) == (b < 0) { (if a < 0 { -a } else { a as int }) / (if b < 0 { -b } else { b as int }) }
                else { -((if a < 0 { -a } else { a as int }) / (if b < 0 { -b } else { b as int })) })
            &&& prog[pc] == Opcode::Div && b == 0 ==> here == (VmState { stack: rest, vars: s.vars, events: s.events }, Err::<ExecutionReport, VmError>(VmError::DivisionByZero))
            &&& prog[pc] == Opcode::Eq ==> here == next(if a == b { 1 } else { 0 })
            &&& prog[pc] == Opcode::Gt ==> here == next(if a > b { 1 } else { 0 })
        }),
{
    let b = s.stack.last();
    let a = s.stack.drop_last().last();
    if prog[pc] == Opcode::Div && b != 0 && !(a == i64::MIN && b == -1) {
        let q = trunc_div(a as int, b as int);
        assert(fits_i64(q)) by (nonlinear_arith)
            requires
                q == (if (a < 0) != (b < 0) { -((if a < 0 { -a } else { a as int }) / (if b < 0 { -b } else { b as int })) }
                    else { (if a < 0 { -a } else { a as int }) / (if b < 0 { -b } else { b as int }) }),
                b != 0,
                !(a == i64::MIN && b == -1),
                i64::MIN <= a <= i64::MAX,
                i64::MIN <= b <= i64::MAX;
    }
}

/// The data instructions: a constant is pushed; a variable is pushed (0 when
/// it was never stored); a store pops the top value into its variable; an
/// event is appended; each goes on with the next instruction. `Halt` ends
/// the run there, counting itself as a step.
pub proof fn law_data_instructions(prog: Seq<Opcode>, s: VmState, pc: int, steps: int, max: int)
    requires
        0 <= pc < prog.len(),
        0 <= steps < max,
    ensures
        ({
            let here = run(prog, s, pc, steps, max);
            &&& prog[pc] matches Opcode::LoadConst(v) ==> here == run(prog, VmState { stack: s.stack.push(v), vars: s.vars, events: s.events }, pc + 1, steps + 1, max)
            &&& prog[pc] matches Opcode::Load(k) ==> here == run(prog,
                VmState { stack: s.stack.push(if s.vars.contains_key(k@) { s.vars[k@] } else { 0i64 }), vars: s.vars, events: s.events }, pc + 1, steps + 1, max)
            &&& s.stack.len() > 0 ==> (prog[pc] matches Opcode::Store(k) ==> here == run(prog,
                VmState { stack: s.stack.drop_last(), vars: s.vars.insert(k@, s.stack.last()), events: s.events }, pc + 1, steps + 1, max))
            &&& prog[pc] matches Opcode::Emit(e) ==> here == run(prog, VmState { stack: s.stack, vars: s.vars, events: s.events.push(e@) }, pc + 1, steps + 1, max)
            &&& prog[pc] == Opcode::Halt && steps + 1 <= usize::MAX && pc <= usize::MAX ==> here
                == (s, Ok::<ExecutionReport, VmError>(ExecutionReport { halted: true, steps_executed: (steps + 1) as usize, final_pc: pc as usize }))
        }),
{
}

/// The runtime reads an instruction only through its view.
pub proof fn lemma_step_view(p1: Seq<Opcode>, p2: Seq<Opcode>, s: VmState, pc: int)
    requires
        p1.len() == p2.len(),
        0 <= pc < p1.len(),
        p1[pc]@ == p2[pc]@,
    ensures
        step(p1, s, pc) == step(p2, s, pc),
{
}

/// Two programs that view alike run alike.
pub proof fn lemma_run_view(p1: Seq<Opcode>, p2: Seq<Opcode>, s: VmState, pc: int, steps: int, max: int)
    requires
        p1.map_values(|o: Opcode| o@) == p2.map_values(|o: Opcode| o@),
    ensures
        run(p1, s, pc, steps, max) == run(p2, s, pc, steps, max),
    decreases max - steps,
{
    assert(p1.len() == p1.map_values(|o: Opcode| o@).len());
    assert(p2.len() == p2.map_values(|o: Opcode| o@).len());
    if 0 <= pc < p1.len() && steps < max {
        assert(p1.map_values(|o: Opcode| o@)[pc] == p2.map_values(|o: Opcode| o@)[pc]);
        assert(p1.map_values(|o: Opcode| o@)[pc] == p1[pc]@);
        assert(p2.map_values(|o: Opcode| o@)[pc] == p2[pc]@);
        lemma_step_view(p1, p2, s, pc);
        match step(p1, s, pc) {
            StepOutcome::Next(s2, pc2) => {
                lemma_run_view(p1, p2, s2, pc2, steps + 1, max);
            },
            _ => {},
        }
    }
}

/// Contract runtime: operand stack, state variables and emitted events.
pub struct Runtime {
    stack: Vec<i64>,
    state: KeyedMap<i64>,
    events: Vec<String>,
}

impl Default for Runtime {
    fn default() -> (r: Self)
        ensures
            r.vm()@ == (VmState { stack: Seq::empty(), vars: Map::empty(), events: Seq::empty() })@,
    {
        Runtime::new()
    }
}

impl VmState {
    /// Identity view, so that states compare extensionally in contracts.
    pub open spec fn view(self) -> (Seq<i64>, Map<Seq<char>, i64>, Seq<Seq<char>>) {
        (self.stack, self.vars, self.events)
    }
}

impl Runtime {
    /// The abstract state of the runtime.
    pub closed spec fn vm(&self) -> VmState {
        VmState {
            stack: self.stack@,
            vars: self.state@,
            events: self.events@.map_values(|e: String| e@),
        }
    }

    /// A runtime with empty stack, state and events.
    pub fn new() -> (r: Self)
        ensures
            r.vm()@ == (VmState { stack: Seq::empty(), vars: Map::empty(), events: Seq::empty() })@,
    {
        let r = Runtime { stack: Vec::new(), state: KeyedMap::new(), events: Vec::new() };
        assert(r.vm().events =~= Seq::<Seq<char>>::empty());
        r
    }

    /// A runtime whose state variables start as `state`.
    pub fn from_state(state: KeyedMap<i64>) -> (r: Self)
        ensures
            r.vm()@ == (VmState { stack: Seq::empty(), vars: state@, events: Seq::empty() })@,
    {
        let r = Runtime { stack: Vec::new(), state, events: Vec::new() };
        assert(r.vm().events =~= Seq::<Seq<char>>::empty());
        r
    }

    /// The state variables.
    pub fn state(&self) -> (r: &KeyedMap<i64>)
        ensures
            r@ == self.vm().vars,
    {
        &self.state
    }

    /// The events emitted so far, oldest first.
    pub fn events(&self) -> (r: &[String])
        ensures
            r@.map_values(|e: String| e@) == self.vm().events,
    {
        self.events.as_slice()
    }

    /// Executes `program` under the default step limit.
    pub fn execute(&mut self, program: &[Opcode]) -> (r: Result<ExecutionReport, VmError>)
        ensures
            (final(self).vm()@, r) == ({
                let (s, res) = run(program@, old(self).vm(), 0, 0, DEFAULT_STEP_LIMIT as int);
                (s@, res)
            }),
    {
        self.execute_with_limit(program, DEFAULT_STEP_LIMIT)
    }

    /// Executes `program` from its first instruction, failing once
    /// `max_steps` instructions have run without the program finishing.
    pub fn execute_with_limit(&mut self, program: &[Opcode], max_steps: usize) -> (r: Result<ExecutionReport, VmError>)
        ensures
            (final(self).vm()@, r) == ({
                let (s, res) = run(program@, old(self).vm(), 0, 0, max_steps as int);
                (s@, res)
            }),
    {
        let mut pc: usize = 0;
        let mut steps: usize = 0;
        let ghost start = self.vm();
        while pc < program.len()
            invariant
                steps <= max_steps,
                start == old(self).vm(),
                run(program@, start, 0, 0, max_steps as int) == run(program@, self.vm(), pc as int, steps as int, max_steps as int),
            decreases max_steps - steps,
        {
            if steps >= max_steps {
                return Err(VmError::StepLimitExceeded { limit: max_steps });
            }
            let ghost before = self.vm();
            let outcome = self.exec_one(program, pc);
            match outcome {
                Err(e) => {
                    return Err(e);
                },
                Ok(None) => {
                    assert(step(program@, before, pc as int) is Halt);
                    return Ok(ExecutionReport { halted: true, steps_executed: steps + 1, final_pc: pc });
                },
                Ok(Some(next)) => {
                    pc = next;
                    steps = steps + 1;
                },
            }
        }
        Ok(ExecutionReport { halted: false, steps_executed: steps, final_pc: pc })
    }

    /// Pops the top of the stack.
    fn pop(&mut self) -> (r: Option<i64>)
        ensures
            final(self).state@ == old(self).state@,
            final(self).events@ == old(self).events@,
            old(self).stack@.len() == 0 ==> r is None && final(self).stack@ == old(self).stack@,
            old(self).stack@.len() > 0 ==> r == Some(old(self).stack@.last()) && final(self).stack@ == old(self).stack@.drop_last(),
    {
        self.stack.pop()
    }

    /// Applies a binary operator to `a` (pushed first) and `b`.
    fn binop(op: &Opcode, a: i64, b: i64) -> (r: Result<i64, VmError>)
        requires
            is_binop(*op),
        ensures
            match binop_result(*op, a, b) {
                Ok(v) => r == Ok::<i64, VmError>(v as i64),
                Err(e) => r == Err::<i64, VmError>(e),
            },
    {
        let x = a as i128;
        let y = b as i128;
        let lo = i64::MIN as i128;
        let hi = i64::MAX as i128;
        match op {
            Opcode::Add => {
                let v = x + y;
                if v < lo || v > hi { Err(VmError::ArithmeticOverflow { opcode: "add" }) } else { Ok(v as i64) }
            },
            Opcode::Sub => {
                let v = x - y;
                if v < lo || v > hi { Err(VmError::ArithmeticOverflow { opcode: "sub" }) } else { Ok(v as i64) }
            },
            Opcode::Mul => {
                assert(-0x8000_0000_0000_0000 <= x <= 0x7fff_ffff_ffff_ffff && -0x8000_0000_0000_0000 <= y <= 0x7fff_ffff_ffff_ffff);
                assert(-0x4000_0000_0000_0000_0000_0000_0000_0000 <= x * y <= 0x4000_0000_0000_0000_0000_0000_0000_0000) by (nonlinear_arith)
                    requires
                        -0x8000_0000_0000_0000 <= x <= 0x7fff_ffff_ffff_ffff,
                        -0x8000_0000_0000_0000 <= y <= 0x7fff_ffff_ffff_ffff;
                let v = x * y;
                if v < lo || v > hi { Err(VmError::ArithmeticOverflow { opcode: "mul" }) } else { Ok(v as i64) }
            },
            Opcode::Div => {
                if b == 0 {
                    Err(VmError::DivisionByZero)
                } else {
                    let ax: u128 = if x < 0 { (0 - x) as u128 } else { x as u128 };
                    let ay: u128 = if y < 0 { (0 - y) as u128 } else { y as u128 };
                    let q = ax / ay;
                    assert(q <= ax) by (nonlinear_arith) requires ay >= 1, q == ax / ay;
                    let v: i128 = if (x < 0) != (y < 0) { 0 - (q as i128) } else { q as i128 };
                    if v < lo || v > hi { Err(VmError::ArithmeticOverflow { opcode: "div" }) } else { Ok(v as i64) }
                }
            },
            Opcode::Eq => Ok(if a == b { 1 } else { 0 }),
            _ => Ok(if a > b { 1 } else { 0 }),
        }
    }

    /// Executes the instruction at `pc`: the next program counter, `None` on
    /// `Halt`, or the error.
    fn exec_one(&mut self, program: &[Opcode], pc: usize) -> (r: Result<Option<usize>, VmError>)
        requires
            pc < program@.len(),
        ensures
            match step(program@, old(self).vm(), pc as int) {
                StepOutcome::Next(s, next) => r == Ok::<Option<usize>, VmError>(Some(next as usize)) && final(self).vm()@ == s@,
                StepOutcome::Halt => r == Ok::<Option<usize>, VmError>(None) && final(self).vm()@ == old(self).vm()@,
                StepOutcome::Fail(s, e) => r == Err::<Option<usize>, VmError>(e) && final(self).vm()@ == s@,
            },
    {
        let ghost ev = old(self).vm().events;
        match &program[pc] {
            Opcode::LoadConst(v) => {
                self.stack.push(*v);
                Ok(Some(pc + 1))
            },
            Opcode::Load(key) => {
                let v = match self.state.get(key.as_str()) {
                    Some(x) => *x,
                    None => 0,
                };
                self.stack.push(v);
                Ok(Some(pc + 1))
            },
            Opcode::Store(key) => {
                match self.pop() {
                    None => Err(VmError::StackUnderflow { opcode: "store" }),
                    Some(v) => {
                        self.state.insert(key.clone(), v);
                        Ok(Some(pc + 1))
                    },
                }
            },
            Opcode::Jump(target) => {
                if *target >= program.len() {
                    Err(VmError::InvalidJumpTarget { target: *target, program_len: program.len() })
                } else {
                    Ok(Some(*target))
                }
            },
            Opcode::JumpIfFalse(target) => {
                match self.pop() {
                    None => Err(VmError::StackUnderflow { opcode: "jump_if_false" }),
                    Some(c) => {
                        if c == 0 {
                            if *target >= program.len() {
                                Err(VmError::InvalidJumpTarget { target: *target, program_len: program.len() })
                            } else {
                                Ok(Some(*target))
                            }
                        } else {
                            Ok(Some(pc + 1))
                        }
                    },
                }
            },
            Opcode::Emit(event) => {
                self.events.push(event.clone());
                proof {
                    assert(self.vm().events =~= ev.push(event@));
                }
                Ok(Some(pc + 1))
            },
            Opcode::Halt => Ok(None),
            op => {
                let name: &'static str = match op {
                    Opcode::Add => "add",
                    Opcode::Sub => "sub",
                    Opcode::Mul => "mul",
                    Opcode::Div => "div",
                    Opcode::Eq => "eq",
                    _ => "gt",
                };
                match self.pop() {
                    None => Err(VmError::StackUnderflow { opcode: name }),
                    Some(b) => {
                        match self.pop() {
                            None => Err(VmError::StackUnderflow { opcode: name }),
                            Some(a) => {
                                match Self::binop(op, a, b) {
                                    Ok(v) => {
                                        self.stack.push(v);
                                        Ok(Some(pc + 1))
                                    },
                                    Err(e) => Err(e),
                                }
                            },
                        }
                    },
                }
            },
        }
    }
}

} // verus!
