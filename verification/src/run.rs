//! The interpreter: a fetch/decode/execute loop over the flat program,
//! proved to follow the small-step machine of `machine` exactly. Each
//! instruction handler's contract is the corresponding machine transition
//! applied to the context's ghost state.

use vstd::prelude::*;
use vstd::pervasive::VecAdditionalExecFns;

use crate::context::Context;
use crate::context::CtxView;
use crate::context::init_state;
use crate::context::vm_state;
use crate::machine::MachineState;
use crate::machine::advanced;
use crate::machine::binop_step;
use crate::machine::branch_step;
use crate::machine::call_step;
use crate::machine::jump_step;
use crate::machine::lemma_step_preserves_inv;
use crate::machine::lemma_steps_absorb;
use crate::machine::lemma_steps_succ;
use crate::machine::ret_step;
use crate::machine::runs_to;
use crate::machine::state_inv;
use crate::machine::steps;
use crate::machine::swapped;
use crate::machine::terminates;
use crate::opcode::BranchCondition;
use crate::opcode::JumpOffset;
use crate::opcode::Literal;
use crate::opcode::Operation;
use crate::opcode::ProgramPos;
use crate::opcode::StackPos;
use crate::opcode::VmError;
use crate::opcode::Opcode;
use crate::table::CallFrame;
use crate::table::Function;
use crate::table::find_start;
use crate::table::frame_ok;
use crate::table::table_wf;

verus! {

broadcast use crate::context::lemma_view_fields;

/// The helper `r`eturned and left the context `v1` exactly as the machine
/// transition `ms` prescribes, starting from `v0`: the program and table
/// are untouched, a `Run` outcome is an `Ok` landing in the next state,
/// and a `Stop` outcome is the corresponding error in the stopped state.
pub open spec fn ctx_after(
    v1: CtxView,
    v0: CtxView,
    ms: MachineState,
    r: Result<(), VmError>,
) -> bool {
    &&& v1.program == v0.program
    &&& v1.table == v0.table
    &&& match ms {
        MachineState::Run(s2) => r is Ok && vm_state(v1) == s2,
        MachineState::Stop(s2, e) => r == Err::<(), VmError>(e) && vm_state(v1) == s2,
    }
}

impl Context {
    /// Pops the top of the data stack; `StackUnderflow` when it is empty.
    pub(crate) fn pop(&mut self) -> (r: Result<Literal, VmError>)
        ensures
            final(self)@.program == old(self)@.program,
            final(self)@.table == old(self)@.table,
            final(self)@.counter == old(self)@.counter,
            final(self)@.fun == old(self)@.fun,
            final(self)@.fun_idx == old(self)@.fun_idx,
            final(self)@.calls == old(self)@.calls,
            match r {
                Ok(v) => old(self)@.data.len() > 0 && v == old(self)@.data.last() && final(self)@.data == old(self)@.data.drop_last(),
                Err(e) => e == VmError::StackUnderflow && old(self)@.data.len() == 0 && final(self)@.data == old(self)@.data,
            },
    {
        match self.data_stack.pop() {
            Some(v) => Ok(v),
            None => Err(VmError::StackUnderflow),
        }
    }

    /// Reads the top of the data stack without popping it.
    pub(crate) fn top(&self) -> (r: Result<Literal, VmError>)
        ensures
            match r {
                Ok(v) => self@.data.len() > 0 && v == self@.data.last(),
                Err(e) => e == VmError::StackUnderflow && self@.data.len() == 0,
            },
    {
        let len = self.data_stack.len();
        if len == 0 {
            Err(VmError::StackUnderflow)
        } else {
            Ok(self.data_stack[len - 1])
        }
    }

    /// Pushes a copy of the top of the data stack.
    pub(crate) fn dup(&mut self) -> (r: Result<(), VmError>)
        ensures
            final(self)@.program == old(self)@.program,
            final(self)@.table == old(self)@.table,
            final(self)@.counter == old(self)@.counter,
            final(self)@.fun == old(self)@.fun,
            final(self)@.fun_idx == old(self)@.fun_idx,
            final(self)@.calls == old(self)@.calls,
            match r {
                Ok(()) => old(self)@.data.len() > 0 && final(self)@.data == old(self)@.data.push(
                    old(self)@.data.last(),
                ),
                Err(e) => e == VmError::StackUnderflow && old(self)@.data.len() == 0 && final(self)@.data == old(self)@.data,
            },
    {
        match self.top() {
            Ok(v) => {
                self.data_stack.push(v);
                Ok(())
            },
            Err(e) => Err(e),
        }
    }

    /// Exchanges the top of the data stack with the element `pos` places
    /// below it (`pos = 0` exchanges the top with itself); fails with
    /// `InvalidStackPosition` when `pos` exceeds the current depth minus
    /// one, in particular on an empty stack.
    pub(crate) fn swap(&mut self, pos: StackPos) -> (r: Result<(), VmError>)
        ensures
            final(self)@.program == old(self)@.program,
            final(self)@.table == old(self)@.table,
            final(self)@.counter == old(self)@.counter,
            final(self)@.fun == old(self)@.fun,
            final(self)@.fun_idx == old(self)@.fun_idx,
            final(self)@.calls == old(self)@.calls,
            match r {
                Ok(()) => pos < old(self)@.data.len() && final(self)@.data == swapped(
                    old(self)@.data,
                    pos as int,
                ),
                Err(e) => e == VmError::InvalidStackPosition && pos >= old(self)@.data.len()
                    && final(self)@.data == old(self)@.data,
            },
    {
        let len = self.data_stack.len();
        if pos >= len {
            return Err(VmError::InvalidStackPosition);
        }
        let last = len - 1;
        let a = self.data_stack[last];
        let b = self.data_stack[last - pos];
        self.data_stack.set(last, b);
        self.data_stack.set(last - pos, a);
        proof {
            assert(self@.data =~= swapped(old(self)@.data, pos as int));
        }
        Ok(())
    }

    /// Applies `op` to the two topmost values: the most recently pushed is
    /// popped first (`x`), then the next (`y`), and `x op y` is pushed.
    /// Fails with `StackUnderflow` on fewer than two values and with
    /// `DivisionByZero` when `op` divides by a zero `y`.
    pub(crate) fn binop(&mut self, op: Operation) -> (r: Result<(), VmError>)
        ensures
            ctx_after(final(self)@, old(self)@, binop_step(op, vm_state(old(self)@)), r),
    {
        let ghost ms = binop_step(op, vm_state(old(self)@));
        let a = match self.pop() {
            Ok(v) => v,
            Err(e) => {
                return Err(e);
            },
        };
        let b = match self.pop() {
            Ok(v) => v,
            Err(e) => {
                return Err(e);
            },
        };
        let v = match op {
            Operation::Add => a.wrapping_add(b),
            Operation::Sub => a.wrapping_sub(b),
            Operation::Mul => a.wrapping_mul(b),
            Operation::Div => {
                if b == 0 {
                    return Err(VmError::DivisionByZero);
                }
                match a.checked_div(b) {
                    Some(q) => q,
                    None => i32::MIN,
                }
            },
            Operation::Mod => {
                if b == 0 {
                    return Err(VmError::DivisionByZero);
                }
                match a.checked_rem(b) {
                    Some(m) => m,
                    None => 0,
                }
            },
        };
        self.data_stack.push(v);
        proof {
            assert(vm_state(self@) =~= ms.state());
        }
        Ok(())
    }

    /// A bounds-checked jump: the target is the position of the jumping
    /// instruction itself (`counter - 1`, the counter having just been
    /// advanced) plus `offset`. Targets are validated against the current
    /// function's range alone: before its start the fault is
    /// `JumpOffsetTooSmall`, beyond one past its end `JumpOffsetTooLarge`.
    pub(crate) fn jump(&mut self, offset: JumpOffset) -> (r: Result<(), VmError>)
        requires
            old(self)@.counter >= 1,
            old(self)@.fun.end_pos < usize::MAX,
        ensures
            ctx_after(final(self)@, old(self)@, jump_step(vm_state(old(self)@), offset), r),
    {
        let ghost ms = jump_step(vm_state(old(self)@), offset);
        let pos = self.counter - 1;
        let target_opt: Option<usize> = if offset >= 0 {
            pos.checked_add(offset as usize)
        } else {
            pos.checked_sub((-(offset as i32)) as usize)
        };
        match target_opt {
            Some(target) => {
                if target < self.current_fun.start_pos {
                    Err(VmError::JumpOffsetTooSmall)
                } else if target > self.current_fun.end_pos + 1 {
                    Err(VmError::JumpOffsetTooLarge)
                } else {
                    self.counter = target;
                    proof {
                        assert(vm_state(self@) =~= ms.state());
                    }
                    Ok(())
                }
            },
            None => {
                if offset >= 0 {
                    Err(VmError::JumpOffsetTooLarge)
                } else {
                    Err(VmError::JumpOffsetTooSmall)
                }
            },
        }
    }

    /// A conditional branch: reads (does not pop) the top of the data
    /// stack, compares it against zero, and on success jumps exactly as
    /// `Jump` would; on failure execution falls through.
    pub(crate) fn branch(&mut self, cond: BranchCondition, offset: JumpOffset) -> (r: Result<
        (),
        VmError,
    >)
        requires
            old(self)@.counter >= 1,
            old(self)@.fun.end_pos < usize::MAX,
        ensures
            ctx_after(final(self)@, old(self)@, branch_step(cond, offset, vm_state(old(self)@)), r),
    {
        let a = match self.top() {
            Ok(v) => v,
            Err(e) => {
                return Err(e);
            },
        };
        let take = match cond {
            BranchCondition::Equal => a == 0,
            BranchCondition::NotEqual => a != 0,
            BranchCondition::GreaterThan => a > 0,
            BranchCondition::LessThan => a < 0,
            BranchCondition::GreaterEqual => a >= 0,
            BranchCondition::LessEqual => a <= 0,
        };
        if take {
            self.jump(offset)
        } else {
            Ok(())
        }
    }

    /// Exact-start-position lookup of a call target: a position that is
    /// not the entry point of a linked function is rejected with
    /// `InvalidFunctionPosition`, never treated as a jump into a function's
    /// middle.
    pub(crate) fn get_fun(&self, function_pos: ProgramPos) -> (r: Result<(Function, usize), VmError>)
        ensures
            match r {
                Ok((f, i)) => find_start(self@.table, function_pos as int) == Some((f, i as int)),
                Err(e) => e == VmError::InvalidFunctionPosition && find_start(
                    self@.table,
                    function_pos as int,
                ) is None,
            },
    {
        match self.functions.search_start_pos(function_pos) {
            Some((f, i)) => Ok((f, i)),
            None => Err(VmError::InvalidFunctionPosition),
        }
    }

    /// A call: pushes a frame recording this `Call`'s own position and the
    /// caller's start, moves the counter to `function_pos`, and adopts the
    /// callee's bounds; fails with `InvalidFunctionPosition` when the
    /// target is not an exact function entry point.
    pub(crate) fn call(&mut self, function_pos: ProgramPos) -> (r: Result<(), VmError>)
        requires
            old(self)@.counter >= 1,
        ensures
            ctx_after(
                final(self)@,
                old(self)@,
                call_step(old(self)@.table, vm_state(old(self)@), function_pos),
                r,
            ),
    {
        let ghost ms = call_step(old(self)@.table, vm_state(old(self)@), function_pos);
        // the counter was already advanced past this instruction
        let frame = CallFrame {
            return_pos: self.counter - 1,
            function_start: self.current_fun.start_pos,
        };
        self.call_stack.push(frame);
        self.counter = function_pos;
        match self.get_fun(function_pos) {
            Ok((fun, pos)) => {
                self.current_fun = fun;
                self.current_fun_pos = pos;
                proof {
                    assert(vm_state(self@) =~= ms.state());
                }
                Ok(())
            },
            Err(e) => {
                proof {
                    assert(vm_state(self@) =~= ms.state());
                }
                Err(e)
            },
        }
    }

    /// A return, explicit or implicit: pops the call stack, failing with
    /// the terminal `Halted` when it is empty, and otherwise resumes just
    /// after the recorded `Call`, restoring the caller's bounds by
    /// exact-start-position lookup.
    pub(crate) fn ret(&mut self) -> (r: Result<(), VmError>)
        requires
            old(self)@.calls.len() > 0 ==> old(self)@.calls.last().return_pos < usize::MAX,
        ensures
            ctx_after(
                final(self)@,
                old(self)@,
                ret_step(old(self)@.table, vm_state(old(self)@)),
                r,
            ),
    {
        let ghost ms = ret_step(old(self)@.table, vm_state(old(self)@));
        match self.call_stack.pop() {
            None => Err(VmError::Halted),
            Some(frame) => {
                self.counter = frame.return_pos + 1;
                match self.get_fun(frame.function_start) {
                    Ok((fun, pos)) => {
                        self.current_fun = fun;
                        self.current_fun_pos = pos;
                        proof {
                            assert(vm_state(self@) =~= ms.state());
                        }
                        Ok(())
                    },
                    Err(e) => {
                        proof {
                            assert(vm_state(self@) =~= ms.state());
                        }
                        Err(e)
                    },
                }
            },
        }
    }

    /// The name of the function the counter currently sits in: before the
    /// first step, the entry function's name.
    pub fn fun_name(&self) -> (r: &str)
        requires
            0 <= self@.fun_idx < self@.table.len(),
        ensures
            r@ == self@.table[self@.fun_idx].1@,
    {
        self.functions.name_at(self.current_fun_pos)
    }

    /// One fetch/decode/execute step: reads the instruction under the
    /// counter, advances the counter past it, and dispatches — exactly the
    /// machine's transition from the current state.
    pub(crate) fn step(&mut self) -> (r: Result<(), VmError>)
        requires
            table_wf(old(self)@.table, old(self)@.program.len() as int),
            state_inv(old(self)@.program, old(self)@.table, vm_state(old(self)@)),
            old(self)@.counter <= old(self)@.fun.end_pos,
        ensures
            ctx_after(
                final(self)@,
                old(self)@,
                crate::machine::step(old(self)@.program, old(self)@.table, vm_state(old(self)@)),
                r,
            ),
    {
        let ghost s = vm_state(old(self)@);
        let ghost ms = crate::machine::step(old(self)@.program, old(self)@.table, s);
        let plen = self.program.len();
        proof {
            assert(self@.table[self@.fun_idx].0 == self@.fun);
            assert(self@.fun.end_pos < plen);
        }
        let instr = self.program[self.counter];
        self.counter += 1;
        proof {
            assert(vm_state(self@) =~= advanced(s));
        }
        match instr {
            Opcode::Push(val) => {
                self.data_stack.push(val);
                proof {
                    assert(vm_state(self@) =~= ms.state());
                }
                Ok(())
            },
            Opcode::Pop => {
                let r = match self.pop() {
                    Ok(_) => Ok(()),
                    Err(e) => Err(e),
                };
                proof {
                    assert(vm_state(self@) =~= ms.state());
                }
                r
            },
            Opcode::Dup => {
                let r = self.dup();
                proof {
                    assert(vm_state(self@) =~= ms.state());
                }
                r
            },
            Opcode::Swap(stack_pos) => {
                let r = self.swap(stack_pos);
                proof {
                    assert(vm_state(self@) =~= ms.state());
                }
                r
            },
            Opcode::BinOp(op) => self.binop(op),
            Opcode::Branch(cond, offset) => self.branch(cond, offset),
            Opcode::Jump(offset) => self.jump(offset),
            Opcode::Call(function_pos) => self.call(function_pos),
            Opcode::Return => {
                proof {
                    if self@.calls.len() > 0 {
                        assert(frame_ok(self@.table, self@.calls[self@.calls.len() - 1]));
                        let fr = self@.calls.last();
                        let k = choose|k: int|
                            0 <= k < self@.table.len() && (#[trigger] self@.table[k]).0.start_pos
                                == fr.function_start && self@.table[k].0.start_pos <= fr.return_pos
                                <= self@.table[k].0.end_pos;
                        assert(self@.table[k].0.end_pos < plen);
                    }
                }
                self.ret()
            },
        }
    }

    /// Runs the program to a terminal condition, starting (by convention)
    /// at the first function linked, and reports the final data stack
    /// together with the terminal reason: `Halted` for the designed
    /// completion — a return with an empty call stack — and a descriptive
    /// fault otherwise, with the data stack at the moment of failure kept
    /// for diagnosis. An empty program reports `ThereIsNoCode` at once.
    ///
    /// Non-terminating programs are the caller's responsibility (there is
    /// no step budget): termination of the linked program is required, and
    /// the result is pinned to the machine's unique terminal outcome.
    #[verifier::loop_isolation(false)]
    pub fn run(&mut self) -> (r: (Vec<Literal>, VmError))
        requires
            old(self).wf(),
            old(self)@.program.len() > 0 ==> terminates(
                old(self)@.program,
                old(self)@.table,
                init_state(old(self)@),
            ),
        ensures
            final(self).wf(),
            final(self)@.program == old(self)@.program,
            final(self)@.table == old(self)@.table,
            old(self)@.program.len() == 0 ==> r.0@ == Seq::<i32>::empty() && r.1
                == VmError::ThereIsNoCode && final(self)@ == old(self)@,
            old(self)@.program.len() > 0 ==> {
                &&& runs_to(
                    old(self)@.program,
                    old(self)@.table,
                    init_state(old(self)@),
                    vm_state(final(self)@),
                    r.1,
                )
                &&& r.0@ == final(self)@.data
            },
    {
        let plen = self.program.len();
        if plen == 0 {
            return (Vec::new(), VmError::ThereIsNoCode);
        }
        proof {
            assert(self@.table.len() > 0);
        }
        let f0 = self.functions.range_at(self.current_fun_pos);
        self.current_fun = f0;
        let ghost p = self@.program;
        let ghost t = self@.table;
        let ghost s0 = vm_state(self@);
        proof {
            assert(s0 =~= init_state(old(self)@));
            assert(state_inv(p, t, s0));
        }
        let ghost n_total = choose|nn: nat| steps(p, t, MachineState::Run(s0), nn).is_stop();
        let ghost mut n: nat = 0;
        let mut stop: Option<VmError> = None;
        while stop.is_none()
            invariant
                self@.program == p,
                self@.table == t,
                state_inv(p, t, vm_state(self@)),
                n <= n_total,
                match stop {
                    None => steps(p, t, MachineState::Run(s0), n) == MachineState::Run(
                        vm_state(self@),
                    ),
                    Some(e) => steps(p, t, MachineState::Run(s0), n) == MachineState::Stop(
                        vm_state(self@),
                        e,
                    ),
                },
            decreases n_total - n,
        {
            proof {
                lemma_steps_succ(p, t, MachineState::Run(s0), n);
                lemma_step_preserves_inv(p, t, vm_state(self@));
            }
            let res = if self.counter > self.current_fun.end_pos {
                proof {
                    if self@.calls.len() > 0 {
                        assert(frame_ok(self@.table, self@.calls[self@.calls.len() - 1]));
                        let fr = self@.calls.last();
                        let k = choose|k: int|
                            0 <= k < self@.table.len() && (#[trigger] self@.table[k]).0.start_pos
                                == fr.function_start && self@.table[k].0.start_pos <= fr.return_pos
                                <= self@.table[k].0.end_pos;
                        assert(self@.table[k].0.end_pos < plen);
                    }
                }
                self.ret()
            } else {
                self.step()
            };
            proof {
                n = n + 1;
                if n > n_total {
                    lemma_steps_absorb(p, t, MachineState::Run(s0), n_total, (n - 1) as nat);
                    assert(false);
                }
            }
            match res {
                Ok(()) => {},
                Err(e) => {
                    stop = Some(e);
                },
            }
        }
        let e = stop.unwrap();
        let mut out: Vec<Literal> = Vec::new();
        let m = self.data_stack.len();
        let mut i: usize = 0;
        while i < m
            invariant
                i <= m,
                out@ =~= self@.data.subrange(0, i as int),
            decreases m - i,
        {
            out.push(self.data_stack[i]);
            i += 1;
        }
        proof {
            assert(out@ =~= self@.data);
            assert(steps(p, t, MachineState::Run(s0), n) == MachineState::Stop(vm_state(self@), e));
            assert(runs_to(p, t, s0, vm_state(self@), e));
        }
        (out, e)
    }
}

} // verus!
