//! The mathematical semantics of execution: a deterministic small-step
//! machine over ghost states. The interpreter in `context` is proved to
//! follow this machine step for step, so every property established here
//! carries over to the executable code.

use vstd::prelude::*;

use crate::opcode::BranchCondition;
use crate::opcode::Opcode;
use crate::opcode::Operation;
use crate::opcode::VmError;
use crate::opcode::binop_defined;
use crate::opcode::binop_value;
use crate::opcode::cond_holds;
use crate::table::CallFrame;
use crate::table::Function;
use crate::table::find_start;
use crate::table::frame_ok;
use crate::table::lemma_find_start;
use crate::table::op_target_ok;
use crate::table::prog_resolved;
use crate::table::table_wf;

verus! {

/// The mutable part of an execution: program counter, the bounds and index
/// of the function owning the counter, and the two stacks. The flat program
/// and the function table do not change while the machine runs, so they are
/// passed separately.
#[verifier::ext_equal]
pub struct VmState {
    pub counter: int,
    pub fun: Function,
    pub fun_idx: int,
    pub data: Seq<i32>,
    pub calls: Seq<CallFrame>,
}

/// A machine that is either still running or has produced a terminal
/// condition. The state at the moment of stopping is kept, because the
/// interpreter reports the data stack of that state.
pub enum MachineState {
    Run(VmState),
    Stop(VmState, VmError),
}

impl MachineState {
    pub open spec fn is_stop(self) -> bool {
        match self {
            MachineState::Stop(_, _) => true,
            MachineState::Run(_) => false,
        }
    }

    /// The state carried by the machine, running or stopped.
    pub open spec fn state(self) -> VmState {
        match self {
            MachineState::Run(s) => s,
            MachineState::Stop(s, _) => s,
        }
    }
}

/// `s` with the program counter moved past the instruction just fetched.
pub open spec fn advanced(s: VmState) -> VmState {
    VmState { counter: s.counter + 1, ..s }
}

/// Return, explicit or implicit: with an empty call stack it is the one
/// non-error termination, `Halted`; otherwise execution resumes just after
/// the recorded `Call` and the caller's bounds are restored by exact
/// start-position lookup.
pub open spec fn ret_step(t: Seq<(Function, String)>, s: VmState) -> MachineState {
    if s.calls.len() == 0 {
        MachineState::Stop(s, VmError::Halted)
    } else {
        let frame = s.calls.last();
        let s1 = VmState { counter: frame.return_pos + 1, calls: s.calls.drop_last(), ..s };
        match find_start(t, frame.function_start as int) {
            Some((f, i)) => MachineState::Run(VmState { fun: f, fun_idx: i, ..s1 }),
            None => MachineState::Stop(s1, VmError::InvalidFunctionPosition),
        }
    }
}

/// A bounds-checked jump. The target is the position of the jumping
/// instruction itself plus `offset`; `s` already has the counter advanced,
/// so that position is `s.counter - 1`. Targets are validated against the
/// current function's range alone; the position one past its end is
/// admitted and falls through to an implicit return.
pub open spec fn jump_step(s: VmState, offset: i16) -> MachineState {
    let target = s.counter - 1 + offset;
    if target < s.fun.start_pos {
        MachineState::Stop(s, VmError::JumpOffsetTooSmall)
    } else if target > s.fun.end_pos + 1 {
        MachineState::Stop(s, VmError::JumpOffsetTooLarge)
    } else {
        MachineState::Run(VmState { counter: target, ..s })
    }
}

/// A call: a frame recording the `Call`'s own position and the caller's
/// start is pushed and the counter moves to `target`, which must be the
/// exact entry point of a linked function; any other target is the fault
/// `InvalidFunctionPosition`.
pub open spec fn call_step(t: Seq<(Function, String)>, s: VmState, target: usize) -> MachineState {
    let frame = CallFrame {
        return_pos: (s.counter - 1) as usize,
        function_start: s.fun.start_pos,
    };
    let s1 = VmState { counter: target as int, calls: s.calls.push(frame), ..s };
    match find_start(t, target as int) {
        Some((f, i)) => MachineState::Run(VmState { fun: f, fun_idx: i, ..s1 }),
        None => MachineState::Stop(s1, VmError::InvalidFunctionPosition),
    }
}

/// A binary operation: the most recently pushed operand `x` is popped
/// first, then `y`, and `x op y` is pushed. Underflow loses the operands
/// popped before the failure, exactly as the interpreter does.
pub open spec fn binop_step(op: Operation, s: VmState) -> MachineState {
    if s.data.len() < 2 {
        let data = if s.data.len() == 1 {
            s.data.drop_last()
        } else {
            s.data
        };
        MachineState::Stop(VmState { data, ..s }, VmError::StackUnderflow)
    } else {
        let x = s.data.last();
        let y = s.data.drop_last().last();
        let rest = s.data.drop_last().drop_last();
        if binop_defined(op, y) {
            MachineState::Run(VmState { data: rest.push(binop_value(op, x, y)), ..s })
        } else {
            MachineState::Stop(VmState { data: rest, ..s }, VmError::DivisionByZero)
        }
    }
}

/// A conditional branch: the value on top of the data stack is read (not
/// popped) and compared against zero; when the comparison holds the branch
/// jumps exactly as `Jump` would, otherwise execution falls through.
pub open spec fn branch_step(cond: BranchCondition, offset: i16, s: VmState) -> MachineState {
    if s.data.len() == 0 {
        MachineState::Stop(s, VmError::StackUnderflow)
    } else if cond_holds(cond, s.data.last()) {
        jump_step(s, offset)
    } else {
        MachineState::Run(s)
    }
}

/// The data stack with the top element exchanged with the element `k`
/// positions below it.
pub open spec fn swapped(data: Seq<i32>, k: int) -> Seq<i32> {
    let l = data.len() - 1;
    data.update(l, data[l - k]).update(l - k, data[l])
}

/// One step of the machine from a running state: an implicit return once
/// the counter leaves the current function's range, otherwise fetch,
/// advance, dispatch.
pub open spec fn step(p: Seq<Opcode<usize>>, t: Seq<(Function, String)>, s: VmState) -> MachineState {
    if s.counter > s.fun.end_pos {
        ret_step(t, s)
    } else {
        let s1 = advanced(s);
        match p[s.counter] {
            Opcode::Push(v) => MachineState::Run(VmState { data: s1.data.push(v), ..s1 }),
            Opcode::Pop => if s1.data.len() == 0 {
                MachineState::Stop(s1, VmError::StackUnderflow)
            } else {
                MachineState::Run(VmState { data: s1.data.drop_last(), ..s1 })
            },
            Opcode::Dup => if s1.data.len() == 0 {
                MachineState::Stop(s1, VmError::StackUnderflow)
            } else {
                MachineState::Run(VmState { data: s1.data.push(s1.data.last()), ..s1 })
            },
            Opcode::Swap(k) => if k >= s1.data.len() {
                MachineState::Stop(s1, VmError::InvalidStackPosition)
            } else {
                MachineState::Run(VmState { data: swapped(s1.data, k as int), ..s1 })
            },
            Opcode::BinOp(op) => binop_step(op, s1),
            Opcode::Branch(cond, offset) => branch_step(cond, offset, s1),
            Opcode::Jump(offset) => jump_step(s1, offset),
            Opcode::Call(target) => call_step(t, s1, target),
            Opcode::Return => ret_step(t, s1),
        }
    }
}

/// `n` steps of the machine; a stopped machine stays stopped, so the
/// terminal outcome of a run is independent of the step count that
/// witnesses it.
pub open spec fn steps(
    p: Seq<Opcode<usize>>,
    t: Seq<(Function, String)>,
    ms: MachineState,
    n: nat,
) -> MachineState
    decreases n,
{
    if n == 0 {
        ms
    } else {
        match ms {
            MachineState::Stop(_, _) => ms,
            MachineState::Run(s) => steps(p, t, step(p, t, s), (n - 1) as nat),
        }
    }
}

/// Execution from `s0` reaches the terminal condition `e` in state `s1`.
pub open spec fn runs_to(
    p: Seq<Opcode<usize>>,
    t: Seq<(Function, String)>,
    s0: VmState,
    s1: VmState,
    e: VmError,
) -> bool {
    exists|n: nat| steps(p, t, MachineState::Run(s0), n).is_stop()
        && steps(p, t, MachineState::Run(s0), n) == MachineState::Stop(s1, e)
}

/// Execution from `s0` reaches some terminal condition.
pub open spec fn terminates(
    p: Seq<Opcode<usize>>,
    t: Seq<(Function, String)>,
    s0: VmState,
) -> bool {
    exists|n: nat| steps(p, t, MachineState::Run(s0), n).is_stop()
}

/// Whether `ms` has stopped with exactly the terminal condition `e`.
pub open spec fn is_stop_with(ms: MachineState, e: VmError) -> bool {
    match ms {
        MachineState::Stop(_, e2) => e2 == e,
        MachineState::Run(_) => false,
    }
}

/// Whether the machine at `s` is about to return: the counter has run past
/// the current function's end (implicit return) or rests on an explicit
/// `Return`.
pub open spec fn at_return_point(p: Seq<Opcode<usize>>, s: VmState) -> bool {
    s.counter > s.fun.end_pos || (match p[s.counter] {
        Opcode::Return => true,
        _ => false,
    })
}

/// Returning with an empty call stack is the unique path to the successful
/// `Halted` termination: one step stops with `Halted` exactly when the
/// machine is at a return point with no frame left to pop — no other
/// instruction and no fault produces `Halted` — and such a stop hands the
/// data stack over untouched.
pub proof fn lemma_halted_iff_final_return(
    p: Seq<Opcode<usize>>,
    t: Seq<(Function, String)>,
    s: VmState,
)
    ensures
        is_stop_with(step(p, t, s), VmError::Halted) <==> (s.calls.len() == 0 && at_return_point(
            p,
            s,
        )),
        is_stop_with(step(p, t, s), VmError::Halted) ==> step(p, t, s).state().data == s.data
            && step(p, t, s).state().calls == s.calls,
{
}

/// Along a whole run: a `Halted` outcome can only have come through the
/// final-return path, so the state it stops in has no call frame left.
pub proof fn lemma_halted_requires_empty_call_stack(
    p: Seq<Opcode<usize>>,
    t: Seq<(Function, String)>,
    s0: VmState,
    s1: VmState,
)
    requires
        runs_to(p, t, s0, s1, VmError::Halted),
    ensures
        s1.calls.len() == 0,
{
    let n = choose|n: nat|
        steps(p, t, MachineState::Run(s0), n).is_stop() && steps(p, t, MachineState::Run(s0), n)
            == MachineState::Stop(s1, VmError::Halted);
    lemma_halted_trace(p, t, s0, n, s1);
}

/// Induction behind `lemma_halted_requires_empty_call_stack`: walking the
/// run forward, the step that produces `Halted` is a return on an empty
/// call stack, and it hands that (empty) call stack to the stop state.
proof fn lemma_halted_trace(
    p: Seq<Opcode<usize>>,
    t: Seq<(Function, String)>,
    s: VmState,
    n: nat,
    s1: VmState,
)
    requires
        steps(p, t, MachineState::Run(s), n) == MachineState::Stop(s1, VmError::Halted),
    ensures
        s1.calls.len() == 0,
    decreases n,
{
    let msx = step(p, t, s);
    assert(n > 0);
    assert(steps(p, t, MachineState::Run(s), n) == steps(p, t, msx, (n - 1) as nat));
    match msx {
        MachineState::Run(s2) => {
            lemma_halted_trace(p, t, s2, (n - 1) as nat, s1);
        },
        MachineState::Stop(_, _) => {
            lemma_steps_absorb(p, t, msx, 0, (n - 1) as nat);
            assert(msx == MachineState::Stop(s1, VmError::Halted));
            lemma_halted_iff_final_return(p, t, s);
            assert(s.calls.len() == 0);
            assert(s1.calls == s.calls);
        },
    }
}

/// What every reachable state satisfies while the machine runs on a linked
/// context: the cached function bounds are a real table entry, the counter
/// is at most one past that entry's end, and every call frame points back
/// into the table.
pub open spec fn state_inv(
    p: Seq<Opcode<usize>>,
    t: Seq<(Function, String)>,
    s: VmState,
) -> bool {
    &&& t.len() > 0
    &&& 0 <= s.fun_idx < t.len()
    &&& t[s.fun_idx].0 == s.fun
    &&& s.fun.start_pos <= s.counter <= s.fun.end_pos + 1
    &&& forall|j: int| 0 <= j < s.calls.len() ==> frame_ok(t, #[trigger] s.calls[j])
}

/// Taking one more step applies `step` to wherever the machine got so far.
pub proof fn lemma_steps_succ(
    p: Seq<Opcode<usize>>,
    t: Seq<(Function, String)>,
    ms: MachineState,
    n: nat,
)
    ensures
        steps(p, t, ms, n).is_stop() ==> steps(p, t, ms, n + 1) == steps(p, t, ms, n),
        !steps(p, t, ms, n).is_stop() ==> steps(p, t, ms, n + 1) == step(
            p,
            t,
            steps(p, t, ms, n).state(),
        ),
    decreases n,
{
    match ms {
        MachineState::Stop(_, _) => {
            assert(steps(p, t, ms, 0) == ms);
            lemma_steps_absorb(p, t, ms, 0, n);
            lemma_steps_absorb(p, t, ms, 0, n + 1);
            assert(steps(p, t, ms, n) == ms);
            assert(steps(p, t, ms, n + 1) == ms);
        },
        MachineState::Run(s) => {
            let ms2 = step(p, t, s);
            assert(steps(p, t, ms, n + 1) == steps(p, t, ms2, n));
            if n > 0 {
                lemma_steps_succ(p, t, ms2, (n - 1) as nat);
                assert(steps(p, t, ms, n) == steps(p, t, ms2, (n - 1) as nat));
            } else {
                assert(steps(p, t, ms2, 0) == ms2);
                assert(steps(p, t, ms, 0) == ms);
            }
        },
    }
}

/// Once stopped, the machine stays stopped: any longer step count yields
/// the same terminal outcome.
pub proof fn lemma_steps_absorb(
    p: Seq<Opcode<usize>>,
    t: Seq<(Function, String)>,
    ms: MachineState,
    m: nat,
    n: nat,
)
    requires
        m <= n,
        steps(p, t, ms, m).is_stop(),
    ensures
        steps(p, t, ms, n) == steps(p, t, ms, m),
    decreases n,
{
    if m > 0 {
        match ms {
            MachineState::Stop(_, _) => {
                lemma_steps_absorb(p, t, ms, (m - 1) as nat, (n - 1) as nat);
            },
            MachineState::Run(s) => {
                lemma_steps_absorb(p, t, step(p, t, s), (m - 1) as nat, (n - 1) as nat);
            },
        }
    } else {
        if n > 0 {
            match ms {
                MachineState::Stop(_, _) => {
                    lemma_steps_absorb(p, t, ms, 0, (n - 1) as nat);
                },
                MachineState::Run(_) => {},
            }
        }
    }
}

/// The machine is deterministic: a run from one starting state has at most
/// one terminal outcome, whatever step counts witness it.
pub proof fn lemma_runs_to_unique(
    p: Seq<Opcode<usize>>,
    t: Seq<(Function, String)>,
    s0: VmState,
    s1: VmState,
    e1: VmError,
    s2: VmState,
    e2: VmError,
)
    requires
        runs_to(p, t, s0, s1, e1),
        runs_to(p, t, s0, s2, e2),
    ensures
        s1 == s2,
        e1 == e2,
{
    let n1 = choose|n: nat|
        steps(p, t, MachineState::Run(s0), n).is_stop() && steps(p, t, MachineState::Run(s0), n)
            == MachineState::Stop(s1, e1);
    let n2 = choose|n: nat|
        steps(p, t, MachineState::Run(s0), n).is_stop() && steps(p, t, MachineState::Run(s0), n)
            == MachineState::Stop(s2, e2);
    if n1 <= n2 {
        lemma_steps_absorb(p, t, MachineState::Run(s0), n1, n2);
    } else {
        lemma_steps_absorb(p, t, MachineState::Run(s0), n2, n1);
    }
}

/// One step from an invariant state on a linked program lands in an
/// invariant state, stopped or not: the linker's guarantees rule out the
/// two lookup failures, and every other transition keeps the counter
/// within one past the current function's end.
pub proof fn lemma_step_preserves_inv(
    p: Seq<Opcode<usize>>,
    t: Seq<(Function, String)>,
    s: VmState,
)
    requires
        table_wf(t, p.len() as int),
        prog_resolved(p, t),
        state_inv(p, t, s),
    ensures
        match step(p, t, s) {
            MachineState::Run(s2) => state_inv(p, t, s2),
            MachineState::Stop(s2, _) => state_inv(p, t, s2),
        },
{
    if s.counter > s.fun.end_pos {
        lemma_ret_step_inv(p, t, s);
    } else {
        let s1 = advanced(s);
        assert(state_inv(p, t, s1));
        match p[s.counter] {
            Opcode::Jump(offset) => {},
            Opcode::Branch(cond, offset) => {},
            Opcode::Call(target) => {
                assert(op_target_ok(t, p[s.counter]));
                lemma_find_start(t, target as int);
                let frame = CallFrame {
                    return_pos: (s1.counter - 1) as usize,
                    function_start: s1.fun.start_pos,
                };
                assert(frame_ok(t, frame)) by {
                    assert(0 <= s.fun_idx < t.len() && t[s.fun_idx].0.start_pos
                        == frame.function_start && t[s.fun_idx].0.start_pos <= frame.return_pos
                        <= t[s.fun_idx].0.end_pos);
                }
                match find_start(t, target as int) {
                    Some((f, i)) => {
                        assert(t[i].0 == f && f.start_pos == target);
                    },
                    None => {},
                }
            },
            Opcode::Return => {
                lemma_ret_step_inv(p, t, s1);
            },
            _ => {},
        }
    }
}

/// The instructions that straight-line programs are made of: no control
/// flow, only data-stack work.
pub open spec fn is_simple(op: Opcode<usize>) -> bool {
    match op {
        Opcode::Push(_) => true,
        Opcode::Pop => true,
        Opcode::Swap(_) => true,
        Opcode::BinOp(_) => true,
        _ => false,
    }
}

/// The effect of one straight-line instruction on a data stack, `None`
/// when it faults (underflow, bad swap depth, division by zero).
pub open spec fn simple_step(op: Opcode<usize>, st: Seq<i32>) -> Option<Seq<i32>> {
    match op {
        Opcode::Push(v) => Some(st.push(v)),
        Opcode::Pop => if st.len() >= 1 {
            Some(st.drop_last())
        } else {
            None
        },
        Opcode::Swap(k) => if (k as int) < st.len() {
            Some(swapped(st, k as int))
        } else {
            None
        },
        Opcode::BinOp(o) => if st.len() >= 2 && binop_defined(o, st.drop_last().last()) {
            Some(
                st.drop_last().drop_last().push(
                    binop_value(o, st.last(), st.drop_last().last()),
                ),
            )
        } else {
            None
        },
        _ => None,
    }
}

/// The left-to-right fold of straight-line instructions over a data stack.
pub open spec fn fold_simple(ops: Seq<Opcode<usize>>, st: Seq<i32>) -> Option<Seq<i32>>
    decreases ops.len(),
{
    if ops.len() == 0 {
        Some(st)
    } else {
        match simple_step(ops[0], st) {
            Some(st2) => fold_simple(ops.drop_first(), st2),
            None => None,
        }
    }
}

/// A program that uses only `Push`/`Pop`/`BinOp`/`Swap` from the counter to
/// the current function's end, with no call frame outstanding, ends in
/// `Halted` with the final data stack equal to the left-to-right fold of
/// those operations.
pub proof fn lemma_straight_line(
    p: Seq<Opcode<usize>>,
    t: Seq<(Function, String)>,
    s: VmState,
    out: Seq<i32>,
)
    requires
        s.fun.end_pos < p.len(),
        s.fun.start_pos <= s.counter <= s.fun.end_pos + 1,
        s.calls.len() == 0,
        forall|j: int| s.counter <= j <= s.fun.end_pos ==> is_simple(#[trigger] p[j]),
        fold_simple(p.subrange(s.counter, s.fun.end_pos + 1), s.data) == Some(out),
    ensures
        runs_to(
            p,
            t,
            s,
            (VmState { counter: s.fun.end_pos + 1, data: out, ..s }),
            VmError::Halted,
        ),
    decreases s.fun.end_pos + 1 - s.counter,
{
    let fin = VmState { counter: s.fun.end_pos + 1, data: out, ..s };
    if s.counter > s.fun.end_pos {
        assert(p.subrange(s.counter, s.fun.end_pos + 1).len() == 0);
        assert(out == s.data);
        assert(step(p, t, s) == MachineState::Stop(s, VmError::Halted));
        assert(fin =~= s);
        assert(steps(p, t, MachineState::Run(s), 1) == steps(p, t, step(p, t, s), 0));
        assert(steps(p, t, step(p, t, s), 0) == step(p, t, s));
        assert(steps(p, t, MachineState::Run(s), 1) == MachineState::Stop(s, VmError::Halted));
    } else {
        let ops = p.subrange(s.counter, s.fun.end_pos + 1);
        let op = p[s.counter];
        assert(ops[0] == op);
        assert(ops.len() > 0);
        let st2 = match simple_step(op, s.data) {
            Some(st2) => st2,
            None => s.data,
        };
        assert(simple_step(op, s.data) == Some(st2));
        let s2 = VmState { counter: s.counter + 1, data: st2, ..s };
        let msx = step(p, t, s);
        assert(!msx.is_stop() && msx.state() =~= s2) by {
            let s1 = advanced(s);
            match op {
                Opcode::Push(_) => {},
                Opcode::Pop => {},
                Opcode::Swap(_) => {},
                Opcode::BinOp(_) => {},
                _ => {
                    assert(is_simple(op));
                },
            }
        }
        assert(msx == MachineState::Run(s2));
        assert(ops.drop_first() =~= p.subrange(s2.counter, s2.fun.end_pos + 1));
        lemma_straight_line(p, t, s2, out);
        let fin2 = VmState { counter: s2.fun.end_pos + 1, data: out, ..s2 };
        let n2 = choose|nn: nat|
            steps(p, t, MachineState::Run(s2), nn).is_stop() && steps(
                p,
                t,
                MachineState::Run(s2),
                nn,
            ) == MachineState::Stop(fin2, VmError::Halted);
        assert(steps(p, t, MachineState::Run(s), n2 + 1) == steps(
            p,
            t,
            MachineState::Run(s2),
            n2,
        ));
        assert(fin =~= fin2);
        assert(steps(p, t, MachineState::Run(s), n2 + 1) == MachineState::Stop(
            fin,
            VmError::Halted,
        ));
    }
}

/// The return transition preserves the invariant; with the table's ranges
/// non-overlapping, the entry found by start-position lookup is the very
/// entry the frame was made from, so the resumed counter sits inside it.
proof fn lemma_ret_step_inv(p: Seq<Opcode<usize>>, t: Seq<(Function, String)>, s: VmState)
    requires
        table_wf(t, p.len() as int),
        state_inv(p, t, s),
    ensures
        match ret_step(t, s) {
            MachineState::Run(s2) => state_inv(p, t, s2),
            MachineState::Stop(s2, _) => state_inv(p, t, s2),
        },
{
    if s.calls.len() > 0 {
        let frame = s.calls.last();
        assert(frame_ok(t, frame));
        let k = choose|k: int|
            0 <= k < t.len() && (#[trigger] t[k]).0.start_pos == frame.function_start && t[k].0.start_pos
                <= frame.return_pos <= t[k].0.end_pos;
        lemma_find_start(t, frame.function_start as int);
        match find_start(t, frame.function_start as int) {
            Some((f, i)) => {
                assert(t[i].0 == f && f.start_pos == frame.function_start);
                assert(i == k) by {
                    if i < k {
                        assert(t[i].0.end_pos < t[k].0.start_pos);
                    } else if k < i {
                        assert(t[k].0.end_pos < t[i].0.start_pos);
                    }
                }
                assert(forall|j: int|
                    0 <= j < s.calls.drop_last().len() ==> s.calls.drop_last()[j] == s.calls[j]);
            },
            None => {},
        }
    }
}

} // verus!
