//! The linker and interpreter context: one flat program, its function
//! table, and the execution state (counter, current function bounds, data
//! stack, call stack), all owned by a single instance.

use vstd::prelude::*;

use crate::machine::VmState;
use crate::opcode::Literal;
use crate::opcode::Opcode;
use crate::opcode::ProgramPos;
use crate::table::CallFrame;
use crate::table::Function;
use crate::table::FunctionTable;
use crate::table::frame_ok;
use crate::table::prog_resolved;
use crate::table::table_wf;

verus! {

/// Ghost image of a `Context`: its structural part (program and table) and
/// its execution state.
#[verifier::ext_equal]
pub struct CtxView {
    pub counter: int,
    pub fun: Function,
    pub fun_idx: int,
    pub program: Seq<Opcode<usize>>,
    pub table: Seq<(Function, String)>,
    pub data: Seq<i32>,
    pub calls: Seq<CallFrame>,
}

/// The execution-state part of a context, as the machine of `machine` sees
/// it.
pub open spec fn vm_state(v: CtxView) -> VmState {
    VmState { counter: v.counter, fun: v.fun, fun_idx: v.fun_idx, data: v.data, calls: v.calls }
}

/// The state execution begins from: the cached function bounds are
/// refreshed from the table entry at the current function index (index
/// zero on a fresh context, so the first function linked — conventionally
/// `main` — is the entry function).
pub open spec fn init_state(v: CtxView) -> VmState {
    VmState {
        counter: v.counter,
        fun: v.table[v.fun_idx].0,
        fun_idx: v.fun_idx,
        data: v.data,
        calls: v.calls,
    }
}

/// The VM's program, function table, data stack, and call stack.
///
/// A program is built by one or more `link` calls and then executed by
/// `run`; both phases keep `wf` as their invariant.
pub struct Context {
    pub(crate) counter: ProgramPos,
    pub(crate) current_fun: Function,
    pub(crate) current_fun_pos: usize,
    pub(crate) functions: FunctionTable,
    pub(crate) program: Vec<Opcode<ProgramPos>>,
    pub(crate) data_stack: Vec<Literal>,
    pub(crate) call_stack: Vec<CallFrame>,
}

impl View for Context {
    type V = CtxView;

    closed spec fn view(&self) -> CtxView {
        CtxView {
            counter: self.counter as int,
            fun: self.current_fun,
            fun_idx: self.current_fun_pos as int,
            program: self.program@,
            table: self.functions@,
            data: self.data_stack@,
            calls: self.call_stack@,
        }
    }
}

/// How a context's ghost image is laid over its fields; the view itself
/// stays closed, this lemma serves the crate's other modules.
pub(crate) broadcast proof fn lemma_view_fields(c: &Context)
    ensures
        (#[trigger] c@).counter == c.counter as int,
        c@.fun == c.current_fun,
        c@.fun_idx == c.current_fun_pos as int,
        c@.program == c.program@,
        c@.table == c.functions@,
        c@.data == c.data_stack@,
        c@.calls == c.call_stack@,
{
}

impl Context {
    /// Well-formedness: the table tiles the program, every call target in
    /// the program is a function entry point, the current function index
    /// points at a real table entry with the counter inside that entry's
    /// range (or one past its end), and every call frame points back into
    /// the table. The cached bounds themselves are refreshed from the
    /// index when `run` starts.
    pub open spec fn wf(self) -> bool {
        let v = self@;
        &&& table_wf(v.table, v.program.len() as int)
        &&& prog_resolved(v.program, v.table)
        &&& (v.table.len() > 0 ==> {
            &&& 0 <= v.fun_idx < v.table.len()
            &&& v.table[v.fun_idx].0.start_pos <= v.counter <= v.table[v.fun_idx].0.end_pos + 1
        })
        &&& (v.table.len() == 0 ==> v.counter == 0 && v.fun_idx == 0)
        &&& forall|j: int| 0 <= j < v.calls.len() ==> frame_ok(v.table, #[trigger] v.calls[j])
    }

    /// A fresh context: no program, no functions, empty stacks.
    pub fn new() -> (c: Context)
        ensures
            c.wf(),
            c@.program.len() == 0,
            c@.table.len() == 0,
            c@.data.len() == 0,
            c@.calls.len() == 0,
            c@.counter == 0,
    {
        Context {
            counter: 0,
            current_fun: Function { start_pos: 0, end_pos: 0 },
            current_fun_pos: 0,
            functions: FunctionTable::empty(),
            program: Vec::new(),
            data_stack: Vec::new(),
            call_stack: Vec::new(),
        }
    }
}

} // verus!
