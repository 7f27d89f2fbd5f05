//! The linker: assigns each function of a batch a contiguous absolute range
//! at the end of the flat program, rewrites symbolic call targets into
//! absolute positions, and appends the result. Linking a batch is atomic:
//! if any call target cannot be resolved, the context is left exactly as it
//! was and the batch has no effect.

use vstd::prelude::*;

use crate::context::Context;
use crate::context::CtxView;
use crate::table::op_target_ok;
use crate::opcode::LinkError;
use crate::opcode::Opcode;
use crate::opcode::ProgramPos;
use crate::table::Function;
use crate::table::find_name;
use crate::table::find_start;
use crate::table::lemma_find_name;
use crate::table::lemma_find_start;

verus! {

broadcast use crate::context::lemma_view_fields;

/// Total opcode count of the first `n` functions of a batch.
pub open spec fn batch_len_prefix(b: Seq<(&str, Vec<Opcode<&str>>)>, n: int) -> int
    decreases n,
{
    if n <= 0 {
        0
    } else {
        batch_len_prefix(b, n - 1) + b[n - 1].1@.len()
    }
}

/// Whether `op` needs no resolution, or names a function the table knows.
pub open spec fn op_resolvable(t: Seq<(Function, String)>, op: Opcode<&str>) -> bool {
    match op {
        Opcode::Call(name) => find_name(t, name@) is Some,
        _ => true,
    }
}

/// `op` with a symbolic call target replaced by the absolute start position
/// of the first table entry bearing that name; all other opcodes are copied
/// unchanged.
pub open spec fn resolve_op(t: Seq<(Function, String)>, op: Opcode<&str>) -> Opcode<usize> {
    match op {
        Opcode::Push(v) => Opcode::Push(v),
        Opcode::Pop => Opcode::Pop,
        Opcode::Dup => Opcode::Dup,
        Opcode::Swap(k) => Opcode::Swap(k),
        Opcode::BinOp(o) => Opcode::BinOp(o),
        Opcode::Branch(c, d) => Opcode::Branch(c, d),
        Opcode::Jump(d) => Opcode::Jump(d),
        Opcode::Return => Opcode::Return,
        Opcode::Call(name) => match find_name(t, name@) {
            Some((f, _)) => Opcode::Call(f.start_pos),
            None => Opcode::Call(vstd::pervasive::arbitrary()),
        },
    }
}

/// Every call in `code` resolves against `t`.
pub open spec fn code_resolvable(t: Seq<(Function, String)>, code: Seq<Opcode<&str>>) -> bool {
    forall|j: int| 0 <= j < code.len() ==> op_resolvable(t, #[trigger] code[j])
}

/// `code` with every call target resolved against `t`.
pub open spec fn resolve_code(t: Seq<(Function, String)>, code: Seq<Opcode<&str>>) -> Seq<
    Opcode<usize>,
> {
    Seq::new(code.len(), |j: int| resolve_op(t, code[j]))
}

/// The concatenation of the first `n` functions of the batch, resolved
/// against `t`.
pub open spec fn resolved_prefix(
    t: Seq<(Function, String)>,
    b: Seq<(&str, Vec<Opcode<&str>>)>,
    n: int,
) -> Seq<Opcode<usize>>
    decreases n,
{
    if n <= 0 {
        Seq::empty()
    } else {
        resolved_prefix(t, b, n - 1) + resolve_code(t, b[n - 1].1@)
    }
}

/// `name` is carried by some entry already in the table or by some function
/// of the batch.
pub open spec fn name_known(
    t0: Seq<(Function, String)>,
    b: Seq<(&str, Vec<Opcode<&str>>)>,
    name: Seq<char>,
) -> bool {
    (exists|k: int| 0 <= k < t0.len() && (#[trigger] t0[k]).1@ == name) || (exists|k: int|
        0 <= k < b.len() && (#[trigger] b[k]).0@ == name)
}

/// Every call of the batch names a function that is either already linked
/// or part of the batch itself; this is exactly when linking succeeds.
pub open spec fn batch_resolvable(
    t0: Seq<(Function, String)>,
    b: Seq<(&str, Vec<Opcode<&str>>)>,
) -> bool {
    forall|i: int, j: int|
        0 <= i < b.len() && 0 <= j < b[i].1@.len() ==> match #[trigger] b[i].1@[j] {
            Opcode::Call(name) => name_known(t0, b, name@),
            _ => true,
        }
}

/// The resolved concatenation of a batch prefix is exactly as long as the
/// prefix's opcode count: linking is size-additive.
pub proof fn lemma_resolved_prefix_len(
    t: Seq<(Function, String)>,
    b: Seq<(&str, Vec<Opcode<&str>>)>,
    n: int,
)
    requires
        0 <= n,
    ensures
        resolved_prefix(t, b, n).len() == batch_len_prefix(b, n),
    decreases n,
{
    if n > 0 {
        lemma_resolved_prefix_len(t, b, n - 1);
    }
}

/// How a context looks after a successful `link` of the batch `b` onto the
/// state `v0`: the table grows by one entry per function, tiling ranges
/// onward from the old program end in batch order, and the program grows by
/// the batch's resolved code, in the same order.
pub open spec fn linked_ok(v0: CtxView, b: Seq<(&str, Vec<Opcode<&str>>)>, v1: CtxView) -> bool {
    let n0 = v0.table.len() as int;
    let plen0 = v0.program.len() as int;
    &&& v1.table.len() == n0 + b.len()
    &&& v1.table.subrange(0, n0) == v0.table
    &&& forall|j: int|
        n0 <= j < v1.table.len() ==> {
            let i = j - n0;
            let start = plen0 + batch_len_prefix(b, i);
            &&& (#[trigger] v1.table[j]).0.start_pos == start
            &&& v1.table[j].0.end_pos == start + b[i].1@.len() - 1
            &&& v1.table[j].1@ == b[i].0@
        }
    &&& v1.program == v0.program + resolved_prefix(v1.table, b, b.len() as int)
    &&& v1.program.len() == plen0 + batch_len_prefix(b, b.len() as int)
}

/// Prefix sums of batch lengths are monotone (no function shrinks them).
pub proof fn lemma_batch_len_mono(b: Seq<(&str, Vec<Opcode<&str>>)>, i: int, n: int)
    requires
        i <= n,
    ensures
        batch_len_prefix(b, i) <= batch_len_prefix(b, n),
    decreases n - i,
{
    if i < n {
        lemma_batch_len_mono(b, i, n - 1);
    }
}

impl Context {
    /// Pass one of linking: append one `(range, name)` entry per function
    /// of the batch, tiling ranges onward from the current end of the flat
    /// program. The program itself is not touched.
    pub(crate) fn extend_function_table(&mut self, new_functions: &Vec<(&str, Vec<Opcode<&str>>)>)
        requires
            forall|i: int|
                0 <= i < new_functions@.len() ==> (#[trigger] new_functions@[i]).1@.len() >= 1,
            old(self)@.program.len() + batch_len_prefix(new_functions@, new_functions@.len() as int)
                <= usize::MAX,
        ensures
            final(self)@.program == old(self)@.program,
            final(self)@.data == old(self)@.data,
            final(self)@.calls == old(self)@.calls,
            final(self)@.counter == old(self)@.counter,
            final(self)@.fun == old(self)@.fun,
            final(self)@.fun_idx == old(self)@.fun_idx,
            final(self)@.table.len() == old(self)@.table.len() + new_functions@.len(),
            final(self)@.table.subrange(0, old(self)@.table.len() as int) == old(self)@.table,
            forall|j: int|
                old(self)@.table.len() <= j < final(self)@.table.len() ==> {
                    let b = new_functions@;
                    let i = j - old(self)@.table.len();
                    let start = old(self)@.program.len() + batch_len_prefix(b, i);
                    &&& (#[trigger] final(self)@.table[j]).0.start_pos == start
                    &&& final(self)@.table[j].0.end_pos == start + b[i].1@.len() - 1
                    &&& final(self)@.table[j].1@ == b[i].0@
                },
    {
        let ghost t0 = self@.table;
        let ghost b = new_functions@;
        let ghost plen0 = self@.program.len() as int;
        let n = new_functions.len();
        let mut start_pos: usize = self.program.len();
        let mut i: usize = 0;
        proof {
            assert(batch_len_prefix(b, 0) == 0);
        }
        while i < n
            invariant
                n == b.len(),
                i <= n,
                forall|k: int| 0 <= k < b.len() ==> (#[trigger] b[k]).1@.len() >= 1,
                plen0 + batch_len_prefix(b, b.len() as int) <= usize::MAX,
                start_pos == plen0 + batch_len_prefix(b, i as int),
                self@.program =~= old(self)@.program,
                self@.program.len() == plen0,
                self@.data == old(self)@.data,
                self@.calls == old(self)@.calls,
                self@.counter == old(self)@.counter,
                self@.fun == old(self)@.fun,
                self@.fun_idx == old(self)@.fun_idx,
                new_functions@ == b,
                self@.table.len() == t0.len() + i,
                self@.table.subrange(0, t0.len() as int) =~= t0,
                forall|j: int|
                    t0.len() <= j < self@.table.len() ==> {
                        let k = j - t0.len();
                        let start = plen0 + batch_len_prefix(b, k);
                        &&& (#[trigger] self@.table[j]).0.start_pos == start
                        &&& self@.table[j].0.end_pos == start + b[k].1@.len() - 1
                        &&& self@.table[j].1@ == b[k].0@
                    },
            decreases n - i,
        {
            proof {
                lemma_batch_len_mono(b, i + 1, b.len() as int);
                lemma_batch_len_mono(b, 0, i as int);
                assert(batch_len_prefix(b, i + 1) == batch_len_prefix(b, i as int)
                    + b[i as int].1@.len());
            }
            let code_len = new_functions[i].1.len();
            let end_pos = start_pos + (code_len - 1);
            let name: String = new_functions[i].0.to_owned();
            self.functions.push_entry(Function { start_pos: start_pos, end_pos: end_pos }, name);
            start_pos = end_pos + 1;
            i += 1;
        }
    }

    /// Pass two of linking, for one function: copy its opcodes onto `out`,
    /// rewriting every symbolic call target into the absolute start
    /// position of the first table entry bearing that name. Fails with
    /// `FunctionNameNotFound` exactly when some call names a function the
    /// table does not know.
    #[verifier::loop_isolation(false)]
    pub(crate) fn link_step(
        &self,
        code: &Vec<Opcode<&str>>,
        out: &mut Vec<Opcode<ProgramPos>>,
    ) -> (r: Result<(), LinkError>)
        ensures
            r is Ok <==> code_resolvable(self@.table, code@),
            r is Ok ==> final(out)@ == old(out)@ + resolve_code(self@.table, code@),
            r is Ok ==> forall|k: int|
                old(out)@.len() <= k < final(out)@.len() ==> op_target_ok(
                    self@.table,
                    #[trigger] final(out)@[k],
                ),
            r is Err ==> r == Err::<(), LinkError>(LinkError::FunctionNameNotFound),
    {
        let ghost t = self@.table;
        let ghost out0 = out@;
        let n = code.len();
        let mut j: usize = 0;
        while j < n
            invariant
                j <= n,
                out@ =~= out0 + Seq::new(j as nat, |k: int| resolve_op(t, code@[k])),
                forall|k: int| 0 <= k < j ==> op_resolvable(t, #[trigger] code@[k]),
                forall|k: int|
                    out0.len() <= k < out@.len() ==> op_target_ok(t, #[trigger] out@[k]),
            decreases n - j,
        {
            let op = code[j];
            match op {
                Opcode::Call(name) => {
                    match self.functions.search_name(name) {
                        Some((f, _idx)) => {
                            proof {
                                lemma_find_name(t, name@);
                                lemma_find_start(t, f.start_pos as int);
                            }
                            out.push(Opcode::Call(f.start_pos));
                        },
                        None => {
                            proof {
                                assert(!op_resolvable(t, code@[j as int]));
                            }
                            return Err(LinkError::FunctionNameNotFound);
                        },
                    }
                },
                Opcode::Push(v) => out.push(Opcode::Push(v)),
                Opcode::Pop => out.push(Opcode::Pop),
                Opcode::Dup => out.push(Opcode::Dup),
                Opcode::Swap(p) => out.push(Opcode::Swap(p)),
                Opcode::BinOp(o) => out.push(Opcode::BinOp(o)),
                Opcode::Branch(c, d) => out.push(Opcode::Branch(c, d)),
                Opcode::Jump(d) => out.push(Opcode::Jump(d)),
                Opcode::Return => out.push(Opcode::Return),
            }
            proof {
                assert(out@ =~= out0 + Seq::new((j + 1) as nat, |k: int| resolve_op(t, code@[k])));
            }
            j += 1;
        }
        proof {
            assert(out@ =~= out0 + resolve_code(t, code@));
        }
        Ok(())
    }

    /// Links a batch of named functions onto the program: each gets the
    /// next contiguous range, the table is populated for the whole batch
    /// before any call is resolved (so forward references within the batch
    /// work), and every symbolic call target is rewritten to an absolute
    /// position. Succeeds exactly when every call names a function linked
    /// earlier or part of this batch; on failure the context is unchanged.
    #[verifier::loop_isolation(false)]
    #[verifier::rlimit(30)]
    pub fn link(&mut self, new_functions: Vec<(&str, Vec<Opcode<&str>>)>) -> (r: Result<
        (),
        LinkError,
    >)
        requires
            old(self).wf(),
            forall|i: int|
                0 <= i < new_functions@.len() ==> (#[trigger] new_functions@[i]).1@.len() >= 1,
            old(self)@.program.len() + batch_len_prefix(new_functions@, new_functions@.len() as int)
                <= usize::MAX,
        ensures
            final(self).wf(),
            final(self)@.data == old(self)@.data,
            final(self)@.calls == old(self)@.calls,
            final(self)@.counter == old(self)@.counter,
            final(self)@.fun == old(self)@.fun,
            final(self)@.fun_idx == old(self)@.fun_idx,
            r is Ok <==> batch_resolvable(old(self)@.table, new_functions@),
            r is Err ==> r == Err::<(), LinkError>(LinkError::FunctionNameNotFound)
                && final(self)@ == old(self)@,
            r is Ok ==> linked_ok(old(self)@, new_functions@, final(self)@),
    {
        let ghost v0 = self@;
        let ghost b = new_functions@;
        let ghost n0 = v0.table.len() as int;
        let ghost plen0 = v0.program.len() as int;
        let old_table_len = self.functions.len();
        self.extend_function_table(&new_functions);
        let ghost t1 = self@.table;
        let mut resolved: Vec<Opcode<ProgramPos>> = Vec::new();
        let n = new_functions.len();
        let mut i: usize = 0;
        while i < n
            invariant
                i <= n,
                self@.table == t1,
                self@.program == v0.program,
                self@.data == v0.data,
                self@.calls == v0.calls,
                self@.counter == v0.counter,
                self@.fun == v0.fun,
                self@.fun_idx == v0.fun_idx,
                resolved@ == resolved_prefix(t1, b, i as int),
                forall|k: int| 0 <= k < i ==> code_resolvable(t1, (#[trigger] b[k]).1@),
                forall|k: int|
                    0 <= k < resolved@.len() ==> op_target_ok(t1, #[trigger] resolved@[k]),
            decreases n - i,
        {
            let step = self.link_step(&new_functions[i].1, &mut resolved);
            match step {
                Ok(()) => {
                    proof {
                        assert(resolved@ =~= resolved_prefix(t1, b, i + 1));
                    }
                    i += 1;
                },
                Err(e) => {
                    self.functions.truncate_entries(old_table_len);
                    proof {
                        assert(self@.table =~= v0.table);
                        assert(self@ =~= v0);
                        // The failing function holds a call whose name neither
                        // the prior table nor the batch knows.
                        let j = choose|j: int|
                            0 <= j < b[i as int].1@.len() && !op_resolvable(
                                t1,
                                #[trigger] b[i as int].1@[j],
                            );
                        let nm = match b[i as int].1@[j] {
                            Opcode::Call(name) => name,
                            _ => vstd::pervasive::arbitrary(),
                        };
                        lemma_find_name(t1, nm@);
                        assert(forall|k: int| 0 <= k < n0 ==> #[trigger] t1[k] == v0.table[k])
                            by {
                            assert(forall|k: int|
                                0 <= k < n0 ==> v0.table[k] == #[trigger] t1.subrange(0, n0)[k]);
                        }
                        assert(!name_known(v0.table, b, nm@)) by {
                            if name_known(v0.table, b, nm@) {
                                if exists|k: int|
                                    0 <= k < v0.table.len() && (#[trigger] v0.table[k]).1@
                                        == nm@ {
                                    let k = choose|k: int|
                                        0 <= k < v0.table.len() && (#[trigger] v0.table[k]).1@
                                            == nm@;
                                    assert(t1[k] == v0.table[k]);
                                    assert(0 <= k < t1.len() && t1[k].1@ == nm@);
                                } else {
                                    let k = choose|k: int|
                                        0 <= k < b.len() && (#[trigger] b[k]).0@ == nm@;
                                    assert(0 <= n0 + k < t1.len() && t1[n0 + k].1@ == b[k].0@);
                                }
                            }
                        }
                        assert(!batch_resolvable(v0.table, b)) by {
                            if batch_resolvable(v0.table, b) {
                                assert(match b[i as int].1@[j] {
                                    Opcode::Call(name) => name_known(v0.table, b, name@),
                                    _ => true,
                                });
                            }
                        }
                    }
                    return Err(e);
                },
            }
        }
        self.program.append(&mut resolved);
        proof {
            lemma_resolved_prefix_len(t1, b, b.len() as int);
            let v1 = self@;
            let plen1 = v1.program.len() as int;
            assert(v1.program =~= v0.program + resolved_prefix(t1, b, b.len() as int));
            assert(forall|k: int| 0 <= k < n0 ==> #[trigger] t1[k] == v0.table[k]) by {
                assert(forall|k: int|
                    0 <= k < n0 ==> v0.table[k] == #[trigger] t1.subrange(0, n0)[k]);
            }
            // Success means every call of the batch named a known function.
            assert forall|i2: int, j2: int|
                0 <= i2 < b.len() && 0 <= j2 < b[i2].1@.len() implies match #[trigger] b[i2].1@[j2] {
                Opcode::Call(name) => name_known(v0.table, b, name@),
                _ => true,
            } by {
                match b[i2].1@[j2] {
                    Opcode::Call(name) => {
                        assert(op_resolvable(t1, b[i2].1@[j2]));
                        lemma_find_name(t1, name@);
                        let k = choose|k: int| 0 <= k < t1.len() && (#[trigger] t1[k]).1@ == name@;
                        if k < n0 {
                            assert(v0.table[k].1@ == name@);
                        } else {
                            assert(b[k - n0].0@ == name@);
                        }
                    },
                    _ => {},
                }
            }
            assert(batch_resolvable(v0.table, b));
            lemma_link_commit_wf(v0, b, t1, v1);
        }
        Ok(())
    }

    /// A fresh context with the given batch already linked: the first
    /// function of the batch owns position zero and, by the convention of
    /// `run`, is the entry function.
    pub fn new_program(new_functions: Vec<(&str, Vec<Opcode<&str>>)>) -> (r: Result<
        Context,
        LinkError,
    >)
        requires
            forall|i: int|
                0 <= i < new_functions@.len() ==> (#[trigger] new_functions@[i]).1@.len() >= 1,
            batch_len_prefix(new_functions@, new_functions@.len() as int) <= usize::MAX,
        ensures
            match r {
                Ok(c) => {
                    let b = new_functions@;
                    &&& c.wf()
                    &&& batch_resolvable(Seq::empty(), b)
                    &&& c@.counter == 0
                    &&& c@.fun_idx == 0
                    &&& c@.data.len() == 0
                    &&& c@.calls.len() == 0
                    &&& c@.table.len() == b.len()
                    &&& forall|i: int|
                        0 <= i < b.len() ==> {
                            let start = batch_len_prefix(b, i);
                            &&& (#[trigger] c@.table[i]).0.start_pos == start
                            &&& c@.table[i].0.end_pos == start + b[i].1@.len() - 1
                            &&& c@.table[i].1@ == b[i].0@
                        }
                    &&& c@.program == resolved_prefix(c@.table, b, b.len() as int)
                    &&& c@.program.len() == batch_len_prefix(b, b.len() as int)
                },
                Err(e) => {
                    &&& e == LinkError::FunctionNameNotFound
                    &&& !batch_resolvable(Seq::empty(), new_functions@)
                },
            },
    {
        let ghost b = new_functions@;
        let mut c = Context::new();
        let ghost v0 = c@;
        proof {
            assert(v0.table =~= Seq::<(Function, String)>::empty());
        }
        let linked = c.link(new_functions);
        match linked {
            Ok(()) => {
                proof {
                    assert(c@.program =~= v0.program + resolved_prefix(c@.table, b, b.len() as int));
                    assert(c@.program =~= resolved_prefix(c@.table, b, b.len() as int));
                }
                Ok(c)
            },
            Err(e) => Err(e),
        }
    }
}

/// After a committed link, the new context is well-formed: the extended
/// table tiles the extended program, every call target (old or newly
/// resolved) is a function entry point, and the cached execution state
/// still fits the unchanged prefix of the table.
proof fn lemma_link_commit_wf(
    v0: CtxView,
    b: Seq<(&str, Vec<Opcode<&str>>)>,
    t1: Seq<(Function, String)>,
    v1: CtxView,
)
    requires
        crate::table::table_wf(v0.table, v0.program.len() as int),
        crate::table::prog_resolved(v0.program, v0.table),
        v0.table.len() > 0 ==> {
            &&& 0 <= v0.fun_idx < v0.table.len()
            &&& v0.table[v0.fun_idx].0.start_pos <= v0.counter <= v0.table[v0.fun_idx].0.end_pos
                + 1
        },
        v0.table.len() == 0 ==> v0.counter == 0 && v0.fun_idx == 0,
        forall|j: int|
            0 <= j < v0.calls.len() ==> crate::table::frame_ok(
                v0.table,
                #[trigger] v0.calls[j],
            ),
        forall|i: int| 0 <= i < b.len() ==> (#[trigger] b[i]).1@.len() >= 1,
        v1.table == t1,
        t1.len() == v0.table.len() + b.len(),
        forall|k: int| 0 <= k < v0.table.len() ==> #[trigger] t1[k] == v0.table[k],
        forall|j: int|
            v0.table.len() <= j < t1.len() ==> {
                let i = j - v0.table.len();
                let start = v0.program.len() + batch_len_prefix(b, i);
                &&& (#[trigger] t1[j]).0.start_pos == start
                &&& t1[j].0.end_pos == start + b[i].1@.len() - 1
            },
        v1.program.len() == v0.program.len() + batch_len_prefix(b, b.len() as int),
        forall|k: int|
            0 <= k < v0.program.len() ==> #[trigger] v1.program[k] == v0.program[k],
        forall|k: int|
            v0.program.len() <= k < v1.program.len() ==> op_target_ok(
                t1,
                #[trigger] v1.program[k],
            ),
        v1.counter == v0.counter,
        v1.fun_idx == v0.fun_idx,
        v1.calls == v0.calls,
    ensures
        crate::table::table_wf(t1, v1.program.len() as int),
        crate::table::prog_resolved(v1.program, t1),
        v1.table.len() > 0 ==> {
            &&& 0 <= v1.fun_idx < v1.table.len()
            &&& t1[v1.fun_idx].0.start_pos <= v1.counter <= t1[v1.fun_idx].0.end_pos + 1
        },
        v1.table.len() == 0 ==> v1.counter == 0 && v1.fun_idx == 0,
        forall|j: int|
            0 <= j < v1.calls.len() ==> crate::table::frame_ok(t1, #[trigger] v1.calls[j]),
{
    let n0 = v0.table.len() as int;
    let plen0 = v0.program.len() as int;
    let plen1 = v1.program.len() as int;
    let bn = b.len() as int;
    // Each new entry is a non-empty range inside the new program.
    assert forall|j: int|
        0 <= j < t1.len() implies (#[trigger] t1[j]).0.start_pos <= t1[j].0.end_pos < plen1 by {
        if j < n0 {
            lemma_batch_len_mono(b, 0, bn);
        } else {
            lemma_batch_len_mono(b, 0, j - n0);
            lemma_batch_len_mono(b, j - n0 + 1, bn);
            assert(batch_len_prefix(b, j - n0 + 1) == batch_len_prefix(b, j - n0) + b[j
                - n0].1@.len());
        }
    }
    // Consecutive entries are contiguous.
    assert forall|j: int|
        0 <= j < t1.len() - 1 implies (#[trigger] t1[j + 1]).0.start_pos == t1[j].0.end_pos
        + 1 by {
        if j + 1 > n0 {
            assert(batch_len_prefix(b, j + 1 - n0) == batch_len_prefix(b, j - n0) + b[j
                - n0].1@.len());
        }
    }
    // Earlier entries end strictly before later ones begin.
    assert forall|j: int, k: int|
        0 <= j < k < t1.len() implies (#[trigger] t1[j]).0.end_pos < (
    #[trigger] t1[k]).0.start_pos by {
        if k < n0 {
        } else if j < n0 {
            lemma_batch_len_mono(b, 0, k - n0);
        } else {
            lemma_batch_len_mono(b, j - n0 + 1, k - n0);
            assert(batch_len_prefix(b, j - n0 + 1) == batch_len_prefix(b, j - n0) + b[j
                - n0].1@.len());
        }
    }
    // The table still begins at zero and ends at the program's last position.
    assert(batch_len_prefix(b, 0) == 0);
    lemma_batch_len_mono(b, 0, bn);
    if t1.len() > 0 {
        if bn > 0 {
            assert(batch_len_prefix(b, bn) == batch_len_prefix(b, bn - 1) + b[bn - 1].1@.len());
            lemma_batch_len_mono(b, 0, bn - 1);
            assert(t1[t1.len() - 1].0.end_pos == plen1 - 1);
            if n0 == 0 {
                assert(t1[0].0.start_pos == plen0 + batch_len_prefix(b, 0));
                assert(plen0 == 0);
            } else {
                assert(t1[0] == v0.table[0]);
            }
        } else {
            assert(t1 =~= v0.table);
        }
        assert(plen1 > 0);
    } else {
        assert(plen1 == 0);
    }
    // Every call target, old or new, is still an entry point.
    assert forall|k: int| 0 <= k < plen1 implies op_target_ok(t1, #[trigger] v1.program[k]) by {
        if k < plen0 {
            match v1.program[k] {
                Opcode::Call(pos) => {
                    assert(op_target_ok(v0.table, v0.program[k]));
                    lemma_find_start(v0.table, pos as int);
                    let k2 = choose|k2: int|
                        0 <= k2 < v0.table.len() && (#[trigger] v0.table[k2]).0.start_pos == pos;
                    assert(t1[k2] == v0.table[k2]);
                    lemma_find_start(t1, pos as int);
                },
                _ => {},
            }
        }
    }
    // Old call frames still point at their (unchanged) entries.
    assert forall|j: int|
        0 <= j < v1.calls.len() implies crate::table::frame_ok(t1, #[trigger] v1.calls[j]) by {
        let fr = v0.calls[j];
        let k = choose|k: int|
            0 <= k < v0.table.len() && (#[trigger] v0.table[k]).0.start_pos == fr.function_start
                && v0.table[k].0.start_pos <= fr.return_pos <= v0.table[k].0.end_pos;
        assert(t1[k] == v0.table[k]);
    }
}

} // verus!
