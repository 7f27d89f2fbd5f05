//! The function table: maps a linked function to the contiguous absolute
//! range it occupies in the flat program, and supports lookup by name (used
//! by the linker) and by exact start position (used by the interpreter to
//! validate call targets).

use vstd::prelude::*;

use crate::opcode::Opcode;
use crate::opcode::ProgramPos;

verus! {

/// The inclusive absolute position range a linked function occupies in the
/// flat program. Invariant (kept by the linker): `start_pos <= end_pos`.
#[derive(Copy, Clone, Debug, PartialEq, Eq, Structural)]
pub struct Function {
    pub start_pos: ProgramPos,
    pub end_pos: ProgramPos,
}

/// One return record on the call stack. `return_pos` is the absolute
/// position of the `Call` instruction itself, so execution resumes at
/// `return_pos + 1`; `function_start` identifies the caller's range, which
/// is restored on return.
#[derive(Copy, Clone, Debug, PartialEq, Eq, Structural)]
pub struct CallFrame {
    pub return_pos: ProgramPos,
    pub function_start: ProgramPos,
}

/// Ordered collection of `(range, name)` entries, one per linked function,
/// in link order.
#[derive(Debug)]
pub struct FunctionTable {
    pub(crate) table: Vec<(Function, String)>,
}

impl View for FunctionTable {
    type V = Seq<(Function, String)>;

    closed spec fn view(&self) -> Seq<(Function, String)> {
        self.table@
    }
}

/// The first entry of `t` at index `i` or later whose name is `name`,
/// together with its index.
pub open spec fn find_name_from(
    t: Seq<(Function, String)>,
    name: Seq<char>,
    i: int,
) -> Option<(Function, int)>
    decreases t.len() - i,
{
    if i < 0 || i >= t.len() {
        None
    } else if t[i].1@ == name {
        Some((t[i].0, i))
    } else {
        find_name_from(t, name, i + 1)
    }
}

/// The first entry of `t` whose name is `name`, with its index.
pub open spec fn find_name(t: Seq<(Function, String)>, name: Seq<char>) -> Option<(Function, int)> {
    find_name_from(t, name, 0)
}

/// The first entry of `t` at index `i` or later whose range begins exactly
/// at `pos`, together with its index.
pub open spec fn find_start_from(
    t: Seq<(Function, String)>,
    pos: int,
    i: int,
) -> Option<(Function, int)>
    decreases t.len() - i,
{
    if i < 0 || i >= t.len() {
        None
    } else if t[i].0.start_pos == pos {
        Some((t[i].0, i))
    } else {
        find_start_from(t, pos, i + 1)
    }
}

/// The first entry of `t` whose range begins exactly at `pos`, with its index.
pub open spec fn find_start(t: Seq<(Function, String)>, pos: int) -> Option<(Function, int)> {
    find_start_from(t, pos, 0)
}

/// The ranges in `t` tile the flat program exactly: each entry is a
/// non-empty inclusive range ending inside the program, consecutive entries
/// are contiguous, and together they cover positions `0 .. plen` in link
/// order.
pub open spec fn table_wf(t: Seq<(Function, String)>, plen: int) -> bool {
    &&& forall|i: int| 0 <= i < t.len() ==> (#[trigger] t[i]).0.start_pos <= t[i].0.end_pos < plen
    &&& (t.len() == 0 <==> plen == 0)
    &&& (t.len() > 0 ==> t[0].0.start_pos == 0 && t[t.len() - 1].0.end_pos == plen - 1)
    &&& forall|i: int|
        0 <= i < t.len() - 1 ==> (#[trigger] t[i + 1]).0.start_pos == t[i].0.end_pos + 1
    &&& forall|i: int, j: int|
        0 <= i < j < t.len() ==> (#[trigger] t[i]).0.end_pos < (#[trigger] t[j]).0.start_pos
}

/// Every `Call` in `op` aims at the exact entry point of some linked
/// function; the linker guarantees this for the whole program.
pub open spec fn op_target_ok(t: Seq<(Function, String)>, op: Opcode<usize>) -> bool {
    match op {
        Opcode::Call(pos) => find_start(t, pos as int) is Some,
        _ => true,
    }
}

/// All calls in `p` are resolved against `t`.
pub open spec fn prog_resolved(p: Seq<Opcode<usize>>, t: Seq<(Function, String)>) -> bool {
    forall|j: int| 0 <= j < p.len() ==> op_target_ok(t, #[trigger] p[j])
}

/// A call frame refers back to a real table entry, and its return position
/// lies inside that entry's range.
pub open spec fn frame_ok(t: Seq<(Function, String)>, fr: CallFrame) -> bool {
    exists|i: int|
        0 <= i < t.len() && (#[trigger] t[i]).0.start_pos == fr.function_start
            && t[i].0.start_pos <= fr.return_pos <= t[i].0.end_pos
}

/// A name is found from `i` on exactly when some entry from `i` on bears it,
/// and what is found is a real entry bearing it.
pub proof fn lemma_find_name_from(t: Seq<(Function, String)>, name: Seq<char>, i: int)
    requires
        0 <= i <= t.len(),
    ensures
        find_name_from(t, name, i) is Some <==> exists|k: int|
            i <= k < t.len() && (#[trigger] t[k]).1@ == name,
        match find_name_from(t, name, i) {
            Some((f, k)) => i <= k < t.len() && t[k].0 == f && t[k].1@ == name,
            None => true,
        },
    decreases t.len() - i,
{
    if i < t.len() && t[i].1@ != name {
        lemma_find_name_from(t, name, i + 1);
    }
}

/// `find_name` finds a name exactly when the table holds it, and returns
/// that entry's range.
pub proof fn lemma_find_name(t: Seq<(Function, String)>, name: Seq<char>)
    ensures
        find_name(t, name) is Some <==> exists|k: int|
            0 <= k < t.len() && (#[trigger] t[k]).1@ == name,
        match find_name(t, name) {
            Some((f, k)) => 0 <= k < t.len() && t[k].0 == f && t[k].1@ == name,
            None => true,
        },
{
    lemma_find_name_from(t, name, 0);
}

/// A start position is found from `i` on exactly when some entry from `i`
/// on begins there, and what is found is a real entry beginning there.
pub proof fn lemma_find_start_from(t: Seq<(Function, String)>, pos: int, i: int)
    requires
        0 <= i <= t.len(),
    ensures
        find_start_from(t, pos, i) is Some <==> exists|k: int|
            i <= k < t.len() && (#[trigger] t[k]).0.start_pos == pos,
        match find_start_from(t, pos, i) {
            Some((f, k)) => i <= k < t.len() && t[k].0 == f && f.start_pos == pos,
            None => true,
        },
    decreases t.len() - i,
{
    if i < t.len() && t[i].0.start_pos != pos {
        lemma_find_start_from(t, pos, i + 1);
    }
}

/// `find_start` finds a position exactly when some entry's range begins
/// there, and returns that entry's range.
pub proof fn lemma_find_start(t: Seq<(Function, String)>, pos: int)
    ensures
        find_start(t, pos) is Some <==> exists|k: int|
            0 <= k < t.len() && (#[trigger] t[k]).0.start_pos == pos,
        match find_start(t, pos) {
            Some((f, k)) => 0 <= k < t.len() && t[k].0 == f && f.start_pos == pos,
            None => true,
        },
{
    lemma_find_start_from(t, pos, 0);
}

impl FunctionTable {
    /// A table with no entries.
    pub(crate) fn empty() -> (ft: FunctionTable)
        ensures
            ft@ =~= Seq::<(Function, String)>::empty(),
    {
        FunctionTable { table: Vec::new() }
    }

    /// Number of entries.
    pub(crate) fn len(&self) -> (n: usize)
        ensures
            n == self@.len(),
    {
        self.table.len()
    }

    /// The range of the `i`-th entry, in link order.
    pub(crate) fn range_at(&self, i: usize) -> (f: Function)
        requires
            i < self@.len(),
        ensures
            f == self@[i as int].0,
    {
        self.table[i].0
    }

    /// The name of the `i`-th entry, in link order.
    pub(crate) fn name_at(&self, i: usize) -> (r: &str)
        requires
            i < self@.len(),
        ensures
            r@ == self@[i as int].1@,
    {
        self.table[i].1.as_str()
    }

    /// Appends one `(range, name)` entry.
    pub(crate) fn push_entry(&mut self, f: Function, name: String)
        ensures
            final(self)@ =~= old(self)@.push((f, name)),
    {
        self.table.push((f, name));
    }

    /// Drops every entry from index `len` on.
    pub(crate) fn truncate_entries(&mut self, len: usize)
        requires
            len <= old(self)@.len(),
        ensures
            final(self)@ =~= old(self)@.subrange(0, len as int),
    {
        self.table.truncate(len);
    }

    /// First matching entry by name, in link order.
    pub(crate) fn search_name(&self, name: &str) -> (r: Option<(Function, usize)>)
        ensures
            match r {
                Some((f, i)) => find_name(self@, name@) == Some((f, i as int)),
                None => find_name(self@, name@) is None,
            },
    {
        let needle: String = name.to_owned();
        let n = self.table.len();
        let mut i: usize = 0;
        while i < n
            invariant
                n == self.table.len(),
                i <= n,
                needle@ == name@,
                find_name(self@, name@) == find_name_from(self@, name@, i as int),
            decreases n - i,
        {
            if self.table[i].1 == needle {
                return Some((self.table[i].0, i));
            }
            i += 1;
        }
        None
    }

    /// First entry whose range begins exactly at `start_pos`, in link order.
    pub(crate) fn search_start_pos(&self, start_pos: ProgramPos) -> (r: Option<(Function, usize)>)
        ensures
            match r {
                Some((f, i)) => find_start(self@, start_pos as int) == Some((f, i as int)),
                None => find_start(self@, start_pos as int) is None,
            },
    {
        let n = self.table.len();
        let mut i: usize = 0;
        while i < n
            invariant
                n == self.table.len(),
                i <= n,
                find_start(self@, start_pos as int) == find_start_from(self@, start_pos as int, i as int),
            decreases n - i,
        {
            if self.table[i].0.start_pos == start_pos {
                return Some((self.table[i].0, i));
            }
            i += 1;
        }
        None
    }
}

} // verus!
