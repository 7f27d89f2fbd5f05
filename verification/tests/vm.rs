use stack_vm::Context;
use stack_vm::Opcode;
use stack_vm::Opcode::BinOp;
use stack_vm::Opcode::Branch;
use stack_vm::Opcode::Call;
use stack_vm::Opcode::Dup;
use stack_vm::Opcode::Jump;
use stack_vm::Opcode::Pop;
use stack_vm::Opcode::Push;
use stack_vm::Opcode::Return;
use stack_vm::Opcode::Swap;
use stack_vm::Operation::Add;
use stack_vm::Operation::Div;
use stack_vm::Operation::Mod;
use stack_vm::Operation::Mul;
use stack_vm::Operation::Sub;
use stack_vm::BranchCondition;
use stack_vm::BranchCondition::Equal;
use stack_vm::BranchCondition::GreaterEqual;
use stack_vm::BranchCondition::GreaterThan;
use stack_vm::BranchCondition::LessEqual;
use stack_vm::BranchCondition::LessThan;
use stack_vm::BranchCondition::NotEqual;
use stack_vm::LinkError::FunctionNameNotFound;
use stack_vm::VmError;
use stack_vm::VmError::DivisionByZero;
use stack_vm::VmError::Halted;
use stack_vm::VmError::InvalidStackPosition;
use stack_vm::VmError::JumpOffsetTooLarge;
use stack_vm::VmError::JumpOffsetTooSmall;
use stack_vm::VmError::StackUnderflow;
use stack_vm::VmError::ThereIsNoCode;

#[test]
fn mod_empty() {
    let mut c = Context::new();
    assert_eq!(c.run(), (vec![], ThereIsNoCode));
}

#[test]
fn mod_add() {
    let mut c = Context::new();
    c.link(vec![("main", vec![Push(15), Push(6), BinOp(Add)])]).unwrap();
    assert_eq!(c.run(), (vec![21], Halted));
}

#[test]
fn mod_noop() {
    // Jump(1) executes the next instruction (i.e. it's a NOOP).

    let mut c = Context::new();
    c.link(vec![("main", vec![Jump(1), Return])]).unwrap();
    assert_eq!(c.run(), (vec![], Halted));
}

#[test]
fn mod_double() {
    let main: Vec<Opcode<&str>> = vec![Push(27), Call("double"), Push(5), BinOp(Add)];
    let double: Vec<Opcode<&str>> = vec![Push(2), BinOp(Mul)];

    let mut c = Context::new();
    c.link(vec![("main", main), ("double", double)]).unwrap();
    assert_eq!(c.run(), (vec![59], Halted));
}

#[test]
fn tests_empty() {
    let mut c = Context::new();
    assert_eq!(c.run(), (vec![], ThereIsNoCode));
}

#[test]
fn tests_add() {
    let mut c = Context::new_program(vec![("main", vec![Push(15), Push(6), BinOp(Add)])]).unwrap();
    assert_eq!(c.run(), (vec![21], Halted));
}

#[test]
fn tests_noop() {
    // Jump(1) executes the next instruction (i.e. it's a NOOP).

    let mut c = Context::new();
    c.link(vec![("main", vec![Jump(1)])]).unwrap();
    assert_eq!(c.run(), (vec![], Halted));
}

#[test]
fn tests_double() {
    let main: Vec<Opcode<&str>> = vec![Push(27), Call("double"), Push(5), BinOp(Add)];
    let double: Vec<Opcode<&str>> = vec![Push(2), BinOp(Mul)];

    let mut c = Context::new();
    c.link(vec![("main", main), ("double", double)]).unwrap();
    assert_eq!(c.run(), (vec![59], Halted));
}

#[test]
fn simple_ops() {}

fn sum_numbers(numbers: Vec<i32>) -> (i32, VmError) {
    let mut c = Context::new();

    let main = numbers
        .iter()
        .map(|&x| Push(x))
        .chain(vec![Push(numbers.len() as i32), Call("sum")].into_iter())
        .collect::<Vec<Opcode<&str>>>();

    c.link(vec![
        ("main", main),
        (
            "sum",
            vec![
                Branch(GreaterThan, 2),
                Return,
                Push(0),
                Swap(1),
                // :a
                Push(-1),
                BinOp(Add),
                Swap(2),
                BinOp(Add),
                Swap(1),
                Branch(GreaterThan, -5), // to :a
                Pop,
            ],
        ),
    ])
    .unwrap();
    let (mut a, b) = c.run();
    assert!(a.len() == 1);
    (a.pop().unwrap(), b)
}

#[test]
fn sum() {
    let (expected, trials): (Vec<i32>, Vec<Vec<i32>>) = vec![
        (0, vec![]),
        (5, vec![5]),
        (16, vec![18, 0, -2]),
        (24, vec![32, -3, 15, -20]),
        (21816, vec![1099, 8837, -121, 12001]),
        (-664, vec![1, -200, 534, -1000, 1, 0]),
    ]
    .into_iter()
    .unzip();

    let (v, r): (Vec<i32>, Vec<VmError>) = trials.into_iter().map(sum_numbers).unzip();

    assert!(r.into_iter().all(|x| x == Halted));
    assert_eq!(v, expected);
}

// fac(n) for n < 0 is defined as 1
fn fac(n: i32) -> (i32, VmError) {
    let mut c = Context::new();
    c.link(vec![
        ("main", vec![Push(n), Call("factorial")]),
        (
            "factorial",
            vec![
                Push(1),
                Swap(1),
                // :a
                Branch(LessEqual, 8), // to :b
                Dup,
                Swap(2),
                BinOp(Mul),
                Swap(1),
                Push(-1),
                BinOp(Add),
                Jump(-7), // to :a
                // :b
                Pop,
            ],
        ),
    ])
    .unwrap();

    let (mut a, b) = c.run();
    assert!(a.len() == 1);
    (a.pop().unwrap(), b)
}

#[test]
fn factorial() {
    let (v, r): (Vec<i32>, Vec<VmError>) = (-1..13).map(fac).unzip();

    assert!(r.into_iter().all(|x| x == Halted));
    assert_eq!(
        v,
        [1, 1, 1, 2, 6, 24, 120, 720, 5040, 40320, 362880, 3628800, 39916800, 479001600]
    );
}

// Linking is size-additive and order-preserving: a later batch lands after
// the earlier ones and disturbs nothing, so calls into the first batch keep
// working and the run's result is unchanged.
#[test]
fn linking_is_additive_across_batches() {
    let mut c = Context::new();
    c.link(vec![
        ("main", vec![Push(27), Call("double"), Push(5), BinOp(Add)]),
        ("double", vec![Push(2), BinOp(Mul)]),
    ])
    .unwrap();
    c.link(vec![("quad", vec![Call("double"), Call("double")])]).unwrap();
    assert_eq!(c.run(), (vec![59], Halted));
}

// A failed link is atomic: the batch leaves no trace, so the context still
// reports an empty program afterwards.
#[test]
fn failed_link_leaves_no_trace() {
    let mut c = Context::new();
    let r = c.link(vec![("main", vec![Push(1), Call("missing")])]);
    assert_eq!(r, Err(FunctionNameNotFound));
    assert_eq!(c.run(), (vec![], ThereIsNoCode));
}

// A call may name any function of the same batch (forward references
// resolve) or of an earlier batch, but an unknown name fails the link.
#[test]
fn forward_reference_within_batch() {
    let mut c = Context::new();
    c.link(vec![
        ("main", vec![Push(4), Call("sq")]),
        ("sq", vec![Dup, BinOp(Mul)]),
    ])
    .unwrap();
    assert_eq!(c.run(), (vec![16], Halted));
}

// The final data stack of a straight-line program is the left-to-right
// fold of its stack operations, and the termination reason is Halted.
#[test]
fn straight_line_fold() {
    let mut c = Context::new();
    c.link(vec![(
        "main",
        vec![
            Push(3),
            Push(4),
            BinOp(Add),
            Push(2),
            BinOp(Mul),
            Push(9),
            Pop,
            Swap(0),
        ],
    )])
    .unwrap();
    assert_eq!(c.run(), (vec![14], Halted));
}

// A jump target beyond the current function's range fails JumpOffsetTooLarge
// even though the target position exists in the program (inside another
// function).
#[test]
fn jump_too_large_stays_within_function() {
    let mut c = Context::new();
    c.link(vec![
        ("main", vec![Jump(3), Return]),
        ("other", vec![Push(1), Return]),
    ])
    .unwrap();
    assert_eq!(c.run(), (vec![], JumpOffsetTooLarge));
}

// A jump target before the current function's start fails JumpOffsetTooSmall
// even though the target position exists in the program (inside the caller).
#[test]
fn jump_too_small_stays_within_function() {
    let mut c = Context::new();
    c.link(vec![
        ("main", vec![Push(1), Call("g"), Pop]),
        ("g", vec![Jump(-1)]),
    ])
    .unwrap();
    assert_eq!(c.run(), (vec![1], JumpOffsetTooSmall));
}

// Returning with an empty call stack — and nothing else — ends a run with
// Halted: a nested call returns through its frames, while a fault reports
// its own reason.
#[test]
fn halted_comes_only_from_final_return() {
    let mut c = Context::new();
    c.link(vec![("main", vec![Call("f")]), ("f", vec![Return])]).unwrap();
    assert_eq!(c.run(), (vec![], Halted));

    let mut c2 = Context::new();
    c2.link(vec![("main", vec![Pop])]).unwrap();
    let (stack, reason) = c2.run();
    assert_eq!(stack, vec![]);
    assert_ne!(reason, Halted);
    assert_eq!(reason, StackUnderflow);
}

#[test]
fn underflow_on_binop_with_one_value() {
    let mut c = Context::new();
    c.link(vec![("main", vec![Push(1), BinOp(Add)])]).unwrap();
    assert_eq!(c.run(), (vec![], StackUnderflow));
}

#[test]
fn underflow_on_branch_with_empty_stack() {
    let mut c = Context::new();
    c.link(vec![("main", vec![Branch(Equal, 1)])]).unwrap();
    assert_eq!(c.run(), (vec![], StackUnderflow));
}

#[test]
fn underflow_on_dup_with_empty_stack() {
    let mut c = Context::new();
    c.link(vec![("main", vec![Dup])]).unwrap();
    assert_eq!(c.run(), (vec![], StackUnderflow));
}

#[test]
fn invalid_stack_position_on_swap() {
    let mut c = Context::new();
    c.link(vec![("main", vec![Push(1), Swap(1)])]).unwrap();
    assert_eq!(c.run(), (vec![1], InvalidStackPosition));

    let mut c2 = Context::new();
    c2.link(vec![("main", vec![Swap(0)])]).unwrap();
    assert_eq!(c2.run(), (vec![], InvalidStackPosition));
}

#[test]
fn swap_exchanges_stack_positions() {
    let mut c = Context::new();
    c.link(vec![("main", vec![Push(1), Push(2), Swap(1)])]).unwrap();
    assert_eq!(c.run(), (vec![2, 1], Halted));

    let mut c2 = Context::new();
    c2.link(vec![("main", vec![Push(1), Push(2), Swap(0)])]).unwrap();
    assert_eq!(c2.run(), (vec![1, 2], Halted));
}

#[test]
fn dup_duplicates_the_top() {
    let mut c = Context::new();
    c.link(vec![("main", vec![Push(7), Dup, BinOp(Add)])]).unwrap();
    assert_eq!(c.run(), (vec![14], Halted));
}

// BinOp pops the most recent value first (x), then the next (y), and
// computes x op y: with 3 pushed before 10, Sub yields 10 - 3.
#[test]
fn binop_pop_order_is_pinned() {
    let mut c = Context::new();
    c.link(vec![("main", vec![Push(3), Push(10), BinOp(Sub)])]).unwrap();
    assert_eq!(c.run(), (vec![7], Halted));
}

#[test]
fn division_truncates_toward_zero() {
    for (x, y, q, m) in [
        (10, 3, 3, 1),
        (-10, 3, -3, -1),
        (10, -3, -3, 1),
        (-10, -3, 3, -1),
    ] {
        let mut c = Context::new();
        c.link(vec![("main", vec![Push(y), Push(x), BinOp(Div)])]).unwrap();
        assert_eq!(c.run(), (vec![q], Halted));

        let mut c2 = Context::new();
        c2.link(vec![("main", vec![Push(y), Push(x), BinOp(Mod)])]).unwrap();
        assert_eq!(c2.run(), (vec![m], Halted));
    }
}

#[test]
fn division_by_zero_is_a_fault() {
    let mut c = Context::new();
    c.link(vec![("main", vec![Push(0), Push(1), BinOp(Div)])]).unwrap();
    assert_eq!(c.run(), (vec![], DivisionByZero));

    let mut c2 = Context::new();
    c2.link(vec![("main", vec![Push(0), Push(1), BinOp(Mod)])]).unwrap();
    assert_eq!(c2.run(), (vec![], DivisionByZero));
}

#[test]
fn arithmetic_wraps_around() {
    let mut c = Context::new();
    c.link(vec![("main", vec![Push(i32::MAX), Push(1), BinOp(Add)])]).unwrap();
    assert_eq!(c.run(), (vec![i32::MIN], Halted));

    let mut c2 = Context::new();
    c2.link(vec![("main", vec![Push(-1), Push(i32::MIN), BinOp(Div)])]).unwrap();
    assert_eq!(c2.run(), (vec![i32::MIN], Halted));

    let mut c3 = Context::new();
    c3.link(vec![("main", vec![Push(-1), Push(i32::MIN), BinOp(Mod)])]).unwrap();
    assert_eq!(c3.run(), (vec![0], Halted));
}

fn branch_outcome(cond: BranchCondition, v: i32) -> Vec<i32> {
    let mut c = Context::new();
    c.link(vec![(
        "main",
        vec![Push(v), Branch(cond, 3), Push(111), Return, Push(222)],
    )])
    .unwrap();
    let (stack, reason) = c.run();
    assert_eq!(reason, Halted);
    stack
}

// Branch reads (does not pop) the top of the stack and compares it with
// zero; 222 marks the taken path, 111 the fall-through.
#[test]
fn branch_conditions_compare_against_zero() {
    assert_eq!(branch_outcome(Equal, 0), vec![0, 222]);
    assert_eq!(branch_outcome(Equal, 1), vec![1, 111]);
    assert_eq!(branch_outcome(NotEqual, 0), vec![0, 111]);
    assert_eq!(branch_outcome(NotEqual, -2), vec![-2, 222]);
    assert_eq!(branch_outcome(GreaterThan, 1), vec![1, 222]);
    assert_eq!(branch_outcome(GreaterThan, 0), vec![0, 111]);
    assert_eq!(branch_outcome(LessThan, -1), vec![-1, 222]);
    assert_eq!(branch_outcome(LessThan, 0), vec![0, 111]);
    assert_eq!(branch_outcome(GreaterEqual, 0), vec![0, 222]);
    assert_eq!(branch_outcome(GreaterEqual, -1), vec![-1, 111]);
    assert_eq!(branch_outcome(LessEqual, 0), vec![0, 222]);
    assert_eq!(branch_outcome(LessEqual, 1), vec![1, 111]);
}

// The first function linked is the entry function, by convention "main".
#[test]
fn entry_function_is_linked_first() {
    let mut c = Context::new();
    c.link(vec![
        ("main", vec![Push(1), Call("double")]),
        ("double", vec![Push(2), BinOp(Mul)]),
    ])
    .unwrap();
    assert_eq!(c.fun_name(), "main");
}

#[test]
fn empty_batch_links_nothing() {
    let mut c = Context::new();
    c.link(vec![]).unwrap();
    assert_eq!(c.run(), (vec![], ThereIsNoCode));
}
