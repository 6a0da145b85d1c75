//! A program that the compiler made does not go wrong in its structure.
//!
//! Where the program is well formed and every function among the machine's
//! values is a block of the program, every transition keeps it so, and no
//! transition fails for want of a block, a body, a position in the code or
//! a label. What can still go wrong is what the expression itself gets
//! wrong: an operand of the wrong kind or none at all, a variable or a
//! table that is not there, a function with too few arguments.
use crate::bc::{Instr, Obj};
use crate::lower::Draft;
use crate::num::Double;
use crate::sem::{
    apply, branch, dispatch, enter, exe, jump, label_found, leave, make_table, make_vec, pairs_of,
    pop_vec, resume, step, table_of, vec_last, vec_pop, vec_push, Action, Call, Fault, Frame,
    Missing, Program, State, TableView,
};
use crate::shape::{block_in, has_label, target};
use vstd::prelude::*;

verus! {

/// A value that is a function is one of the first `n` blocks.
pub open spec fn fun_known(o: Obj, n: nat) -> bool {
    o matches Obj::Fun(b) ==> b < n
}

/// Every function among the values is one of the first `n` blocks.
pub open spec fn all_known(items: Seq<Obj>, n: nat) -> bool {
    forall|i: int| 0 <= i < items.len() ==> fun_known(#[trigger] items[i], n)
}

/// Every function among the keys and values is one of the first `n`
/// blocks.
pub open spec fn pairs_known(pairs: Seq<(Obj, Obj)>, n: nat) -> bool {
    forall|i: int|
        0 <= i < pairs.len() ==> fun_known((#[trigger] pairs[i]).0, n) && fun_known(pairs[i].1, n)
}

/// Every function that the table holds is one of the first `n` blocks.
pub open spec fn table_known(t: TableView, n: nat) -> bool {
    all_known(t.array, n) && pairs_known(t.pairs, n)
}

/// Every function on the stack, in a variable or in a table is one of the
/// first `n` blocks.
pub open spec fn known(s: State, n: nat) -> bool {
    &&& all_known(s.stack, n)
    &&& forall|x: usize| s.vars.contains_key(x) ==> fun_known(#[trigger] s.vars[x], n)
    &&& forall|h: usize| s.tables.contains_key(h) ==> table_known(#[trigger] s.tables[h], n)
}

/// The faults of a program that refers to what is not there: a block, a
/// body, a position in the code or a label that is missing, a block of a
/// kind that is not in use, and `Ret` as an instruction.
pub open spec fn broken(a: Action) -> bool {
    match a {
        Action::Fail(Fault::Lookup(Missing::Block(_))) => true,
        Action::Fail(Fault::Lookup(Missing::Body(_))) => true,
        Action::Fail(Fault::Lookup(Missing::Code(_))) => true,
        Action::Fail(Fault::Lookup(Missing::Label(_))) => true,
        Action::Fail(Fault::Reserved(_)) => true,
        Action::Fail(Fault::Invalid) => true,
        _ => false,
    }
}

/// The outcome of a transition from a state that was in order: the state
/// is in order again, and the program was not found broken.
pub open spec fn in_order(r: (State, Action), n: nat) -> bool {
    known(r.0, n) && !broken(r.1)
}

proof fn push_known(s: State, v: Obj, n: nat)
    requires
        known(s, n),
        fun_known(v, n),
    ensures
        known(s.push(v), n),
{
}

proof fn drop_known(s: State, k: int, n: nat)
    requires
        known(s, n),
        0 <= k <= s.stack.len(),
    ensures
        known(s.drop(k), n),
        forall|j: int| 0 <= j < s.stack.len() ==> fun_known(#[trigger] s.peek(j), n),
{
    assert forall|j: int| 0 <= j < s.stack.len() implies fun_known(#[trigger] s.peek(j), n) by {
        assert(fun_known(s.stack[s.stack.len() - 1 - j], n));
    }
}

proof fn dispatch_in_order(d: Draft, s: State, b: usize)
    requires
        d.well_formed(),
        known(s, d.blocks.len()),
        b < d.blocks.len(),
    ensures
        in_order(dispatch(d.program(), s, b), d.blocks.len()),
        in_order(enter(d.program(), s, d.blocks[b as int].2, Call::Block(b)), d.blocks.len()),
{
    assert(d.blocks[b as int].2 < d.bodies.len());
    assert(d.bodies[d.blocks[b as int].2 as int].start <= d.instrs.len());
    push_known(s, Obj::Fun(b), d.blocks.len());
}

proof fn leave_in_order(s: State, n: nat)
    requires
        known(s, n),
        s.frames.len() > 0,
    ensures
        in_order(leave(s), n),
{
    if s.frames.last().call != Call::Jump && s.stack.len() > 0 {
        drop_known(s, 1, n);
        let below = s.with_frames(s.frames.drop_last());
        push_known(below.drop(1), s.peek(0), n);
    }
}

proof fn apply_in_order(d: Draft, s: State, keep: int)
    requires
        d.well_formed(),
        known(s, d.blocks.len()),
        keep == 0 || keep == 1,
    ensures
        in_order(apply(d.program(), s, keep), d.blocks.len()),
{
    let n = d.blocks.len();
    if s.stack.len() > keep {
        drop_known(s, keep + 1, n);
        assert(fun_known(s.peek(keep), n));
        match s.peek(keep) {
            Obj::Fun(b) => {
                let args = s.stack.subrange(s.stack.len() - keep, s.stack.len() as int);
                let t = s.drop(keep + 1).with_stack(s.drop(keep + 1).stack + args);
                assert(all_known(t.stack, n)) by {
                    assert forall|i: int| 0 <= i < t.stack.len() implies fun_known(
                        #[trigger] t.stack[i],
                        n,
                    ) by {
                        if i < s.stack.len() - keep - 1 {
                            assert(t.stack[i] == s.stack[i]);
                        } else {
                            assert(t.stack[i] == s.stack[i + 1]);
                        }
                    }
                }
                dispatch_in_order(d, t, b);
            },
            _ => {},
        }
    }
}

proof fn branch_in_order(d: Draft, s: State, b: usize, on_zero: bool)
    requires
        d.well_formed(),
        known(s, d.blocks.len()),
        b < d.blocks.len(),
    ensures
        in_order(branch(d.program(), s, b, on_zero), d.blocks.len()),
{
    if s.stack.len() > 0 {
        drop_known(s, 1, d.blocks.len());
        dispatch_in_order(d, s.drop(1), b);
    }
}

proof fn jump_in_order(d: Draft, s: State, l: usize, on_zero: bool)
    requires
        d.well_formed(),
        known(s, d.blocks.len()),
        has_label(d.instrs, l),
    ensures
        in_order(jump(d.program(), s, l, on_zero), d.blocks.len()),
{
    if s.stack.len() > 0 {
        drop_known(s, 1, d.blocks.len());
        label_found(d.instrs, l, 0);
    }
}

proof fn make_table_in_order(s: State, k: usize, n: nat)
    requires
        known(s, n),
    ensures
        in_order(make_table(s, k), n),
{
    if 2 * k <= s.stack.len() && s.next != usize::MAX {
        drop_known(s, 2 * k, n);
        let t = TableView { pairs: pairs_of(s.stack, k as int), array: Seq::empty() };
        assert(table_known(t, n));
        let r = make_table(s, k).0;
        assert forall|h: usize| r.tables.contains_key(h) implies table_known(
            #[trigger] r.tables[h],
            n,
        ) by {
            if h != s.next {
                assert(s.tables.contains_key(h));
            }
        }
    }
}

proof fn make_vec_in_order(s: State, k: int, n: nat)
    requires
        known(s, n),
        0 <= k,
    ensures
        in_order(make_vec(s, k), n),
{
    if k <= s.stack.len() && s.next != usize::MAX {
        drop_known(s, k, n);
        let t = TableView {
            pairs: Seq::empty(),
            array: s.stack.subrange(s.stack.len() - k, s.stack.len() as int),
        };
        assert(table_known(t, n));
        let r = make_vec(s, k).0;
        assert forall|h: usize| r.tables.contains_key(h) implies table_known(
            #[trigger] r.tables[h],
            n,
        ) by {
            if h != s.next {
                assert(s.tables.contains_key(h));
            }
        }
    }
}

proof fn vectors_in_order(s: State, v: usize, n: nat)
    requires
        known(s, n),
    ensures
        in_order(vec_push(s, v), n),
        in_order(vec_last(s, v), n),
        in_order(vec_pop(s, v), n),
        in_order(pop_vec(s), n),
{
    if s.stack.len() > 0 {
        drop_known(s, 1, n);
    }
    assert(in_order(vec_push(s, v), n)) by {
        let r = vec_push(s, v).0;
        if r != s {
            assert forall|h: usize| r.tables.contains_key(h) implies table_known(
                #[trigger] r.tables[h],
                n,
            ) by {
                assert(s.tables.contains_key(h));
            }
        }
    }
    assert(in_order(vec_last(s, v), n)) by {
        let r = vec_last(s, v).0;
        if r != s {
            let h = table_of(s, v)->Ok_0;
            assert(table_known(s.tables[h], n));
            assert(fun_known(s.tables[h].array[s.tables[h].array.len() - 1], n));
        }
    }
    assert(in_order(vec_pop(s, v), n)) by {
        let r = vec_pop(s, v).0;
        if r != s {
            assert forall|h: usize| r.tables.contains_key(h) implies table_known(
                #[trigger] r.tables[h],
                n,
            ) by {
                assert(s.tables.contains_key(h));
            }
        }
    }
    assert(in_order(pop_vec(s), n)) by {
        let r = pop_vec(s).0;
        if r != s {
            let h = s.peek(0)->T_0;
            assert(table_known(s.tables[h], n));
            assert forall|i: int| 0 <= i < r.stack.len() implies fun_known(
                #[trigger] r.stack[i],
                n,
            ) by {
                if i < s.stack.len() - 1 {
                    assert(r.stack[i] == s.stack[i]);
                } else {
                    assert(r.stack[i] == s.tables[h].array[i - (s.stack.len() - 1)]);
                }
            }
            assert forall|k: usize| r.tables.contains_key(k) implies table_known(
                #[trigger] r.tables[k],
                n,
            ) by {
                assert(s.tables.contains_key(k));
            }
        }
    }
}

proof fn plain_in_order(p: Program, s: State, i: Instr, n: nat)
    requires
        known(s, n),
        block_in(i, n),
        match i {
            Instr::Push(_) => true,
            Instr::Pop => true,
            Instr::Local(_) => true,
            Instr::Load(_) => true,
            Instr::Label(_) => true,
            Instr::AddF => true,
            Instr::SubF => true,
            Instr::MulF => true,
            Instr::DivF => true,
            Instr::NegF => true,
            Instr::CmpF => true,
            Instr::Dup => true,
            Instr::Swap2 => true,
            Instr::Break => true,
            Instr::Nop => true,
            _ => false,
        },
    ensures
        in_order(exe(p, s, i), n),
{
    reveal(exe);
    if s.stack.len() > 0 {
        drop_known(s, 1, n);
    }
    if s.stack.len() > 1 {
        drop_known(s, 2, n);
    }
    match i {
        Instr::Local(x) => {
            if s.stack.len() > 0 {
                let r = exe(p, s, i).0;
                assert forall|y: usize| r.vars.contains_key(y) implies fun_known(
                    #[trigger] r.vars[y],
                    n,
                ) by {
                    if y != x {
                        assert(s.vars.contains_key(y));
                    }
                }
            }
        },
        Instr::Swap2 => {
            if s.stack.len() > 1 {
                push_known(s.drop(2), s.peek(0), n);
                push_known(s.drop(2).push(s.peek(0)), s.peek(1), n);
            }
        },
        _ => {},
    }
}

/// One instruction other than `Ret`, in a program that the compiler made.
proof fn exe_in_order(d: Draft, s: State, at: int)
    requires
        d.well_formed(),
        known(s, d.blocks.len()),
        0 <= at < d.instrs.len(),
        d.instrs[at] != Instr::Ret,
    ensures
        in_order(exe(d.program(), s, d.instrs[at]), d.blocks.len()),
{
    let p = d.program();
    let n = d.blocks.len();
    let i = d.instrs[at];
    assert(block_in(i, n));
    match i {
        Instr::Table(k) => {
            reveal(exe);
            make_table_in_order(s, k, n);
        },
        Instr::Vec(k) => {
            reveal(exe);
            make_vec_in_order(s, k as int, n);
        },
        Instr::VecFull => {
            reveal(exe);
            make_vec_in_order(s, s.stack.len() as int, n);
        },
        Instr::VecPush(v) => {
            reveal(exe);
            vectors_in_order(s, v, n);
        },
        Instr::VecLast(v) => {
            reveal(exe);
            vectors_in_order(s, v, n);
        },
        Instr::VecPop(v) => {
            reveal(exe);
            vectors_in_order(s, v, n);
        },
        Instr::PopVec => {
            reveal(exe);
            vectors_in_order(s, 0, n);
        },
        Instr::Apply0 => {
            reveal(exe);
            apply_in_order(d, s, 0);
        },
        Instr::Apply1 => {
            reveal(exe);
            apply_in_order(d, s, 1);
        },
        Instr::ApplyN => {
            reveal(exe);
            apply_in_order(d, s, 0);
        },
        Instr::Jmp(b) => {
            reveal(exe);
            dispatch_in_order(d, s, b);
        },
        Instr::JmpZ(b) => {
            reveal(exe);
            branch_in_order(d, s, b, true);
        },
        Instr::LJmpZ(l) => {
            reveal(exe);
            assert(target(d.instrs[at]) == Some(l));
            jump_in_order(d, s, l, true);
        },
        Instr::LJmpNZ(l) => {
            reveal(exe);
            assert(target(d.instrs[at]) == Some(l));
            jump_in_order(d, s, l, false);
        },
        _ => {
            plain_in_order(p, s, i, n);
        },
    }
}

/// A fresh machine is in order, and so is a machine in order after the
/// host's answer to a request.
pub proof fn fresh_is_in_order(n: nat, s: State, r: Double)
    ensures
        known(State::fresh(), n),
        known(s, n) ==> known(resume(s, r), n),
{
}

/// In a program that the compiler made, the dispatch of a block that
/// exists keeps a machine in order and does not find the program broken.
pub proof fn dispatch_stays_in_order(d: Draft, s: State, b: usize)
    requires
        d.well_formed(),
        known(s, d.blocks.len()),
        b < d.blocks.len(),
    ensures
        in_order(dispatch(d.program(), s, b), d.blocks.len()),
{
    dispatch_in_order(d, s, b);
}

/// In a program that the compiler made, every transition keeps a machine in
/// order and none finds the program broken: no block, body, position or
/// label is missing, no block is of a kind that is not in use, and `Ret` is
/// never executed.
pub proof fn step_stays_in_order(d: Draft, s: State)
    requires
        d.well_formed(),
        known(s, d.blocks.len()),
    ensures
        in_order(step(d.program(), s), d.blocks.len()),
{
    let p = d.program();
    if s.frames.len() > 0 {
        let top = s.frames.last();
        if top.pc >= p.code.len() || p.code[top.pc as int] == Instr::Ret {
            leave_in_order(s, d.blocks.len());
        } else {
            let moved = s.with_frames(
                s.frames.update(
                    s.frames.len() - 1,
                    Frame { pc: (top.pc + 1) as usize, call: top.call },
                ),
            );
            exe_in_order(d, moved, top.pc as int);
        }
    }
}

} // verus!
