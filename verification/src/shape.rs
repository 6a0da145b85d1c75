//! The shape of what the compiler makes.
//!
//! Whatever is compiled, the instruction buffer, the bodies and the blocks
//! only grow. Every block has its body, every body begins inside the buffer
//! and has a `Ret` to end at, every block that an instruction names is
//! there, no label occurs twice, and every labelled jump has its label.
//! These hold of a fresh compiler, and compiling keeps them.
use crate::bc::{BlkType, Instr, Obj, ObjType, Time};
use crate::lisp::{Leaf, LeafType};
use crate::lisp::lower_all_len;
use crate::lower::{
    arith_of, counted, counting, is_operand, jumps, kinds_known, lower, lower_all, names_of, Draft,
};
use vstd::prelude::*;

verus! {

/// The block that an instruction names, if it names one, is among the
/// first `n`.
pub open spec fn block_in(i: Instr, n: nat) -> bool {
    match i {
        Instr::Jmp(b) => b < n,
        Instr::JmpZ(b) => b < n,
        Instr::Push(Obj::Fun(b)) => b < n,
        _ => true,
    }
}

/// The label that a labelled jump goes to.
pub open spec fn target(i: Instr) -> Option<usize> {
    match i {
        Instr::LJmpZ(l) => Some(l),
        Instr::LJmpNZ(l) => Some(l),
        _ => None,
    }
}

/// There is a `Ret` at or after the position `start`.
pub open spec fn ends(code: Seq<Instr>, start: int) -> bool {
    exists|j: int| start <= j < code.len() && #[trigger] code[j] == Instr::Ret
}

/// The label `l` is in the code.
pub open spec fn has_label(code: Seq<Instr>, l: usize) -> bool {
    exists|j: int| 0 <= j < code.len() && #[trigger] code[j] == Instr::Label(l)
}

/// Neither a label nor a labelled jump.
pub open spec fn plain(i: Instr) -> bool {
    !(i is Label) && target(i) is None
}

impl<'a> Draft<'a> {
    /// The lengths are such as a buffer in memory can have.
    pub open spec fn fits(self) -> bool {
        &&& self.instrs.len() <= usize::MAX
        &&& self.blocks.len() <= usize::MAX
        &&& self.bodies.len() <= usize::MAX
    }

    /// This state is `old` with instructions, bodies and blocks appended,
    /// and with counters that are no lower.
    pub open spec fn extends(self, old: Draft<'a>) -> bool {
        &&& old.instrs.is_prefix_of(self.instrs)
        &&& old.blocks.is_prefix_of(self.blocks)
        &&& old.bodies.is_prefix_of(self.bodies)
        &&& old.varn <= self.varn
        &&& old.labeln <= self.labeln
    }

    /// Blocks, bodies and instructions refer to what is there: every block
    /// is of the kind in use and has its body, every body begins inside the
    /// buffer, has a `Ret` at or after its start and has one export flag for
    /// each of its names, and every block that an instruction names exists.
    pub open spec fn linked(self) -> bool {
        &&& forall|b: int|
            0 <= b < self.blocks.len() ==> (#[trigger] self.blocks[b]).2 < self.bodies.len()
                && self.blocks[b].0 == BlkType::Fun
        &&& forall|i: int|
            0 <= i < self.bodies.len() ==> (#[trigger] self.bodies[i]).start <= self.instrs.len()
                && ends(self.instrs, self.bodies[i].start as int) && self.bodies[i].export.len()
                == self.bodies[i].names.len()
        &&& forall|i: int|
            0 <= i < self.instrs.len() ==> block_in(#[trigger] self.instrs[i], self.blocks.len())
    }

    /// Labels are in order: each is below the next label to be taken, none
    /// occurs twice, and every labelled jump has its label in the buffer.
    pub open spec fn labelled(self) -> bool {
        &&& forall|i: int|
            0 <= i < self.instrs.len() && (#[trigger] self.instrs[i]) is Label
                ==> self.instrs[i]->Label_0 < self.labeln
        &&& forall|i: int, j: int|
            0 <= i < j < self.instrs.len() && (#[trigger] self.instrs[i]) is Label
                ==> self.instrs[i] != #[trigger] self.instrs[j]
        &&& forall|i: int|
            0 <= i < self.instrs.len() && target(#[trigger] self.instrs[i]) is Some ==> has_label(
                self.instrs,
                target(self.instrs[i])->Some_0,
            )
    }

    /// All of the above.
    pub open spec fn well_formed(self) -> bool {
        self.fits() && self.linked() && self.labelled()
    }
}

/// A fresh compiler is well formed.
pub proof fn fresh_is_well_formed()
    ensures
        Draft::fresh().well_formed(),
{
}

/// Appending keeps what was there: to extend is transitive, and a state
/// extends itself.
pub proof fn extends_chain<'a>(a: Draft<'a>, b: Draft<'a>, c: Draft<'a>)
    requires
        b.extends(a),
        c.extends(b),
    ensures
        c.extends(a),
        a.extends(a),
{
}

/// A state that fits has only fitting states before it.
pub proof fn fits_before<'a>(old: Draft<'a>, new: Draft<'a>)
    requires
        new.extends(old),
        new.fits(),
    ensures
        old.fits(),
{
}

proof fn block_extends<'a>(
    d: Draft<'a>,
    ops: Seq<Instr>,
    time: Time,
    vars: usize,
    names: Seq<(&'a str, ObjType)>,
)
    ensures
        d.block(ops, time, vars, names).extends(d),
{
}

proof fn declare_extends<'a>(
    d: Draft<'a>,
    params: Seq<(&'static str, LeafType)>,
    upto: nat,
    acc: Seq<Instr>,
)
    ensures
        d.declare(params, upto, acc).0.extends(d),
        d.declare(params, upto, acc).0.instrs == d.instrs,
        d.declare(params, upto, acc).0.blocks == d.blocks,
        d.declare(params, upto, acc).0.bodies == d.bodies,
        d.declare(params, upto, acc).0.labeln == d.labeln,
        d.declare(params, upto, acc).1 matches Ok(ins) ==> ins.len() == acc.len() + upto && (forall|
            k: int,
        |
            0 <= k < acc.len() ==> ins[k] == acc[k]) && (forall|k: int|
            acc.len() <= k < ins.len() ==> (#[trigger] ins[k]) is Local),
    decreases upto,
{
    if upto > 0 && d.varn != usize::MAX {
        let p = params[upto - 1];
        declare_extends(
            d.add_var(p.0, p.1),
            params,
            (upto - 1) as nat,
            acc.push(Instr::Local(d.varn)),
        );
    }
}

/// Compiling only appends: what was in the instruction buffer, the bodies
/// and the blocks stays where it was, and no counter goes down.
#[verifier::rlimit(30)]
pub proof fn lower_extends<'a>(d: Draft<'a>, l: Leaf<'a>)
    ensures
        lower(d, l).0.extends(d),
    decreases l,
{
    match l {
        Leaf::A(xs) => {
            lower_all_extends(d, xs@, 0, Seq::empty());
        },
        Leaf::D(op, x, y) => {
            if arith_of(op@) is Some && is_operand(*x) && is_operand(*y) {
            } else if op@ == "@"@ && *x is Fun {
                lower_extends(d, *x);
                lower_extends(lower(d, *x).0, *y);
            } else if op@ == "."@ && *x is Fun && *y is A {
                lower_extends(d, *x);
                lower_all_extends(lower(d, *x).0, y->A_0@, 0, Seq::empty());
            } else if op@ == "."@ && *x is Fun && (*y is M || *y is D) {
                lower_extends(d, *y);
                lower_extends(lower(d, *y).0, *x);
            }
        },
        Leaf::M(op, x) => {
            lower_extends(d, *x);
        },
        Leaf::Fun { a, v } => {
            declare_extends(d, a@, a@.len(), Seq::empty());
            let d1 = d.declare(a@, a@.len(), Seq::empty()).0;
            lower_all_extends(d1, v@, 0, Seq::empty());
        },
        _ => {},
    }
}

/// Compiling a list of expressions only appends.
pub proof fn lower_all_extends<'a>(d: Draft<'a>, xs: Seq<Leaf<'a>>, i: int, acc: Seq<usize>)
    ensures
        lower_all(d, xs, i, acc).0.extends(d),
    decreases xs, xs.len() - i,
{
    if 0 <= i < xs.len() {
        lower_extends(d, xs[i]);
        match lower(d, xs[i]) {
            (d1, Ok(b)) => {
                lower_all_extends(d1, xs, i + 1, acc.push(b));
            },
            _ => {},
        }
    }
}

/// A new body of instructions that are neither labels nor labelled jumps
/// keeps a well-formed state well formed, if the instructions end in `Ret`
/// and the blocks that they name exist.
proof fn block_well_formed<'a>(
    d: Draft<'a>,
    ops: Seq<Instr>,
    time: Time,
    vars: usize,
    names: Seq<(&'a str, ObjType)>,
)
    requires
        d.linked(),
        d.labelled(),
        d.block(ops, time, vars, names).fits(),
        ops.len() > 0,
        ops.last() == Instr::Ret,
        forall|k: int| 0 <= k < ops.len() ==> block_in(#[trigger] ops[k], d.blocks.len()),
        forall|k: int| 0 <= k < ops.len() ==> plain(#[trigger] ops[k]),
    ensures
        d.block(ops, time, vars, names).well_formed(),
{
    let n = d.block(ops, time, vars, names);
    let len = d.instrs.len() as int;
    assert forall|i: int| 0 <= i < n.bodies.len() implies (#[trigger] n.bodies[i]).start
        <= n.instrs.len() && ends(n.instrs, n.bodies[i].start as int) && n.bodies[i].export.len()
        == n.bodies[i].names.len() by {
        if i < d.bodies.len() {
            assert(n.bodies[i] == d.bodies[i]);
            let j = choose|j: int|
                d.bodies[i].start <= j < d.instrs.len() && #[trigger] d.instrs[j] == Instr::Ret;
            assert(n.instrs[j] == Instr::Ret);
        } else {
            assert(n.instrs[n.instrs.len() - 1] == Instr::Ret);
        }
    }
    assert forall|i: int| 0 <= i < n.instrs.len() implies block_in(
        #[trigger] n.instrs[i],
        n.blocks.len(),
    ) by {
        if i < len {
            assert(n.instrs[i] == d.instrs[i]);
        } else {
            assert(n.instrs[i] == ops[i - len]);
        }
    }
    assert forall|i: int|
        0 <= i < n.instrs.len() && (#[trigger] n.instrs[i]) is Label implies n.instrs[i]->Label_0
        < n.labeln by {
        if i < len {
            assert(n.instrs[i] == d.instrs[i]);
        } else {
            assert(n.instrs[i] == ops[i - len]);
        }
    }
    assert forall|i: int, j: int|
        0 <= i < j < n.instrs.len() && (#[trigger] n.instrs[i]) is Label implies n.instrs[i]
        != #[trigger] n.instrs[j] by {
        if i < len {
            assert(n.instrs[i] == d.instrs[i]);
            if j < len {
                assert(n.instrs[j] == d.instrs[j]);
            } else {
                assert(n.instrs[j] == ops[j - len]);
            }
        } else {
            assert(n.instrs[i] == ops[i - len]);
        }
    }
    assert forall|i: int|
        0 <= i < n.instrs.len() && target(#[trigger] n.instrs[i]) is Some implies has_label(
        n.instrs,
        target(n.instrs[i])->Some_0,
    ) by {
        if i < len {
            assert(n.instrs[i] == d.instrs[i]);
            let l = target(d.instrs[i])->Some_0;
            let j = choose|j: int|
                0 <= j < d.instrs.len() && #[trigger] d.instrs[j] == Instr::Label(l);
            assert(n.instrs[j] == Instr::Label(l));
        } else {
            assert(n.instrs[i] == ops[i - len]);
        }
    }
}

/// The body of the counting loop, with a label that is new, keeps a
/// well-formed state well formed.
proof fn counting_well_formed<'a>(d: Draft<'a>, x: usize)
    requires
        d.linked(),
        d.labelled(),
        d.labeln < usize::MAX,
        d.varn < usize::MAX,
        x < d.blocks.len(),
        d.mk_label().mk_var().immediate(counting(x, d.labeln, d.varn)).fits(),
    ensures
        d.mk_label().mk_var().immediate(counting(x, d.labeln, d.varn)).well_formed(),
{
    let ops = counting(x, d.labeln, d.varn).push(Instr::Ret);
    let n = d.mk_label().mk_var().immediate(counting(x, d.labeln, d.varn));
    let len = d.instrs.len() as int;
    assert(n.instrs == d.instrs + ops);
    assert(ops.len() == 17);
    assert(ops[6] == Instr::Label(d.labeln));
    assert forall|k: int| 0 <= k < ops.len() && k != 6 implies !((#[trigger] ops[k]) is Label) by {}
    assert forall|i: int| 0 <= i < n.bodies.len() implies (#[trigger] n.bodies[i]).start
        <= n.instrs.len() && ends(n.instrs, n.bodies[i].start as int) && n.bodies[i].export.len()
        == n.bodies[i].names.len() by {
        if i < d.bodies.len() {
            assert(n.bodies[i] == d.bodies[i]);
            let j = choose|j: int|
                d.bodies[i].start <= j < d.instrs.len() && #[trigger] d.instrs[j] == Instr::Ret;
            assert(n.instrs[j] == Instr::Ret);
        } else {
            assert(n.instrs[len + 16] == ops[16]);
        }
    }
    assert forall|i: int| 0 <= i < n.instrs.len() implies block_in(
        #[trigger] n.instrs[i],
        n.blocks.len(),
    ) by {
        if i < len {
            assert(n.instrs[i] == d.instrs[i]);
        } else {
            assert(n.instrs[i] == ops[i - len]);
        }
    }
    assert forall|i: int|
        0 <= i < n.instrs.len() && (#[trigger] n.instrs[i]) is Label implies n.instrs[i]->Label_0
        < n.labeln by {
        if i < len {
            assert(n.instrs[i] == d.instrs[i]);
        } else {
            assert(n.instrs[i] == ops[i - len]);
        }
    }
    assert forall|i: int, j: int|
        0 <= i < j < n.instrs.len() && (#[trigger] n.instrs[i]) is Label implies n.instrs[i]
        != #[trigger] n.instrs[j] by {
        if i < len {
            assert(n.instrs[i] == d.instrs[i]);
            if j < len {
                assert(n.instrs[j] == d.instrs[j]);
            } else {
                assert(n.instrs[j] == ops[j - len]);
            }
        } else {
            assert(n.instrs[i] == ops[i - len]);
            assert(n.instrs[j] == ops[j - len]);
        }
    }
    assert forall|i: int|
        0 <= i < n.instrs.len() && target(#[trigger] n.instrs[i]) is Some implies has_label(
        n.instrs,
        target(n.instrs[i])->Some_0,
    ) by {
        if i < len {
            assert(n.instrs[i] == d.instrs[i]);
            let l = target(d.instrs[i])->Some_0;
            let j = choose|j: int|
                0 <= j < d.instrs.len() && #[trigger] d.instrs[j] == Instr::Label(l);
            assert(n.instrs[j] == Instr::Label(l));
        } else {
            assert(n.instrs[i] == ops[i - len]);
            assert(n.instrs[len + 6] == ops[6]);
        }
    }
}

/// The blocks of a list are among the first `n`.
pub open spec fn all_below(ids: Seq<usize>, n: nat) -> bool {
    forall|k: int| 0 <= k < ids.len() ==> #[trigger] ids[k] < n
}

/// Registering variables changes neither links nor labels.
proof fn declare_well_formed<'a>(
    d: Draft<'a>,
    params: Seq<(&'static str, LeafType)>,
    upto: nat,
    acc: Seq<Instr>,
)
    requires
        d.well_formed(),
    ensures
        d.declare(params, upto, acc).0.well_formed(),
{
    declare_extends(d, params, upto, acc);
}

/// After compiling `l` from `d` the state is well formed and the block
/// that was returned exists.
pub open spec fn kept<'a>(d: Draft<'a>, l: Leaf<'a>) -> bool {
    &&& lower(d, l).0.well_formed()
    &&& lower(d, l).1 matches Ok(b) ==> b < lower(d, l).0.blocks.len()
}

/// Compiling keeps a well-formed state well formed, and the block that it
/// returns exists. The one condition is that the result fits in memory, as
/// every state of a compiler that runs does.
pub proof fn lower_well_formed<'a>(d: Draft<'a>, l: Leaf<'a>)
    requires
        d.linked(),
        d.labelled(),
        lower(d, l).0.fits(),
    ensures
        kept(d, l),
    decreases l, 2nat,
{
    match l {
        Leaf::A(_) => array_kept(d, l),
        Leaf::D(op, x, y) => {
            if arith_of(op@) is Some && is_operand(*x) && is_operand(*y) {
                atom_kept(d, l);
            } else if op@ == "@"@ && *x is Fun {
                apply1_kept(d, l);
            } else if op@ == "."@ && *x is Fun && *y is A {
                apply_n_kept(d, l);
            } else if op@ == "."@ && *x is Fun && (*y is M || *y is D) {
                apply_n_to_kept(d, l);
            } else {
                atom_kept(d, l);
            }
        },
        Leaf::M(op, x) => {
            if *x is F {
                atom_kept(d, l);
            } else if op@ == "-"@ {
                minus_kept(d, l);
            } else if op@ == "!"@ {
                iota_kept(d, l);
            } else {
                atom_kept(d, l);
            }
        },
        Leaf::Fun { .. } => fun_kept(d, l),
        _ => atom_kept(d, l),
    }
}

/// The rules that compile nothing first: variables, literals, arithmetic
/// on operands, the folded minus, the counted vector, and the shapes that
/// have no rule.
proof fn atom_kept<'a>(d: Draft<'a>, l: Leaf<'a>)
    requires
        d.linked(),
        d.labelled(),
        lower(d, l).0.fits(),
        match l {
            Leaf::A(_) => false,
            Leaf::Fun { .. } => false,
            Leaf::D(op, x, y) => (arith_of(op@) is Some && is_operand(*x) && is_operand(*y)) || !((
            op@ == "@"@ || op@ == "."@) && *x is Fun && (op@ == "@"@ || *y is A || *y is M
                || *y is D)),
            Leaf::M(op, x) => *x is F || (op@ != "-"@ && op@ != "!"@),
            _ => true,
        },
    ensures
        kept(d, l),
{
    lower_extends(d, l);
    fits_before(d, lower(d, l).0);
    match l {
        Leaf::X(_) => {
            if d.operand(l) is Ok {
                let i = d.operand(l)->Ok_0;
                let ops = seq![i].push(Instr::Ret);
                block_well_formed(d, ops, Time::Immediate, 0, Seq::empty());
            }
        },
        Leaf::F(v) => {
            let ops = seq![Instr::Push(Obj::F(v))].push(Instr::Ret);
            block_well_formed(d, ops, Time::Immediate, 0, Seq::empty());
        },
        Leaf::C(c) => {
            let ops = seq![Instr::Push(Obj::C(c))].push(Instr::Ret);
            block_well_formed(d, ops, Time::Immediate, 0, Seq::empty());
        },
        Leaf::D(op, x, y) => {
            if arith_of(op@) is Some && is_operand(*x) && is_operand(*y) {
                if d.operand(*x) is Ok && d.operand(*y) is Ok {
                    let ops = seq![
                        d.operand(*x)->Ok_0,
                        d.operand(*y)->Ok_0,
                        arith_of(op@).unwrap(),
                    ].push(Instr::Ret);
                    block_well_formed(d, ops, Time::Immediate, 0, Seq::empty());
                }
            }
        },
        Leaf::M(op, x) => {
            if *x is F {
                let v = x->F_0;
                if op@ == "-"@ {
                    let ops = seq![Instr::Push(Obj::F(v.negated()))].push(Instr::Ret);
                    block_well_formed(d, ops, Time::Immediate, 0, Seq::empty());
                } else if op@ == "!"@ {
                    let ops = counted(v.index()).push(Instr::Ret);
                    block_well_formed(d, ops, Time::Immediate, 0, Seq::empty());
                }
            }
        },
        _ => {},
    }
}

proof fn array_kept<'a>(d: Draft<'a>, l: Leaf<'a>)
    requires
        d.linked(),
        d.labelled(),
        lower(d, l).0.fits(),
        l is A,
    ensures
        kept(d, l),
    decreases l, 1nat,
{
    let xs = l->A_0;
    let (d1, r) = lower_all(d, xs@, 0, Seq::empty());
    if r is Ok {
        let ids = r->Ok_0;
        let ops = jumps(ids).push(Instr::Vec(ids.len() as usize)).push(Instr::Ret);
        block_extends(d1, ops, Time::Immediate, 0, Seq::empty());
        fits_before(d1, lower(d, l).0);
    }
    lower_all_well_formed(d, xs@, 0, Seq::empty());
    if r is Ok {
        let ids = r->Ok_0;
        let ops = jumps(ids).push(Instr::Vec(ids.len() as usize)).push(Instr::Ret);
        block_well_formed(d1, ops, Time::Immediate, 0, Seq::empty());
    }
}

proof fn apply1_kept<'a>(d: Draft<'a>, l: Leaf<'a>)
    requires
        d.linked(),
        d.labelled(),
        lower(d, l).0.fits(),
        l matches Leaf::D(op, x, y) && !(arith_of(op@) is Some && is_operand(*x) && is_operand(*y))
            && op@ == "@"@ && *x is Fun,
    ensures
        kept(d, l),
    decreases l, 1nat,
{
    let x = *l->D_1;
    let y = *l->D_2;
    lower_extends(d, l);
    fits_before(d, lower(d, l).0);
    let (d1, r1) = lower(d, x);
    if r1 is Ok {
        let (d2, r2) = lower(d1, y);
        if r2 is Ok {
            let ops = seq![
                Instr::Push(Obj::Fun(r1->Ok_0)),
                Instr::Push(Obj::Fun(r2->Ok_0)),
                Instr::Apply0,
                Instr::Apply1,
            ];
            assert(d2.immediate(ops).fits());
            pair_well_formed(d, x, y, l);
            block_well_formed(d2, ops.push(Instr::Ret), Time::Immediate, 0, Seq::empty());
        } else {
            pair_well_formed(d, x, y, l);
        }
    } else {
        pair_well_formed(d, x, y, l);
    }
}

proof fn apply_n_to_kept<'a>(d: Draft<'a>, l: Leaf<'a>)
    requires
        d.linked(),
        d.labelled(),
        lower(d, l).0.fits(),
        l matches Leaf::D(op, x, y) && !(arith_of(op@) is Some && is_operand(*x) && is_operand(*y))
            && !(op@ == "@"@ && *x is Fun) && op@ == "."@ && *x is Fun && (*y is M || *y is D),
    ensures
        kept(d, l),
    decreases l, 1nat,
{
    let x = *l->D_1;
    let y = *l->D_2;
    lower_extends(d, l);
    fits_before(d, lower(d, l).0);
    let (d1, r1) = lower(d, y);
    if r1 is Ok {
        let (d2, r2) = lower(d1, x);
        if r2 is Ok {
            let ops = seq![
                Instr::Jmp(r1->Ok_0),
                Instr::PopVec,
                Instr::Push(Obj::Fun(r2->Ok_0)),
                Instr::ApplyN,
            ];
            assert(d2.immediate(ops).fits());
            pair_well_formed(d, y, x, l);
            block_well_formed(d2, ops.push(Instr::Ret), Time::Immediate, 0, Seq::empty());
        } else {
            pair_well_formed(d, y, x, l);
        }
    } else {
        pair_well_formed(d, y, x, l);
    }
}

proof fn apply_n_kept<'a>(d: Draft<'a>, l: Leaf<'a>)
    requires
        d.linked(),
        d.labelled(),
        lower(d, l).0.fits(),
        l matches Leaf::D(op, x, y) && !(arith_of(op@) is Some && is_operand(*x) && is_operand(*y))
            && !(op@ == "@"@ && *x is Fun) && op@ == "."@ && *x is Fun && *y is A,
    ensures
        kept(d, l),
    decreases l, 1nat,
{
    let x = *l->D_1;
    let y = *l->D_2;
    let ys = y->A_0@;
    lower_extends(d, l);
    fits_before(d, lower(d, l).0);
    let (d1, r1) = lower(d, x);
    lower_extends(d, x);
    if r1 is Ok {
        let (d2, r2) = lower_all(d1, ys, 0, Seq::empty());
        lower_all_extends(d1, ys, 0, Seq::empty());
        if r2 is Ok {
            let ids = r2->Ok_0;
            let ops = jumps(ids).push(Instr::Push(Obj::Fun(r1->Ok_0))).push(Instr::ApplyN).push(
                Instr::Ret,
            );
            block_extends(d2, ops, Time::Immediate, 0, Seq::empty());
            fits_before(d2, lower(d, l).0);
        }
        fits_before(d1, d2);
        lower_well_formed(d, x);
        lower_all_well_formed(d1, ys, 0, Seq::empty());
        if r2 is Ok {
            let ids = r2->Ok_0;
            let ops = jumps(ids).push(Instr::Push(Obj::Fun(r1->Ok_0))).push(Instr::ApplyN).push(
                Instr::Ret,
            );
            block_well_formed(d2, ops, Time::Immediate, 0, Seq::empty());
        }
    } else {
        lower_well_formed(d, x);
    }
}

proof fn minus_kept<'a>(d: Draft<'a>, l: Leaf<'a>)
    requires
        d.linked(),
        d.labelled(),
        lower(d, l).0.fits(),
        l matches Leaf::M(op, x) && op@ == "-"@ && !(*x is F),
    ensures
        kept(d, l),
    decreases l, 1nat,
{
    let x = *l->M_1;
    lower_extends(d, l);
    fits_before(d, lower(d, l).0);
    let (d1, r1) = lower(d, x);
    lower_extends(d, x);
    if r1 is Ok {
        let ops = seq![Instr::Jmp(r1->Ok_0), Instr::NegF].push(Instr::Ret);
        block_extends(d1, ops, Time::Immediate, 0, Seq::empty());
        fits_before(d1, lower(d, l).0);
        lower_well_formed(d, x);
        block_well_formed(d1, ops, Time::Immediate, 0, Seq::empty());
    } else {
        lower_well_formed(d, x);
    }
}

proof fn iota_kept<'a>(d: Draft<'a>, l: Leaf<'a>)
    requires
        d.linked(),
        d.labelled(),
        lower(d, l).0.fits(),
        l matches Leaf::M(op, x) && op@ != "-"@ && op@ == "!"@ && !(*x is F),
    ensures
        kept(d, l),
    decreases l, 1nat,
{
    let x = *l->M_1;
    lower_extends(d, l);
    fits_before(d, lower(d, l).0);
    let (d1, r1) = lower(d, x);
    lower_extends(d, x);
    if r1 is Ok && d1.labeln != usize::MAX && d1.varn != usize::MAX {
        let ops = counting(r1->Ok_0, d1.labeln, d1.varn).push(Instr::Ret);
        block_extends(d1.mk_label().mk_var(), ops, Time::Immediate, 0, Seq::empty());
        fits_before(d1, lower(d, l).0);
        lower_well_formed(d, x);
        counting_well_formed(d1, r1->Ok_0);
    } else {
        lower_well_formed(d, x);
    }
}

proof fn fun_kept<'a>(d: Draft<'a>, l: Leaf<'a>)
    requires
        d.linked(),
        d.labelled(),
        lower(d, l).0.fits(),
        l is Fun,
    ensures
        kept(d, l),
    decreases l, 1nat,
{
    let a = l->a;
    let v = l->v;
    lower_extends(d, l);
    fits_before(d, lower(d, l).0);
    if kinds_known(a@) {
        let (d1, r1) = d.declare(a@, a@.len(), Seq::empty());
        declare_extends(d, a@, a@.len(), Seq::empty());
        declare_well_formed(d, a@, a@.len(), Seq::empty());
        if r1 is Ok && v@.len() > 0 {
            let prelude = r1->Ok_0;
            let (d2, r2) = lower_all(d1, v@, 0, Seq::empty());
            lower_all_extends(d1, v@, 0, Seq::empty());
            if r2 is Ok {
                let ids = r2->Ok_0;
                lower_all_len(d1, v@, 0, Seq::empty());
                let ops = prelude.push(Instr::Jmp(ids[0])).push(Instr::Ret);
                block_extends(d2, ops, Time::Deferred, a@.len() as usize, names_of(a@));
                fits_before(d2, lower(d, l).0);
            }
            lower_all_well_formed(d1, v@, 0, Seq::empty());
            if r2 is Ok {
                let ids = r2->Ok_0;
                let ops = prelude.push(Instr::Jmp(ids[0])).push(Instr::Ret);
                block_well_formed(d2, ops, Time::Deferred, a@.len() as usize, names_of(a@));
            }
        }
    }
}

/// Compiling first `x` and then `y`, as the rules for application do,
/// keeps a well-formed state well formed as far as it gets, and the blocks
/// of both exist afterwards.
proof fn pair_well_formed<'a>(d: Draft<'a>, x: Leaf<'a>, y: Leaf<'a>, l: Leaf<'a>)
    requires
        d.linked(),
        d.labelled(),
        d.fits(),
        decreases_to!(l => x),
        decreases_to!(l => y),
        match lower(d, x) {
            (d1, Err(_)) => d1.fits(),
            (d1, Ok(_)) => match lower(d1, y) {
                (d2, Err(_)) => d2.fits(),
                (d2, Ok(_)) => exists|ops: Seq<Instr>| (#[trigger] d2.immediate(ops)).fits(),
            },
        },
    ensures
        lower(d, x).0.well_formed(),
        lower(d, x).1 matches Ok(f) ==> {
            let d1 = lower(d, x).0;
            &&& lower(d1, y).0.well_formed()
            &&& f < lower(d1, y).0.blocks.len()
            &&& lower(d1, y).1 matches Ok(g) ==> g < lower(d1, y).0.blocks.len()
        },
    decreases l, 0nat,
{
    let (d1, r1) = lower(d, x);
    lower_extends(d, x);
    if r1 is Ok {
        let (d2, r2) = lower(d1, y);
        lower_extends(d1, y);
        if r2 is Ok {
            let ops = choose|ops: Seq<Instr>| (#[trigger] d2.immediate(ops)).fits();
            block_extends(d2, ops.push(Instr::Ret), Time::Immediate, 0, Seq::empty());
            fits_before(d2, d2.immediate(ops));
        }
        fits_before(d1, d2);
        lower_well_formed(d, x);
        lower_well_formed(d1, y);
    } else {
        lower_well_formed(d, x);
    }
}

/// Compiling a list of expressions keeps a well-formed state well formed,
/// and the blocks that it returns exist.
pub proof fn lower_all_well_formed<'a>(d: Draft<'a>, xs: Seq<Leaf<'a>>, i: int, acc: Seq<usize>)
    requires
        d.linked(),
        d.labelled(),
        lower_all(d, xs, i, acc).0.fits(),
        all_below(acc, d.blocks.len()),
    ensures
        lower_all(d, xs, i, acc).0.well_formed(),
        lower_all(d, xs, i, acc).1 matches Ok(ids) ==> all_below(
            ids,
            lower_all(d, xs, i, acc).0.blocks.len(),
        ),
    decreases xs, xs.len() - i,
{
    lower_all_extends(d, xs, i, acc);
    fits_before(d, lower_all(d, xs, i, acc).0);
    if 0 <= i < xs.len() {
        let (d1, r1) = lower(d, xs[i]);
        lower_extends(d, xs[i]);
        if r1 is Ok {
            lower_all_extends(d1, xs, i + 1, acc.push(r1->Ok_0));
            fits_before(d1, lower_all(d, xs, i, acc).0);
            lower_well_formed(d, xs[i]);
            assert(all_below(acc.push(r1->Ok_0), d1.blocks.len()));
            lower_all_well_formed(d1, xs, i + 1, acc.push(r1->Ok_0));
        } else {
            lower_well_formed(d, xs[i]);
        }
    }
}

} // verus!
