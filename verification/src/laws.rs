//! What holds of the compiler and the machine together.
//!
//! Each law speaks of an expression, of the program that the compiler makes
//! of it from nothing, and of a fresh machine that runs the program: a
//! literal comes back as it is, arithmetic goes to the host and its answer
//! comes back, a double negation gives the number back bit for bit, `!`
//! counts from zero, a function is its own value, an application binds its
//! argument, and arguments keep their order.
use crate::bc::{chosen, Blk, BlkType, Instr, Obj, ObjType, Time};
use crate::lisp::{trees, trees_are_itemwise, CompileError, Leaf, LeafType, Tree};
use crate::lower::{arith_of, counted, hidden, jumps, lower, lower_all, names_of, Draft};
use crate::num::{negated_twice, Double};
use crate::sem::{
    boot, dispatch, exe, operation, resume, run, step, Action, Call, Fault, Frame, Program, State,
    TableView,
};
use crate::show::{lit, render, render_items, render_pairs};
use crate::text::Token;
use vstd::prelude::*;
use vstd::string::*;

verus! {

/// Compilation is a function: from equal states an expression is compiled
/// to equal instructions, blocks and bodies, and to the same block or for
/// the same reason to none.
pub proof fn compile_is_a_function<'a>(a: Draft<'a>, b: Draft<'a>, l: Leaf<'a>)
    requires
        a == b,
    ensures
        lower(a, l) == lower(b, l),
{
}

/// Expressions that are the same tree compile alike: a copy of an
/// expression is compiled to what the expression is compiled to.
pub proof fn same_tree_compiles_alike<'a>(d: Draft<'a>, a: Leaf<'a>, b: Leaf<'a>)
    requires
        a@ == b@,
    ensures
        lower(d, a) == lower(d, b),
    decreases a,
{
    match a {
        Leaf::X(x) => {
            assert(b is X && b->X_0 == x);
        },
        Leaf::F(v) => {
            assert(b is F && b->F_0 == v);
        },
        Leaf::C(c) => {
            assert(b is C && b->C_0 == c);
        },
        Leaf::A(xs) => {
            assert(b is A);
            assert(b.view() == Tree::A(trees(b->A_0@, 0)));
            same_trees_compile_alike(d, xs@, b->A_0@, 0, Seq::empty());
        },
        Leaf::M(op, x) => {
            assert(b is M && b->M_0 == op);
            let p = *b->M_1;
            assert(b.view() == Tree::M(op, Box::new(p.view())));
            assert(x.view() == p.view());
            assert((*x is F) == (p is F));
            if *x is F {
                assert(p->F_0 == x->F_0);
            }
            same_tree_compiles_alike(d, *x, p);
        },
        Leaf::D(op, x, y) => {
            assert(b is D && b->D_0 == op);
            let (p, q) = (*b->D_1, *b->D_2);
            assert(b.view() == Tree::D(op, Box::new(p.view()), Box::new(q.view())));
            assert(x.view() == p.view() && y.view() == q.view());
            same_shape(*x, p);
            same_shape(*y, q);
            same_tree_compiles_alike(d, *x, p);
            same_tree_compiles_alike(lower(d, *x).0, *y, q);
            same_tree_compiles_alike(d, *y, q);
            same_tree_compiles_alike(lower(d, *y).0, *x, p);
            if *y is A {
                same_trees_compile_alike(lower(d, *x).0, y->A_0@, q->A_0@, 0, Seq::empty());
            }
        },
        Leaf::Fun { a: params, v } => {
            assert(b is Fun);
            assert(b.view() == Tree::Fun { a: b->a@, v: trees(b->v@, 0) });
            assert(b->a@ == params@);
            let d1 = d.declare(params@, params@.len(), Seq::empty()).0;
            trees_are_itemwise(v@, 0);
            trees_are_itemwise(b->v@, 0);
            same_trees_compile_alike(d1, v@, b->v@, 0, Seq::empty());
        },
    }
}

/// Expressions that are the same tree are of the same variant, hold the
/// same name, number or character, and the same tree of each item.
proof fn same_shape(a: Leaf, b: Leaf)
    requires
        a@ == b@,
    ensures
        (a is X) == (b is X),
        (a is F) == (b is F),
        (a is C) == (b is C),
        (a is A) == (b is A),
        (a is M) == (b is M),
        (a is D) == (b is D),
        (a is Fun) == (b is Fun),
        a is X ==> a->X_0 == b->X_0,
        a is F ==> a->F_0 == b->F_0,
        a is A ==> trees(a->A_0@, 0) == trees(b->A_0@, 0),
{
}

/// Lists of expressions that are the same trees compile alike.
pub proof fn same_trees_compile_alike<'a>(
    d: Draft<'a>,
    xs: Seq<Leaf<'a>>,
    ys: Seq<Leaf<'a>>,
    i: int,
    acc: Seq<usize>,
)
    requires
        trees(xs, 0) == trees(ys, 0),
        0 <= i,
    ensures
        lower_all(d, xs, i, acc) == lower_all(d, ys, i, acc),
    decreases xs, xs.len() - i,
{
    trees_are_itemwise(xs, 0);
    trees_are_itemwise(ys, 0);
    if i < xs.len() {
        assert(trees(xs, 0)[i] == xs[i].view());
        assert(trees(ys, 0)[i] == ys[i].view());
        same_tree_compiles_alike(d, xs[i], ys[i]);
        match lower(d, xs[i]) {
            (d1, Ok(b)) => {
                same_trees_compile_alike(d1, xs, ys, i + 1, acc.push(b));
            },
            _ => {},
        }
    }
}

/// Once a run has come to a request of the host, more fuel changes
/// nothing.
pub proof fn run_settles(p: Program, s: State, fuel: nat, more: nat)
    requires
        run(p, s, fuel).1 != Action::Next,
    ensures
        run(p, s, fuel + more) == run(p, s, fuel),
    decreases fuel,
{
    if fuel > 0 {
        match step(p, s) {
            (t, Action::Next) => {
                run_settles(p, t, (fuel - 1) as nat, more);
            },
            _ => {},
        }
    }
}

/// In a program that the compiler made, a block that exists is found with
/// its body: its dispatch begins the body or hands the function over, and
/// is at fault only where a deferred block has too few arguments.
pub proof fn dispatch_finds_its_body(d: Draft, s: State, b: usize)
    requires
        d.well_formed(),
        b < d.blocks.len(),
    ensures
        match dispatch(d.program(), s, b).1 {
            Action::Fail(f) => f == Fault::Arity(b),
            Action::Compute(_, _, _) => false,
            _ => true,
        },
{
    assert(d.blocks[b as int].2 < d.bodies.len());
    assert(d.bodies[d.blocks[b as int].2 as int].start <= d.instrs.len());
}

/// The four arithmetic operators are told apart: `+` adds, `-` subtracts,
/// `*` multiplies and `%` divides.
pub proof fn operators_differ()
    ensures
        arith_of("+"@) == Some(Instr::AddF),
        arith_of("-"@) == Some(Instr::SubF),
        arith_of("*"@) == Some(Instr::MulF),
        arith_of("%"@) == Some(Instr::DivF),
{
    reveal_strlit("+");
    reveal_strlit("-");
    reveal_strlit("*");
    reveal_strlit("%");
    assert("+"@[0] == '+' && "-"@[0] == '-' && "*"@[0] == '*' && "%"@[0] == '%');
}

/// A literal number evaluates to itself: its program returns the number
/// after two transitions and leaves nothing behind, and the number renders
/// as the one number piece.
pub proof fn literal_round_trip(x: Double)
    ensures
        ({
            let (d, r) = lower(Draft::fresh(), Leaf::F(x));
            &&& r == Ok::<usize, CompileError>(0)
            &&& boot(d.program(), 0, 2) == (State::fresh(), Action::Done(Obj::F(x)))
            &&& forall|depth: nat| render(Map::empty(), Obj::F(x), depth) == seq![Token::Num(x)]
        }),
{
    reveal(exe);
    reveal_with_fuel(run, 3);
    let (d, r) = lower(Draft::fresh(), Leaf::F(x));
    let p = d.program();
    assert(p.code =~= seq![Instr::Push(Obj::F(x)), Instr::Ret]);
    let s0 = dispatch(p, State::fresh(), 0).0;
    assert(s0.frames =~= seq![Frame { pc: 0, call: Call::Block(0) }]);
    let s1 = step(p, s0).0;
    assert(s1.frames =~= seq![Frame { pc: 1, call: Call::Block(0) }]);
    assert(s1.stack =~= seq![Obj::F(x)]);
    let s2 = step(p, s1).0;
    assert(s2.stack =~= Seq::empty());
    assert(s2.frames =~= Seq::empty());
}

/// Arithmetic on two literal numbers goes to the host and comes back: the
/// program asks for the first number, the operation of the operator, the
/// second number, and whatever number the host hands back is what it
/// returns.
pub proof fn arithmetic_is_the_hosts(op: &'static str, a: Double, b: Double, r: Double)
    requires
        arith_of(op@) is Some,
    ensures
        ({
            let (d, res) = lower(Draft::fresh(), Leaf::D(op, &Leaf::F(a), &Leaf::F(b)));
            let (asking, action) = boot(d.program(), 0, 3);
            &&& res == Ok::<usize, CompileError>(0)
            &&& Some(action) == match operation(arith_of(op@).unwrap()) {
                Some(o) => Some(Action::Compute(o, a, b)),
                None => None,
            }
            &&& run(d.program(), resume(asking, r), 1) == (
                State::fresh(),
                Action::Done(Obj::F(r)),
            )
        }),
{
    reveal(exe);
    reveal_with_fuel(run, 4);
    let ins = arith_of(op@).unwrap();
    let (d, res) = lower(Draft::fresh(), Leaf::D(op, &Leaf::F(a), &Leaf::F(b)));
    let p = d.program();
    assert(p.code =~= seq![Instr::Push(Obj::F(a)), Instr::Push(Obj::F(b)), ins, Instr::Ret]);
    let s0 = dispatch(p, State::fresh(), 0).0;
    assert(s0.frames =~= seq![Frame { pc: 0, call: Call::Block(0) }]);
    let s1 = step(p, s0).0;
    assert(s1.frames =~= seq![Frame { pc: 1, call: Call::Block(0) }]);
    assert(s1.stack =~= seq![Obj::F(a)]);
    let s2 = step(p, s1).0;
    assert(s2.frames =~= seq![Frame { pc: 2, call: Call::Block(0) }]);
    assert(s2.stack =~= seq![Obj::F(a), Obj::F(b)]);
    let s3 = step(p, s2).0;
    assert(s3.frames =~= seq![Frame { pc: 3, call: Call::Block(0) }]);
    assert(s3.stack =~= Seq::empty());
    let s4 = resume(s3, r);
    assert(s4.stack =~= seq![Obj::F(r)]);
    let s5 = step(p, s4).0;
    assert(s5.stack =~= Seq::empty());
    assert(s5.frames =~= Seq::empty());
}

proof fn negated_compiles(x: Double)
    ensures
        lower(Draft::fresh(), Leaf::M("-", &Leaf::M("-", &Leaf::F(x)))) == (
            Draft::fresh().immediate(seq![Instr::Push(Obj::F(x.negated()))]).immediate(
                seq![Instr::Jmp(0), Instr::NegF],
            ),
            Ok::<usize, CompileError>(1),
        ),
{
    let d0 = Draft::fresh();
    let inner = Leaf::M("-", &Leaf::F(x));
    assert(lower(d0, inner) == d0.done(seq![Instr::Push(Obj::F(x.negated()))]));
}

/// Negating twice gives the number back, bit for bit: the program of
/// `- - x` returns `x` after five transitions and leaves nothing behind.
pub proof fn negation_twice(x: Double)
    ensures
        ({
            let (d, r) = lower(Draft::fresh(), Leaf::M("-", &Leaf::M("-", &Leaf::F(x))));
            &&& r == Ok::<usize, CompileError>(1)
            &&& boot(d.program(), 1, 5) == (State::fresh(), Action::Done(Obj::F(x)))
        }),
{
    reveal(exe);
    reveal_with_fuel(run, 6);
    negated_twice(x);
    negated_compiles(x);
    let d = Draft::fresh().immediate(seq![Instr::Push(Obj::F(x.negated()))]).immediate(
        seq![Instr::Jmp(0), Instr::NegF],
    );
    let p = d.program();
    assert(p.code =~= seq![
        Instr::Push(Obj::F(x.negated())),
        Instr::Ret,
        Instr::Jmp(0),
        Instr::NegF,
        Instr::Ret,
    ]);
    let outer = Frame { pc: 3, call: Call::Block(1) };
    let s0 = dispatch(p, State::fresh(), 1).0;
    assert(s0.frames =~= seq![Frame { pc: 2, call: Call::Block(1) }]);
    let s1 = step(p, s0).0;
    assert(s1.frames =~= seq![outer, Frame { pc: 0, call: Call::Block(0) }]);
    let s2 = step(p, s1).0;
    assert(s2.frames =~= seq![outer, Frame { pc: 1, call: Call::Block(0) }]);
    assert(s2.stack =~= seq![Obj::F(x.negated())]);
    let s3 = step(p, s2).0;
    assert(s3.frames =~= seq![outer]);
    assert(s3.stack =~= seq![Obj::F(x.negated())]);
    let s4 = step(p, s3).0;
    assert(s4.frames =~= seq![Frame { pc: 4, call: Call::Block(1) }]);
    assert(s4.stack =~= seq![Obj::F(x)]);
    let s5 = step(p, s4).0;
    assert(s5.stack =~= Seq::empty());
    assert(s5.frames =~= Seq::empty());
}

/// A function is its own value: the block that a function compiles to,
/// dispatched with nothing on the stack and nothing running, hands the
/// function over and runs nothing.
pub proof fn a_function_is_a_value<'a>(d: Draft<'a>, l: Leaf<'a>, s: State)
    requires
        l is Fun,
        lower(d, l).1 is Ok,
        lower(d, l).0.fits(),
        s.stack.len() == 0,
        s.frames.len() == 0,
    ensures
        ({
            let b = lower(d, l).1->Ok_0;
            dispatch(lower(d, l).0.program(), s, b) == (s, Action::Done(Obj::Fun(b)))
        }),
{
    let a = l->a;
    let v = l->v;
    let d1 = d.declare(a@, a@.len(), Seq::empty()).0;
    let d2 = lower_all(d1, v@, 0, Seq::empty()).0;
    let last = lower(d, l).0;
    assert(last.blocks.len() == d2.blocks.len() + 1);
    assert(last.blocks[d2.blocks.len() as int].1 == Time::Deferred);
}

/// The body of a function lists the parameters in source order, takes as
/// many arguments as there are parameters, and has one export flag for each
/// name, none of them set.
pub proof fn a_function_lists_its_parameters<'a>(d: Draft<'a>, l: Leaf<'a>)
    requires
        l is Fun,
        lower(d, l).1 is Ok,
        l->a@.len() <= usize::MAX,
    ensures
        ({
            let body = lower(d, l).0.bodies.last();
            &&& body.names == names_of::<'a>(l->a@)
            &&& body.names.len() == l->a@.len()
            &&& body.vars == body.names.len()
            &&& body.export == hidden(body.names.len())
            &&& chosen(body.names, body.export) == Seq::<(&'a str, ObjType)>::empty()
        }),
{
    let body = lower(d, l).0.bodies.last();
    none_chosen(body.names, body.export);
}

/// Of names that are all hidden none is chosen.
pub proof fn none_chosen<A>(items: Seq<A>, flags: Seq<bool>)
    requires
        flags == hidden(items.len()),
    ensures
        chosen(items, flags) == Seq::<A>::empty(),
    decreases items.len(),
{
    if items.len() > 0 {
        assert(flags.drop_last() =~= hidden(items.drop_last().len()));
        none_chosen(items.drop_last(), flags.drop_last());
    }
}

/// `f` is the function `{x: a op x}` of one parameter.
pub open spec fn adds_to(f: Leaf, op: &'static str, a: Double, x: &'static str) -> bool {
    &&& f is Fun
    &&& f->a@ == seq![(x, LeafType::F)]
    &&& f->v@.len() == 1
    &&& f->v@[0] == Leaf::D(op, &Leaf::F(a), &Leaf::X(x))
}

/// The program has the given code and one block for each body, in order:
/// the body `i` starts at `starts[i]`, and only the block `deferred` is
/// deferred, with `vars` parameters.
spec fn laid_out(p: Program, code: Seq<Instr>, starts: Seq<usize>, deferred: int, vars: usize) -> bool {
    &&& p.code == code
    &&& p.blocks.len() == starts.len()
    &&& p.bodies.len() == starts.len()
    &&& forall|i: int|
        0 <= i < starts.len() ==> (#[trigger] p.blocks[i]) == Blk(
            BlkType::Fun,
            if i == deferred {
                Time::Deferred
            } else {
                Time::Immediate
            },
            i as usize,
        )
    &&& forall|i: int| 0 <= i < starts.len() ==> (#[trigger] p.bodies[i]).start == starts[i]
    &&& p.bodies[deferred].vars == vars
}

/// The code of `{x: a op x} @ b`.
spec fn applied_code(ins: Instr, a: Double, b: Double) -> Seq<Instr> {
    seq![
        Instr::Push(Obj::F(a)),
        Instr::Load(0),
        ins,
        Instr::Ret,
        Instr::Local(0),
        Instr::Jmp(0),
        Instr::Ret,
        Instr::Push(Obj::F(b)),
        Instr::Ret,
        Instr::Push(Obj::Fun(1)),
        Instr::Push(Obj::Fun(2)),
        Instr::Apply0,
        Instr::Apply1,
        Instr::Ret,
    ]
}

proof fn applied_compiles(f: Leaf, op: &'static str, a: Double, b: Double, x: &'static str)
    requires
        arith_of(op@) is Some,
        adds_to(f, op, a, x),
    ensures
        ({
            let (d, res) = lower(Draft::fresh(), Leaf::D("@", &f, &Leaf::F(b)));
            &&& res == Ok::<usize, CompileError>(3)
            &&& laid_out(
                d.program(),
                applied_code(arith_of(op@).unwrap(), a, b),
                seq![0, 4, 7, 9],
                1,
                1,
            )
        }),
{
    reveal_with_fuel(lower_all, 3);
    reveal_with_fuel(Draft::declare, 3);
    reveal_with_fuel(Draft::slot_below, 3);
    let ins = arith_of(op@).unwrap();
    let d0 = Draft::fresh();
    let d1 = d0.add_var(x, LeafType::F);
    assert(d0.declare(f->a@, 1, Seq::empty()) == (d1, Ok::<Seq<Instr>, CompileError>(
        seq![Instr::Local(0)],
    )));
    assert(d1.lookup(x@) == Some(0usize));
    let body = f->v@[0];
    let (d2, r2) = lower(d1, body);
    assert(r2 == Ok::<usize, CompileError>(0));
    assert(d2.instrs =~= seq![Instr::Push(Obj::F(a)), Instr::Load(0), ins, Instr::Ret]);
    assert(lower_all(d1, f->v@, 0, Seq::empty()) == (d2, Ok::<Seq<usize>, CompileError>(
        seq![0usize],
    )));
    let (d3, r3) = lower(d0, f);
    assert(r3 == Ok::<usize, CompileError>(1));
    assert(d3.instrs =~= d2.instrs + seq![Instr::Local(0), Instr::Jmp(0), Instr::Ret]);
    let (d4, r4) = lower(d3, Leaf::F(b));
    assert(d4.instrs =~= d3.instrs + seq![Instr::Push(Obj::F(b)), Instr::Ret]);
    let (d, res) = lower(d0, Leaf::D("@", &f, &Leaf::F(b)));
    assert(d.instrs =~= d4.instrs + seq![
        Instr::Push(Obj::Fun(1)),
        Instr::Push(Obj::Fun(2)),
        Instr::Apply0,
        Instr::Apply1,
        Instr::Ret,
    ]);
    assert(d.instrs =~= applied_code(ins, a, b));
}

/// The frames of a run in which the block `b` called the block 1, which
/// called the block 0.
spec fn nested(b: usize, outer: usize, fun: usize, inner: usize) -> Seq<Frame> {
    seq![
        Frame { pc: outer, call: Call::Block(b) },
        Frame { pc: fun, call: Call::Block(1) },
        Frame { pc: inner, call: Call::Block(0) },
    ]
}

proof fn applied_begins(p: Program, ins: Instr, a: Double, b: Double)
    requires
        laid_out(p, applied_code(ins, a, b), seq![0, 4, 7, 9], 1, 1),
    ensures
        boot(p, 3, 6).1 == Action::Next,
        boot(p, 3, 6).0 == (State {
            stack: seq![Obj::F(b)],
            frames: seq![
                Frame { pc: 13, call: Call::Block(3) },
                Frame { pc: 4, call: Call::Block(1) },
            ],
            ..State::fresh()
        }),
{
    reveal(exe);
    reveal_with_fuel(run, 7);
    let top = |pc: usize| Frame { pc, call: Call::Block(3) };
    assert(p.blocks[3] == Blk(BlkType::Fun, Time::Immediate, 3));
    assert(p.blocks[2] == Blk(BlkType::Fun, Time::Immediate, 2));
    assert(p.blocks[1] == Blk(BlkType::Fun, Time::Deferred, 1));
    assert(p.bodies[3].start == 9 && p.bodies[2].start == 7 && p.bodies[1].start == 4);
    let s0 = dispatch(p, State::fresh(), 3).0;
    assert(s0.frames =~= seq![top(9)]);
    let s1 = step(p, s0).0;
    assert(s1.frames =~= seq![top(10)] && s1.stack =~= seq![Obj::Fun(1)]);
    let s2 = step(p, s1).0;
    assert(s2.frames =~= seq![top(11)] && s2.stack =~= seq![Obj::Fun(1), Obj::Fun(2)]);
    let s3 = step(p, s2).0;
    assert(s3.frames =~= seq![top(12), Frame { pc: 7, call: Call::Block(2) }]);
    assert(s3.stack =~= seq![Obj::Fun(1)]);
    let s4 = step(p, s3).0;
    assert(s4.frames =~= seq![top(12), Frame { pc: 8, call: Call::Block(2) }]);
    assert(s4.stack =~= seq![Obj::Fun(1), Obj::F(b)]);
    let s5 = step(p, s4).0;
    assert(s5.frames =~= seq![top(12)] && s5.stack =~= seq![Obj::Fun(1), Obj::F(b)]);
    let s6 = step(p, s5).0;
    assert(s6.frames =~= seq![top(13), Frame { pc: 4, call: Call::Block(1) }]);
    assert(s6.stack =~= seq![Obj::F(b)]);
}

proof fn applied_asks(p: Program, ins: Instr, a: Double, b: Double, s: State)
    requires
        laid_out(p, applied_code(ins, a, b), seq![0, 4, 7, 9], 1, 1),
        operation(ins) is Some,
        s == (State {
            stack: seq![Obj::F(b)],
            frames: seq![
                Frame { pc: 13, call: Call::Block(3) },
                Frame { pc: 4, call: Call::Block(1) },
            ],
            ..State::fresh()
        }),
    ensures
        run(p, s, 5).1 == Action::Compute(operation(ins)->Some_0, a, b),
        run(p, s, 5).0.stack == Seq::<Obj>::empty(),
        run(p, s, 5).0.frames == nested(3, 13, 6, 3),
{
    reveal(exe);
    reveal_with_fuel(run, 6);
    assert(p.blocks[0] == Blk(BlkType::Fun, Time::Immediate, 0));
    assert(p.bodies[0].start == 0);
    let s1 = step(p, s).0;
    assert(s1.frames =~= seq![
        Frame { pc: 13, call: Call::Block(3) },
        Frame { pc: 5, call: Call::Block(1) },
    ]);
    assert(s1.stack =~= Seq::empty());
    assert(s1.vars =~= Map::empty().insert(0usize, Obj::F(b)));
    let s2 = step(p, s1).0;
    assert(s2.frames =~= nested(3, 13, 6, 0));
    assert(s2.vars == s1.vars && s2.stack =~= Seq::empty());
    let s3 = step(p, s2).0;
    assert(s3.frames =~= nested(3, 13, 6, 1));
    assert(s3.vars == s1.vars && s3.stack =~= seq![Obj::F(a)]);
    let s4 = step(p, s3).0;
    assert(s4.frames =~= nested(3, 13, 6, 2));
    assert(s4.stack =~= seq![Obj::F(a), Obj::F(b)]);
    let s5 = step(p, s4).0;
    assert(s5.frames =~= nested(3, 13, 6, 3));
    assert(s5.stack =~= Seq::empty());
}

/// With the host's answer on the stack, three bodies nested in each other
/// that stand at their `Ret` return it one to the other and to the host.
proof fn answer_returns(p: Program, s: State, b: usize, outer: usize, fun: usize, inner: usize, r: Double)
    requires
        s.stack == seq![Obj::F(r)],
        s.frames == nested(b, outer, fun, inner),
        outer < p.code.len() && p.code[outer as int] == Instr::Ret,
        fun < p.code.len() && p.code[fun as int] == Instr::Ret,
        inner < p.code.len() && p.code[inner as int] == Instr::Ret,
    ensures
        run(p, s, 3).1 == Action::Done(Obj::F(r)),
{
    reveal_with_fuel(run, 4);
    let s1 = step(p, s).0;
    assert(s1.frames =~= seq![
        Frame { pc: outer, call: Call::Block(b) },
        Frame { pc: fun, call: Call::Block(1) },
    ]);
    assert(s1.stack =~= seq![Obj::F(r)]);
    let s2 = step(p, s1).0;
    assert(s2.frames =~= seq![Frame { pc: outer, call: Call::Block(b) }]);
    assert(s2.stack =~= seq![Obj::F(r)]);
    let s3 = step(p, s2);
    assert(s3.1 == Action::Done(Obj::F(r)));
}

/// A run that went on for `n` transitions goes on from there: `n + m`
/// transitions are `n` and then `m`.
pub proof fn run_goes_on(p: Program, s: State, n: nat, m: nat)
    requires
        run(p, s, n).1 == Action::Next,
    ensures
        run(p, s, n + m) == run(p, run(p, s, n).0, m),
    decreases n,
{
    if n > 0 {
        match step(p, s) {
            (t, Action::Next) => {
                run_goes_on(p, t, (n - 1) as nat, m);
            },
            _ => {},
        }
    }
}

/// Application binds the argument: the program of `{x: a op x} @ b` asks
/// the host for `a op b` and returns what the host hands back.
pub proof fn application_binds_its_argument(
    f: Leaf,
    op: &'static str,
    a: Double,
    b: Double,
    x: &'static str,
    r: Double,
)
    requires
        arith_of(op@) is Some,
        adds_to(f, op, a, x),
    ensures
        ({
            let (d, res) = lower(Draft::fresh(), Leaf::D("@", &f, &Leaf::F(b)));
            let (asking, action) = boot(d.program(), 3, 11);
            &&& res == Ok::<usize, CompileError>(3)
            &&& Some(action) == match operation(arith_of(op@).unwrap()) {
                Some(o) => Some(Action::Compute(o, a, b)),
                None => None,
            }
            &&& run(d.program(), resume(asking, r), 3).1 == Action::Done(Obj::F(r))
        }),
{
    let ins = arith_of(op@).unwrap();
    let (d, res) = lower(Draft::fresh(), Leaf::D("@", &f, &Leaf::F(b)));
    let p = d.program();
    applied_compiles(f, op, a, b, x);
    applied_begins(p, ins, a, b);
    let begun = boot(p, 3, 6).0;
    applied_asks(p, ins, a, b, begun);
    let s0 = dispatch(p, State::fresh(), 3).0;
    assert(dispatch(p, State::fresh(), 3).1 == Action::Next) by {
        assert(p.blocks[3] == Blk(BlkType::Fun, Time::Immediate, 3));
        assert(p.bodies[3].start == 9);
    }
    run_goes_on(p, s0, 6, 5);
    let asking = boot(p, 3, 11).0;
    answer_returns(p, resume(asking, r), 3, 13, 6, 3, r);
}

/// `f` is the function `{x y: x op y}` of two parameters with different
/// names.
pub open spec fn combines(f: Leaf, op: &'static str, x: &'static str, y: &'static str) -> bool {
    &&& f is Fun
    &&& f->a@ == seq![(x, LeafType::F), (y, LeafType::F)]
    &&& f->v@.len() == 1
    &&& f->v@[0] == Leaf::D(op, &Leaf::X(x), &Leaf::X(y))
    &&& x@ != y@
}

/// `args` is the array `[a, b]` of two literal numbers.
pub open spec fn pair_of(args: Leaf, a: Double, b: Double) -> bool {
    args is A && args->A_0@ == seq![Leaf::F(a), Leaf::F(b)]
}

/// The code of `{x y: x op y} . [a, b]`.
spec fn combined_code(ins: Instr, a: Double, b: Double) -> Seq<Instr> {
    seq![
        Instr::Load(1),
        Instr::Load(0),
        ins,
        Instr::Ret,
        Instr::Local(0),
        Instr::Local(1),
        Instr::Jmp(0),
        Instr::Ret,
        Instr::Push(Obj::F(a)),
        Instr::Ret,
        Instr::Push(Obj::F(b)),
        Instr::Ret,
        Instr::Jmp(2),
        Instr::Jmp(3),
        Instr::Push(Obj::Fun(1)),
        Instr::ApplyN,
        Instr::Ret,
    ]
}

/// The state after compiling `{x y: x op y}` from nothing.
#[verifier::opaque]
spec fn combined_fun(ins: Instr, x: &'static str, y: &'static str) -> Draft<'static> {
    Draft::fresh().add_var(y, LeafType::F).add_var(x, LeafType::F).immediate(
        seq![Instr::Load(1), Instr::Load(0), ins],
    ).block(
        seq![Instr::Local(0), Instr::Local(1), Instr::Jmp(0), Instr::Ret],
        Time::Deferred,
        2,
        names_of(seq![(x, LeafType::F), (y, LeafType::F)]),
    )
}

proof fn combined_fun_compiles(f: Leaf, op: &'static str, x: &'static str, y: &'static str)
    requires
        arith_of(op@) is Some,
        combines(f, op, x, y),
    ensures
        lower(Draft::fresh(), f) == (
            combined_fun(arith_of(op@).unwrap(), x, y),
            Ok::<usize, CompileError>(1),
        ),
        combined_fun(arith_of(op@).unwrap(), x, y).blocks.len() == 2,
{
    reveal(combined_fun);
    reveal_with_fuel(lower_all, 3);
    reveal_with_fuel(Draft::declare, 4);
    reveal_with_fuel(Draft::slot_below, 4);
    let ins = arith_of(op@).unwrap();
    let d0 = Draft::fresh();
    let d1 = d0.add_var(y, LeafType::F).add_var(x, LeafType::F);
    let declared = d0.declare(f->a@, 2, Seq::empty());
    assert(declared.0 == d1);
    assert(declared.1 is Ok);
    assert(declared.1->Ok_0 =~= seq![Instr::Local(0), Instr::Local(1)]);
    assert(d1.lookup(x@) == Some(1usize));
    assert(d1.lookup(y@) == Some(0usize));
    let body = f->v@[0];
    let (d2, r2) = lower(d1, body);
    assert(r2 == Ok::<usize, CompileError>(0));
    assert(d2 == d1.immediate(seq![Instr::Load(1), Instr::Load(0), ins]));
    let compiled = lower_all(d1, f->v@, 0, Seq::empty());
    assert(compiled.0 == d2);
    assert(compiled.1 is Ok);
    assert(compiled.1->Ok_0 =~= seq![0usize]);
    assert(seq![Instr::Local(0), Instr::Local(1)].push(Instr::Jmp(0)).push(Instr::Ret) =~= seq![
        Instr::Local(0),
        Instr::Local(1),
        Instr::Jmp(0),
        Instr::Ret,
    ]);
}

/// The state after compiling `{x y: x op y} . [a, b]` from nothing.
spec fn combined_all(
    ins: Instr,
    a: Double,
    b: Double,
    x: &'static str,
    y: &'static str,
) -> Draft<'static> {
    combined_fun(ins, x, y).immediate(seq![Instr::Push(Obj::F(a))]).immediate(
        seq![Instr::Push(Obj::F(b))],
    ).immediate(seq![Instr::Jmp(2), Instr::Jmp(3), Instr::Push(Obj::Fun(1)), Instr::ApplyN])
}

/// Two literal numbers compile to a block each.
proof fn two_literals_compile<'a>(d: Draft<'a>, xs: Seq<Leaf<'a>>, a: Double, b: Double)
    requires
        xs == seq![Leaf::F(a), Leaf::F(b)],
        d.blocks.len() + 2 <= usize::MAX,
    ensures
        lower_all(d, xs, 0, Seq::empty()).0 == d.immediate(seq![Instr::Push(Obj::F(a))]).immediate(
            seq![Instr::Push(Obj::F(b))],
        ),
        lower_all(d, xs, 0, Seq::empty()).1 == Ok::<Seq<usize>, CompileError>(
            seq![d.blocks.len() as usize, (d.blocks.len() + 1) as usize],
        ),
{
    reveal_with_fuel(lower_all, 3);
    let d1 = d.immediate(seq![Instr::Push(Obj::F(a))]);
    let d2 = d1.immediate(seq![Instr::Push(Obj::F(b))]);
    assert(lower(d, xs[0]) == (d1, Ok::<usize, CompileError>(d.blocks.len() as usize)));
    assert(lower(d1, xs[1]) == (d2, Ok::<usize, CompileError>((d.blocks.len() + 1) as usize)));
    let compiled = lower_all(d, xs, 0, Seq::empty());
    assert(compiled.1 is Ok);
    assert(compiled.1->Ok_0 =~= seq![d.blocks.len() as usize, (d.blocks.len() + 1) as usize]);
}

proof fn combined_compiles(
    f: Leaf,
    args: Leaf,
    op: &'static str,
    a: Double,
    b: Double,
    x: &'static str,
    y: &'static str,
)
    requires
        arith_of(op@) is Some,
        combines(f, op, x, y),
        pair_of(args, a, b),
    ensures
        lower(Draft::fresh(), Leaf::D(".", &f, &args)) == (
            combined_all(arith_of(op@).unwrap(), a, b, x, y),
            Ok::<usize, CompileError>(4),
        ),
{
    assert("."@ != "@"@) by {
        reveal_strlit(".");
        reveal_strlit("@");
        assert("."@[0] == '.' && "@"@[0] == '@');
    }
    let ins = arith_of(op@).unwrap();
    combined_fun_compiles(f, op, x, y);
    let d3 = combined_fun(ins, x, y);
    two_literals_compile(d3, args->A_0@, a, b);
    assert(jumps(seq![2usize, 3usize]).push(Instr::Push(Obj::Fun(1))).push(Instr::ApplyN) =~= seq![
        Instr::Jmp(2),
        Instr::Jmp(3),
        Instr::Push(Obj::Fun(1)),
        Instr::ApplyN,
    ]);
}

proof fn combined_is_laid_out(ins: Instr, a: Double, b: Double, x: &'static str, y: &'static str)
    ensures
        laid_out(
            combined_all(ins, a, b, x, y).program(),
            combined_code(ins, a, b),
            seq![0, 4, 8, 10, 12],
            1,
            2,
        ),
{
    reveal(combined_fun);
    let d = combined_all(ins, a, b, x, y);
    assert(d.instrs =~= combined_code(ins, a, b));
    assert(d.blocks.len() == 5 && d.bodies.len() == 5);
}

proof fn combined_begins(p: Program, ins: Instr, a: Double, b: Double)
    requires
        laid_out(p, combined_code(ins, a, b), seq![0, 4, 8, 10, 12], 1, 2),
    ensures
        boot(p, 4, 4).1 == Action::Next,
        boot(p, 4, 4).0 == (State {
            stack: seq![Obj::F(a)],
            frames: seq![
                Frame { pc: 14, call: Call::Block(4) },
                Frame { pc: 10, call: Call::Block(3) },
            ],
            ..State::fresh()
        }),
{
    reveal(exe);
    reveal_with_fuel(run, 5);
    let top = |pc: usize| Frame { pc, call: Call::Block(4) };
    assert(p.blocks[4] == Blk(BlkType::Fun, Time::Immediate, 4));
    assert(p.blocks[3] == Blk(BlkType::Fun, Time::Immediate, 3));
    assert(p.blocks[2] == Blk(BlkType::Fun, Time::Immediate, 2));
    assert(p.bodies[4].start == 12 && p.bodies[3].start == 10 && p.bodies[2].start == 8);
    let s0 = dispatch(p, State::fresh(), 4).0;
    assert(s0.frames =~= seq![top(12)]);
    let s1 = step(p, s0).0;
    assert(s1.frames =~= seq![top(13), Frame { pc: 8, call: Call::Block(2) }]);
    let s2 = step(p, s1).0;
    assert(s2.frames =~= seq![top(13), Frame { pc: 9, call: Call::Block(2) }]);
    assert(s2.stack =~= seq![Obj::F(a)]);
    let s3 = step(p, s2).0;
    assert(s3.frames =~= seq![top(13)] && s3.stack =~= seq![Obj::F(a)]);
    let s4 = step(p, s3).0;
    assert(s4.frames =~= seq![top(14), Frame { pc: 10, call: Call::Block(3) }]);
    assert(s4.stack =~= seq![Obj::F(a)]);
}

proof fn combined_calls(p: Program, ins: Instr, a: Double, b: Double, s: State)
    requires
        laid_out(p, combined_code(ins, a, b), seq![0, 4, 8, 10, 12], 1, 2),
        s == (State {
            stack: seq![Obj::F(a)],
            frames: seq![
                Frame { pc: 14, call: Call::Block(4) },
                Frame { pc: 10, call: Call::Block(3) },
            ],
            ..State::fresh()
        }),
    ensures
        run(p, s, 4).1 == Action::Next,
        run(p, s, 4).0 == (State {
            stack: seq![Obj::F(a), Obj::F(b)],
            frames: seq![
                Frame { pc: 16, call: Call::Block(4) },
                Frame { pc: 4, call: Call::Block(1) },
            ],
            ..State::fresh()
        }),
{
    reveal(exe);
    reveal_with_fuel(run, 5);
    let top = |pc: usize| Frame { pc, call: Call::Block(4) };
    assert(p.blocks[1] == Blk(BlkType::Fun, Time::Deferred, 1));
    assert(p.bodies[1].start == 4);
    let s1 = step(p, s).0;
    assert(s1.frames =~= seq![top(14), Frame { pc: 11, call: Call::Block(3) }]);
    assert(s1.stack =~= seq![Obj::F(a), Obj::F(b)]);
    let s2 = step(p, s1).0;
    assert(s2.frames =~= seq![top(14)] && s2.stack =~= seq![Obj::F(a), Obj::F(b)]);
    let s3 = step(p, s2).0;
    assert(s3.frames =~= seq![top(15)]);
    assert(s3.stack =~= seq![Obj::F(a), Obj::F(b), Obj::Fun(1)]);
    let s4 = step(p, s3).0;
    assert(s4.frames =~= seq![top(16), Frame { pc: 4, call: Call::Block(1) }]);
    assert(s4.stack =~= seq![Obj::F(a), Obj::F(b)]);
}

proof fn combined_asks(p: Program, ins: Instr, a: Double, b: Double, s: State)
    requires
        laid_out(p, combined_code(ins, a, b), seq![0, 4, 8, 10, 12], 1, 2),
        operation(ins) is Some,
        s == (State {
            stack: seq![Obj::F(a), Obj::F(b)],
            frames: seq![
                Frame { pc: 16, call: Call::Block(4) },
                Frame { pc: 4, call: Call::Block(1) },
            ],
            ..State::fresh()
        }),
    ensures
        run(p, s, 6).1 == Action::Compute(operation(ins)->Some_0, a, b),
        run(p, s, 6).0.stack == Seq::<Obj>::empty(),
        run(p, s, 6).0.frames == nested(4, 16, 7, 3),
{
    reveal(exe);
    reveal_with_fuel(run, 7);
    let top = Frame { pc: 16, call: Call::Block(4) };
    assert(p.blocks[0] == Blk(BlkType::Fun, Time::Immediate, 0));
    assert(p.bodies[0].start == 0);
    let s1 = step(p, s).0;
    assert(s1.frames =~= seq![top, Frame { pc: 5, call: Call::Block(1) }]);
    assert(s1.stack =~= seq![Obj::F(a)]);
    assert(s1.vars =~= Map::empty().insert(0usize, Obj::F(b)));
    let s2 = step(p, s1).0;
    assert(s2.frames =~= seq![top, Frame { pc: 6, call: Call::Block(1) }]);
    assert(s2.stack =~= Seq::empty());
    assert(s2.vars =~= Map::empty().insert(0usize, Obj::F(b)).insert(1usize, Obj::F(a)));
    let s3 = step(p, s2).0;
    assert(s3.frames =~= nested(4, 16, 7, 0));
    assert(s3.vars == s2.vars && s3.stack =~= Seq::empty());
    let s4 = step(p, s3).0;
    assert(s4.frames =~= nested(4, 16, 7, 1));
    assert(s4.vars == s2.vars && s4.stack =~= seq![Obj::F(a)]);
    let s5 = step(p, s4).0;
    assert(s5.frames =~= nested(4, 16, 7, 2));
    assert(s5.stack =~= seq![Obj::F(a), Obj::F(b)]);
    let s6 = step(p, s5).0;
    assert(s6.frames =~= nested(4, 16, 7, 3));
    assert(s6.stack =~= Seq::empty());
}

/// Arguments are bound in source order: the program of
/// `{x y: x op y} . [a, b]` asks the host for `a op b`, the first argument
/// first, and returns what the host hands back.
pub proof fn arguments_keep_their_order(
    f: Leaf,
    args: Leaf,
    op: &'static str,
    a: Double,
    b: Double,
    x: &'static str,
    y: &'static str,
    r: Double,
)
    requires
        arith_of(op@) is Some,
        combines(f, op, x, y),
        pair_of(args, a, b),
    ensures
        ({
            let (d, res) = lower(Draft::fresh(), Leaf::D(".", &f, &args));
            let (asking, action) = boot(d.program(), 4, 14);
            &&& res == Ok::<usize, CompileError>(4)
            &&& Some(action) == match operation(arith_of(op@).unwrap()) {
                Some(o) => Some(Action::Compute(o, a, b)),
                None => None,
            }
            &&& run(d.program(), resume(asking, r), 3).1 == Action::Done(Obj::F(r))
        }),
{
    let ins = arith_of(op@).unwrap();
    let (d, res) = lower(Draft::fresh(), Leaf::D(".", &f, &args));
    let p = d.program();
    combined_compiles(f, args, op, a, b, x, y);
    combined_is_laid_out(ins, a, b, x, y);
    combined_begins(p, ins, a, b);
    let begun = boot(p, 4, 4).0;
    combined_calls(p, ins, a, b, begun);
    let called = run(p, begun, 4).0;
    combined_asks(p, ins, a, b, called);
    let s0 = dispatch(p, State::fresh(), 4).0;
    assert(dispatch(p, State::fresh(), 4).1 == Action::Next) by {
        assert(p.blocks[4] == Blk(BlkType::Fun, Time::Immediate, 4));
        assert(p.bodies[4].start == 12);
    }
    run_goes_on(p, s0, 4, 4);
    run_goes_on(p, s0, 8, 6);
    let asking = boot(p, 4, 14).0;
    answer_returns(p, resume(asking, r), 4, 16, 7, 3, r);
}

/// From any state, `! x` for a literal `x` of index `n` appends the pushes
/// of the numbers from 0 up to `n` in ascending order, `Vec(n)` and `Ret`,
/// as a new body without parameters that starts where the buffer ended, and
/// returns a new immediate block for it.
pub proof fn iota_emits<'a>(d: Draft<'a>, x: Double)
    requires
        d.fits(),
    ensures
        ({
            let n = x.index() as int;
            let at = d.instrs.len() as int;
            let (e, r) = lower(d, Leaf::M("!", &Leaf::F(x)));
            &&& r == Ok::<usize, CompileError>(d.blocks.len() as usize)
            &&& e.instrs.len() == at + n + 2
            &&& e.instrs.take(at) == d.instrs
            &&& forall|i: int|
                0 <= i < n ==> #[trigger] e.instrs[at + i] == Instr::Push(
                    Obj::F(Double::of_index(i as usize)),
                )
            &&& e.instrs[at + n] == Instr::Vec(n as usize)
            &&& e.instrs[at + n + 1] == Instr::Ret
            &&& e.blocks == d.blocks.push(
                Blk(BlkType::Fun, Time::Immediate, d.bodies.len() as usize),
            )
            &&& e.bodies.len() == d.bodies.len() + 1
            &&& e.bodies.take(d.bodies.len() as int) == d.bodies
            &&& e.bodies.last().start == at
            &&& e.bodies.last().vars == 0
            &&& e.bodies.last().names.len() == 0
            &&& e.bodies.last().export.len() == 0
        }),
{
    assert("!"@ != "-"@) by {
        reveal_strlit("!");
        reveal_strlit("-");
        assert("!"@[0] == '!' && "-"@[0] == '-');
    }
    let e = lower(d, Leaf::M("!", &Leaf::F(x))).0;
    assert(e.instrs.take(d.instrs.len() as int) =~= d.instrs);
    assert(e.bodies.take(d.bodies.len() as int) =~= d.bodies);
}

/// The numbers `0, 1, .., n - 1` as values.
pub open spec fn count(n: nat) -> Seq<Obj> {
    Seq::new(n, |i: int| Obj::F(Double::of_index(i as usize)))
}

/// The state that `! x` ends in for a literal `x` of index `n`: one table,
/// the vector of the numbers from 0 up to `n`, and nothing else.
pub open spec fn counted_state(n: nat) -> State {
    State {
        next: 1,
        tables: Map::empty().insert(0, TableView { pairs: Seq::empty(), array: count(n) }),
        ..State::fresh()
    }
}

/// The state of the program of `counted(n)` after `k` pushes.
spec fn counting_state(k: nat) -> State {
    State {
        stack: count(k),
        frames: seq![Frame { pc: k as usize, call: Call::Block(0) }],
        ..State::fresh()
    }
}

proof fn counted_runs(p: Program, n: usize, k: nat)
    requires
        p.code == counted(n).push(Instr::Ret),
        k <= n,
        n + 2 <= usize::MAX,
    ensures
        run(p, counting_state(k), (n - k + 2) as nat) == (
            counted_state(n as nat),
            Action::Done(Obj::T(0)),
        ),
    decreases n - k,
{
    reveal(exe);
    reveal_with_fuel(run, 3);
    let s = counting_state(k);
    if k < n {
        assert(p.code[k as int] == Instr::Push(Obj::F(Double::of_index(k as usize))));
        let s1 = step(p, s).0;
        assert(s1.stack =~= count(k + 1));
        assert(s1.frames =~= seq![Frame { pc: (k + 1) as usize, call: Call::Block(0) }]);
        assert(s1 == counting_state(k + 1));
        counted_runs(p, n, k + 1);
    } else {
        assert(p.code[n as int] == Instr::Vec(n));
        assert(p.code[n + 1] == Instr::Ret);
        let s1 = step(p, s).0;
        assert(s.stack.subrange(s.stack.len() - n, s.stack.len() as int) =~= count(n as nat));
        assert(s1.stack =~= seq![Obj::T(0)]);
        assert(s1.frames =~= seq![Frame { pc: (n + 1) as usize, call: Call::Block(0) }]);
        let s2 = step(p, s1).0;
        assert(s2.stack =~= Seq::empty());
        assert(s2.frames =~= Seq::empty());
        assert(s2 == counted_state(n as nat));
    }
}

/// `! x` for a literal `x` gives the vector of the numbers from 0 up to
/// the index of `x`: the program returns the handle of a table that holds
/// no pair and just these numbers, in order.
pub proof fn iota_counts(x: Double)
    requires
        x.index() + 2 <= usize::MAX,
    ensures
        ({
            let n = x.index() as nat;
            let (d, r) = lower(Draft::fresh(), Leaf::M("!", &Leaf::F(x)));
            &&& r == Ok::<usize, CompileError>(0)
            &&& boot(d.program(), 0, n + 2) == (counted_state(n), Action::Done(Obj::T(0)))
        }),
{
    assert("!"@ != "-"@) by {
        reveal_strlit("!");
        reveal_strlit("-");
        assert("!"@[0] == '!' && "-"@[0] == '-');
    }
    let n = x.index();
    let (d, r) = lower(Draft::fresh(), Leaf::M("!", &Leaf::F(x)));
    let p = d.program();
    assert(p.code =~= counted(n).push(Instr::Ret));
    let s0 = dispatch(p, State::fresh(), 0).0;
    assert(s0.frames =~= seq![Frame { pc: 0, call: Call::Block(0) }]);
    assert(s0.stack =~= count(0));
    assert(s0 == counting_state(0));
    counted_runs(p, n, 0);
}

/// The numbers from 0 up to `n` as they are rendered in a vector: one
/// number piece each, with `, ` between them.
pub open spec fn count_shown(n: nat) -> Seq<Token>
    decreases n,
{
    if n == 0 {
        Seq::empty()
    } else if n == 1 {
        seq![Token::Num(Double::of_index(0))]
    } else {
        count_shown((n - 1) as nat) + seq![
            lit(", "),
            Token::Num(Double::of_index((n - 1) as usize)),
        ]
    }
}

/// The vector that `! x` gives renders as `[|0, 1, .., n - 1]`.
pub proof fn iota_shown(n: nat)
    requires
        n <= usize::MAX,
    ensures
        render(counted_state(n).tables, Obj::T(0), 1) == seq![lit("["), lit("|")] + count_shown(n)
            + seq![lit("]")],
{
    let tables = counted_state(n).tables;
    count_rendered(tables, n, n);
    assert(tables[0].pairs.len() == 0);
    assert(render_pairs(tables, tables[0].pairs, 0, 0) =~= Seq::empty());
    assert(render(tables, Obj::T(0), 1) =~= seq![lit("["), lit("|")] + count_shown(n) + seq![
        lit("]"),
    ]);
}

proof fn count_rendered(tables: Map<usize, TableView>, n: nat, upto: nat)
    requires
        upto <= n <= usize::MAX,
    ensures
        render_items(tables, count(n), 0, upto) == count_shown(upto),
    decreases upto,
{
    if upto > 0 {
        count_rendered(tables, n, (upto - 1) as nat);
        assert(render(tables, count(n)[upto - 1], 0) =~= seq![
            Token::Num(Double::of_index((upto - 1) as usize)),
        ]);
        assert(render_items(tables, count(n), 0, upto) =~= count_shown(upto));
    }
}

/// `f` is the function `{x y: [x, y]}` of two parameters with different
/// names.
pub open spec fn pairs_up(f: Leaf, x: &'static str, y: &'static str) -> bool {
    &&& f is Fun
    &&& f->a@ == seq![(x, LeafType::F), (y, LeafType::F)]
    &&& f->v@.len() == 1
    &&& f->v@[0] is A
    &&& f->v@[0]->A_0@ == seq![Leaf::X(x), Leaf::X(y)]
    &&& x@ != y@
}

/// The code of `{x y: [x, y]} . ! 2`.
spec fn spilled_code() -> Seq<Instr> {
    seq![
        Instr::Push(Obj::F(Double::of_index(0))),
        Instr::Push(Obj::F(Double::of_index(1))),
        Instr::Vec(2),
        Instr::Ret,
        Instr::Load(1),
        Instr::Ret,
        Instr::Load(0),
        Instr::Ret,
        Instr::Jmp(1),
        Instr::Jmp(2),
        Instr::Vec(2),
        Instr::Ret,
        Instr::Local(0),
        Instr::Local(1),
        Instr::Jmp(3),
        Instr::Ret,
        Instr::Jmp(0),
        Instr::PopVec,
        Instr::Push(Obj::Fun(4)),
        Instr::ApplyN,
        Instr::Ret,
    ]
}

/// The state after compiling `! 2` and then `{x y: [x, y]}` from nothing.
#[verifier::opaque]
spec fn spilled_parts(x: &'static str, y: &'static str) -> Draft<'static> {
    Draft::fresh().immediate(counted(2)).add_var(y, LeafType::F).add_var(x, LeafType::F).immediate(
        seq![Instr::Load(1)],
    ).immediate(seq![Instr::Load(0)]).immediate(
        seq![Instr::Jmp(1), Instr::Jmp(2), Instr::Vec(2)],
    ).block(
        seq![Instr::Local(0), Instr::Local(1), Instr::Jmp(3), Instr::Ret],
        Time::Deferred,
        2,
        names_of(seq![(x, LeafType::F), (y, LeafType::F)]),
    )
}

proof fn pair_compiles<'a>(d: Draft<'a>, f: Leaf<'a>, x: &'static str, y: &'static str)
    requires
        pairs_up(f, x, y),
        d.blocks.len() == 1,
        d.varn == 0,
        d.vars == Map::<usize, (&'static str, LeafType)>::empty(),
    ensures
        lower(d, f) == (
            d.add_var(y, LeafType::F).add_var(x, LeafType::F).immediate(
                seq![Instr::Load(1)],
            ).immediate(seq![Instr::Load(0)]).immediate(
                seq![Instr::Jmp(1), Instr::Jmp(2), Instr::Vec(2)],
            ).block(
                seq![Instr::Local(0), Instr::Local(1), Instr::Jmp(3), Instr::Ret],
                Time::Deferred,
                2,
                names_of(seq![(x, LeafType::F), (y, LeafType::F)]),
            ),
            Ok::<usize, CompileError>(4),
        ),
{
    reveal_with_fuel(lower_all, 3);
    reveal_with_fuel(Draft::declare, 4);
    reveal_with_fuel(Draft::slot_below, 4);
    let d1 = d.add_var(y, LeafType::F).add_var(x, LeafType::F);
    let declared = d.declare(f->a@, 2, Seq::empty());
    assert(declared.0 == d1);
    assert(declared.1 is Ok);
    assert(declared.1->Ok_0 =~= seq![Instr::Local(0), Instr::Local(1)]);
    assert(d1.lookup(x@) == Some(1usize));
    assert(d1.lookup(y@) == Some(0usize));
    let items = f->v@[0]->A_0@;
    let d2 = d1.immediate(seq![Instr::Load(1)]);
    let d3 = d2.immediate(seq![Instr::Load(0)]);
    assert(d2.lookup(y@) == Some(0usize));
    assert(lower(d1, items[0]) == (d2, Ok::<usize, CompileError>(1)));
    assert(lower(d2, items[1]) == (d3, Ok::<usize, CompileError>(2)));
    let parts = lower_all(d1, items, 0, Seq::empty());
    assert(parts.0 == d3);
    assert(parts.1 is Ok);
    assert(parts.1->Ok_0 =~= seq![1usize, 2usize]);
    assert(jumps(seq![1usize, 2usize]).push(Instr::Vec(2)) =~= seq![
        Instr::Jmp(1),
        Instr::Jmp(2),
        Instr::Vec(2),
    ]);
    let d4 = d3.immediate(seq![Instr::Jmp(1), Instr::Jmp(2), Instr::Vec(2)]);
    assert(lower(d1, f->v@[0]) == (d4, Ok::<usize, CompileError>(3)));
    let body = lower_all(d1, f->v@, 0, Seq::empty());
    assert(body.0 == d4);
    assert(body.1 is Ok);
    assert(body.1->Ok_0 =~= seq![3usize]);
    assert(seq![Instr::Local(0), Instr::Local(1)].push(Instr::Jmp(3)).push(Instr::Ret) =~= seq![
        Instr::Local(0),
        Instr::Local(1),
        Instr::Jmp(3),
        Instr::Ret,
    ]);
}

proof fn spilled_compiles(f: Leaf, c: Double, x: &'static str, y: &'static str)
    requires
        pairs_up(f, x, y),
        c.index() == 2,
    ensures
        lower(Draft::fresh(), Leaf::D(".", &f, &Leaf::M("!", &Leaf::F(c)))) == (
            spilled_parts(x, y).immediate(
                seq![Instr::Jmp(0), Instr::PopVec, Instr::Push(Obj::Fun(4)), Instr::ApplyN],
            ),
            Ok::<usize, CompileError>(5),
        ),
{
    reveal(spilled_parts);
    assert("."@ != "@"@ && "!"@ != "-"@) by {
        reveal_strlit(".");
        reveal_strlit("@");
        reveal_strlit("!");
        reveal_strlit("-");
        assert("."@[0] == '.' && "@"@[0] == '@' && "!"@[0] == '!' && "-"@[0] == '-');
    }
    let d0 = Draft::fresh();
    let d1 = d0.immediate(counted(2));
    assert(lower(d0, Leaf::M("!", &Leaf::F(c))) == (d1, Ok::<usize, CompileError>(0)));
    pair_compiles(d1, f, x, y);
}

proof fn spilled_is_laid_out(x: &'static str, y: &'static str)
    ensures
        laid_out(
            spilled_parts(x, y).immediate(
                seq![Instr::Jmp(0), Instr::PopVec, Instr::Push(Obj::Fun(4)), Instr::ApplyN],
            ).program(),
            spilled_code(),
            seq![0, 4, 6, 8, 12, 16],
            4,
            2,
        ),
{
    reveal(spilled_parts);
    let d = spilled_parts(x, y).immediate(
        seq![Instr::Jmp(0), Instr::PopVec, Instr::Push(Obj::Fun(4)), Instr::ApplyN],
    );
    assert(counted(2) =~= seq![
        Instr::Push(Obj::F(Double::of_index(0))),
        Instr::Push(Obj::F(Double::of_index(1))),
        Instr::Vec(2),
    ]);
    assert(d.instrs =~= spilled_code());
    assert(d.blocks.len() == 6 && d.bodies.len() == 6);
}

/// The state of the run after the vector was made, spilled, and the
/// function called with its items.
spec fn spilled_called() -> State {
    State {
        stack: count(2),
        next: 1,
        frames: seq![
            Frame { pc: 20, call: Call::Block(5) },
            Frame { pc: 12, call: Call::Block(4) },
        ],
        ..State::fresh()
    }
}

/// The state of the run after the function has bound its parameters and
/// begun to make its array.
spec fn spilled_bound() -> State {
    State {
        vars: Map::empty().insert(0usize, count(2)[1]).insert(1usize, count(2)[0]),
        slots: seq![0usize, 1usize],
        next: 1,
        frames: seq![
            Frame { pc: 20, call: Call::Block(5) },
            Frame { pc: 15, call: Call::Block(4) },
            Frame { pc: 9, call: Call::Block(3) },
        ],
        stack: seq![count(2)[0]],
        ..State::fresh()
    }
}

/// The state of the run at its end.
pub open spec fn spilled_state() -> State {
    State {
        vars: Map::empty().insert(0usize, count(2)[1]).insert(1usize, count(2)[0]),
        slots: seq![0usize, 1usize],
        next: 2,
        tables: Map::empty().insert(1usize, TableView { pairs: Seq::empty(), array: count(2) }),
        ..State::fresh()
    }
}

proof fn spilled_begins(p: Program)
    requires
        laid_out(p, spilled_code(), seq![0, 4, 6, 8, 12, 16], 4, 2),
    ensures
        boot(p, 5, 4) == (
            State {
                stack: seq![Obj::T(0)],
                next: 1,
                tables: Map::empty().insert(
                    0usize,
                    TableView { pairs: Seq::empty(), array: count(2) },
                ),
                frames: seq![
                    Frame { pc: 17, call: Call::Block(5) },
                    Frame { pc: 3, call: Call::Block(0) },
                ],
                ..State::fresh()
            },
            Action::Next,
        ),
{
    reveal(exe);
    reveal_with_fuel(run, 5);
    let top = Frame { pc: 17, call: Call::Block(5) };
    assert(p.blocks[5] == Blk(BlkType::Fun, Time::Immediate, 5));
    assert(p.blocks[0] == Blk(BlkType::Fun, Time::Immediate, 0));
    assert(p.bodies[5].start == 16 && p.bodies[0].start == 0);
    let s0 = dispatch(p, State::fresh(), 5).0;
    assert(s0.frames =~= seq![Frame { pc: 16, call: Call::Block(5) }]);
    let s1 = step(p, s0).0;
    assert(s1.frames =~= seq![top, Frame { pc: 0, call: Call::Block(0) }]);
    let s2 = step(p, s1).0;
    assert(s2.frames =~= seq![top, Frame { pc: 1, call: Call::Block(0) }]);
    assert(s2.stack =~= seq![count(2)[0]]);
    let s3 = step(p, s2).0;
    assert(s3.frames =~= seq![top, Frame { pc: 2, call: Call::Block(0) }]);
    assert(s3.stack =~= count(2));
    let s4 = step(p, s3).0;
    assert(s3.stack.subrange(0, 2) =~= count(2));
    assert(s4.frames =~= seq![top, Frame { pc: 3, call: Call::Block(0) }]);
    assert(s4.stack =~= seq![Obj::T(0)]);
    assert(s4.tables =~= Map::empty().insert(
        0usize,
        TableView { pairs: Seq::empty(), array: count(2) },
    ));
}

proof fn spilled_calls(p: Program, s: State)
    requires
        laid_out(p, spilled_code(), seq![0, 4, 6, 8, 12, 16], 4, 2),
        s == (State {
            stack: seq![Obj::T(0)],
            next: 1,
            tables: Map::empty().insert(0usize, TableView { pairs: Seq::empty(), array: count(2) }),
            frames: seq![
                Frame { pc: 17, call: Call::Block(5) },
                Frame { pc: 3, call: Call::Block(0) },
            ],
            ..State::fresh()
        }),
    ensures
        run(p, s, 4) == (spilled_called(), Action::Next),
{
    reveal(exe);
    reveal_with_fuel(run, 5);
    let top = |pc: usize| Frame { pc, call: Call::Block(5) };
    assert(p.blocks[4] == Blk(BlkType::Fun, Time::Deferred, 4));
    assert(p.bodies[4].start == 12);
    let s1 = step(p, s).0;
    assert(s1.frames =~= seq![top(17)] && s1.stack =~= seq![Obj::T(0)]);
    let s2 = step(p, s1).0;
    assert(s2.frames =~= seq![top(18)] && s2.stack =~= count(2));
    assert(s2.tables =~= Map::empty());
    let s3 = step(p, s2).0;
    assert(s3.frames =~= seq![top(19)]);
    assert(s3.stack =~= seq![count(2)[0], count(2)[1], Obj::Fun(4)]);
    let s4 = step(p, s3).0;
    assert(s4.frames =~= seq![top(20), Frame { pc: 12, call: Call::Block(4) }]);
    assert(s4.stack =~= count(2));
}

proof fn spilled_binds(p: Program)
    requires
        laid_out(p, spilled_code(), seq![0, 4, 6, 8, 12, 16], 4, 2),
    ensures
        run(p, spilled_called(), 6) == (spilled_bound(), Action::Next),
{
    reveal(exe);
    reveal_with_fuel(run, 7);
    let top = Frame { pc: 20, call: Call::Block(5) };
    let fun = |pc: usize| Frame { pc, call: Call::Block(4) };
    let arr = |pc: usize| Frame { pc, call: Call::Block(3) };
    assert(p.blocks[3] == Blk(BlkType::Fun, Time::Immediate, 3));
    assert(p.blocks[1] == Blk(BlkType::Fun, Time::Immediate, 1));
    assert(p.bodies[3].start == 8 && p.bodies[1].start == 4);
    let s = spilled_called();
    let s1 = step(p, s).0;
    assert(s1.frames =~= seq![top, fun(13)] && s1.stack =~= seq![count(2)[0]]);
    assert(s1.vars =~= Map::empty().insert(0usize, count(2)[1]));
    assert(s1.slots =~= seq![0usize]);
    let s2 = step(p, s1).0;
    assert(s2.frames =~= seq![top, fun(14)] && s2.stack =~= Seq::empty());
    assert(s2.vars =~= spilled_bound().vars);
    assert(s2.slots =~= seq![0usize, 1usize]);
    let s3 = step(p, s2).0;
    assert(s3.frames =~= seq![top, fun(15), arr(8)]);
    assert(s3.vars == s2.vars && s3.slots == s2.slots && s3.stack =~= Seq::empty());
    let s4 = step(p, s3).0;
    assert(s4.frames =~= seq![top, fun(15), arr(9), Frame { pc: 4, call: Call::Block(1) }]);
    assert(s4.vars == s2.vars && s4.slots == s2.slots && s4.stack =~= Seq::empty());
    let s5 = step(p, s4).0;
    assert(s5.frames =~= seq![top, fun(15), arr(9), Frame { pc: 5, call: Call::Block(1) }]);
    assert(s5.vars == s2.vars && s5.slots == s2.slots && s5.stack =~= seq![count(2)[0]]);
    let s6 = step(p, s5).0;
    assert(s6.frames =~= seq![top, fun(15), arr(9)]);
    assert(s6.stack =~= seq![count(2)[0]]);
}

proof fn spilled_collects(p: Program)
    requires
        laid_out(p, spilled_code(), seq![0, 4, 6, 8, 12, 16], 4, 2),
    ensures
        run(p, spilled_bound(), 4).1 == Action::Next,
        run(p, spilled_bound(), 4).0 == (State {
            stack: seq![Obj::T(1)],
            frames: seq![
                Frame { pc: 20, call: Call::Block(5) },
                Frame { pc: 15, call: Call::Block(4) },
                Frame { pc: 11, call: Call::Block(3) },
            ],
            ..spilled_state()
        }),
{
    reveal(exe);
    reveal_with_fuel(run, 5);
    let top = Frame { pc: 20, call: Call::Block(5) };
    let fun = Frame { pc: 15, call: Call::Block(4) };
    let arr = |pc: usize| Frame { pc, call: Call::Block(3) };
    assert(p.blocks[2] == Blk(BlkType::Fun, Time::Immediate, 2));
    assert(p.bodies[2].start == 6);
    let s = spilled_bound();
    let s1 = step(p, s).0;
    assert(s1.frames =~= seq![top, fun, arr(10), Frame { pc: 6, call: Call::Block(2) }]);
    assert(s1.stack =~= seq![count(2)[0]]);
    let s2 = step(p, s1).0;
    assert(s2.frames =~= seq![top, fun, arr(10), Frame { pc: 7, call: Call::Block(2) }]);
    assert(s2.stack =~= count(2));
    let s3 = step(p, s2).0;
    assert(s3.frames =~= seq![top, fun, arr(10)] && s3.stack =~= count(2));
    let s4 = step(p, s3).0;
    assert(s3.stack.subrange(0, 2) =~= count(2));
    assert(s4.frames =~= seq![top, fun, arr(11)]);
    assert(s4.stack =~= seq![Obj::T(1)]);
    assert(s4.tables =~= spilled_state().tables);
}

proof fn spilled_returns(p: Program, s: State)
    requires
        laid_out(p, spilled_code(), seq![0, 4, 6, 8, 12, 16], 4, 2),
        s == (State {
            stack: seq![Obj::T(1)],
            frames: seq![
                Frame { pc: 20, call: Call::Block(5) },
                Frame { pc: 15, call: Call::Block(4) },
                Frame { pc: 11, call: Call::Block(3) },
            ],
            ..spilled_state()
        }),
    ensures
        run(p, s, 3) == (spilled_state(), Action::Done(Obj::T(1))),
{
    reveal_with_fuel(run, 4);
    let top = Frame { pc: 20, call: Call::Block(5) };
    let s1 = step(p, s).0;
    assert(s1.frames =~= seq![top, Frame { pc: 15, call: Call::Block(4) }]);
    assert(s1.stack =~= seq![Obj::T(1)]);
    let s2 = step(p, s1).0;
    assert(s2.frames =~= seq![top] && s2.stack =~= seq![Obj::T(1)]);
    let s3 = step(p, s2).0;
    assert(s3.frames =~= Seq::empty() && s3.stack =~= Seq::empty());
}

/// A vector is spilled with its first item lowest, and the function takes
/// the items in their order: the program of `{x y: [x, y]} . ! c`, for a
/// `c` of index two, returns a new vector of zero and one that renders as
/// `[|0, 1]`.
pub proof fn spilled_vectors_keep_their_order(f: Leaf, c: Double, x: &'static str, y: &'static str)
    requires
        pairs_up(f, x, y),
        c.index() == 2,
    ensures
        ({
            let (d, res) = lower(Draft::fresh(), Leaf::D(".", &f, &Leaf::M("!", &Leaf::F(c))));
            &&& res == Ok::<usize, CompileError>(5)
            &&& boot(d.program(), 5, 21) == (spilled_state(), Action::Done(Obj::T(1)))
            &&& render(spilled_state().tables, Obj::T(1), 1) == seq![lit("["), lit("|")]
                + count_shown(2) + seq![lit("]")]
        }),
{
    let (d, res) = lower(Draft::fresh(), Leaf::D(".", &f, &Leaf::M("!", &Leaf::F(c))));
    let p = d.program();
    spilled_compiles(f, c, x, y);
    spilled_is_laid_out(x, y);
    spilled_begins(p);
    let begun = boot(p, 5, 4).0;
    spilled_calls(p, begun);
    spilled_binds(p);
    spilled_collects(p);
    let collected = run(p, spilled_bound(), 4).0;
    spilled_returns(p, collected);
    let s0 = dispatch(p, State::fresh(), 5).0;
    assert(dispatch(p, State::fresh(), 5).1 == Action::Next) by {
        assert(p.blocks[5] == Blk(BlkType::Fun, Time::Immediate, 5));
        assert(p.bodies[5].start == 16);
    }
    run_goes_on(p, s0, 4, 4);
    run_goes_on(p, s0, 8, 6);
    run_goes_on(p, s0, 14, 4);
    run_goes_on(p, s0, 18, 3);
    let tables = spilled_state().tables;
    count_rendered(tables, 2, 2);
    assert(render_pairs(tables, tables[1].pairs, 0, 0) =~= Seq::empty());
    assert(render(tables, Obj::T(1), 1) =~= seq![lit("["), lit("|")] + count_shown(2) + seq![
        lit("]"),
    ]);
}

} // verus!
