use nvm::bc::{Blk, BlkType, Body, Instr, Obj, ObjType, Time};
use nvm::lisp::Leaf::{A, C, D, F, M, X};
use nvm::lisp::{Leaf, LeafType, Machine};
use nvm::num::Double;
use nvm::or_fatal;
use nvm::sem::{Action, Arith, Call, Fault, Frame, Missing};
use nvm::text::Piece;
use nvm::vm::{Machine as Heap, Table, VM};

fn num(x: f64) -> Double {
    Double::from_bits(x.to_bits())
}

fn host(op: Arith, x: Double, y: Double) -> Double {
    let a = f64::from_bits(x.bits);
    let b = f64::from_bits(y.bits);
    num(match op {
        Arith::Add => a + b,
        Arith::Sub => a - b,
        Arith::Mul => a * b,
        Arith::Div => a / b,
    })
}

fn run(vm: &mut VM, b: usize) -> Result<Obj, Fault> {
    let mut a = vm.exe_block(b);
    loop {
        a = match a {
            Action::Next => vm.step(),
            Action::Compute(op, x, y) => vm.resume(host(op, x, y)),
            Action::Done(v) => return Ok(v),
            Action::Fail(f) => return Err(f),
        }
    }
}

fn show(pieces: &[Piece]) -> String {
    let mut s = String::new();
    for p in pieces {
        match p {
            Piece::Text(t) => s.push_str(t),
            Piece::Char(c) => s.push(*c),
            Piece::Num(d) => s.push_str(&f64::from_bits(d.bits).to_string()),
        }
    }
    s
}

#[test]
fn expr() {
    for (i, (x, y)) in [
        (D("+", &F(num(5.)), &F(num(2.))), "7"),
        (D("*", &F(num(5.)), &F(num(2.))), "10"),
        (D("-", &F(num(5.)), &F(num(2.))), "3"),
        (D("%", &F(num(5.)), &F(num(2.))), "2.5"),
        (
            Leaf::Fun {
                a: Vec::new(),
                v: vec![D("+", &F(num(1.)), &F(num(1.)))],
            },
            "{&1}",
        ),
        (
            D(
                "@",
                &Leaf::Fun {
                    a: vec![("x", LeafType::F)],
                    v: vec![D("+", &F(num(1.)), &X("x"))],
                },
                &F(num(2.)),
            ),
            "3",
        ),
        (
            D(
                ".",
                &Leaf::Fun {
                    a: vec![("x", LeafType::F), ("y", LeafType::F)],
                    v: vec![D("+", &X("x"), &X("y"))],
                },
                &A(vec![F(num(1.)), F(num(1.))]),
            ),
            "2",
        ),
        (A(vec![Leaf::F(num(1.)), Leaf::F(num(2.))]), "[|1, 2]"),
        (M("!", &Leaf::F(num(3.))), "[|0, 1, 2]"),
        (
            D(
                ".",
                &Leaf::Fun {
                    a: vec![("x", LeafType::F), ("y", LeafType::F)],
                    v: vec![A(vec![X("x"), X("y")])],
                },
                &M("!", &F(num(2.))),
            ),
            "[|0, 1]",
        ),
        (M("!", &D("+", &F(num(1.)), &F(num(3.)))), "[|0, 1, 2, 3]"),
        (M("-", &M("-", &F(num(1.)))), "1"),
    ]
    .into_iter()
    .enumerate()
    {
        println!(" === TEST {i} ===");
        println!("{x:?}");
        let mut m = Machine::new();
        let b = or_fatal(m.compile(&x));
        println!("{}", show(&m.listing()));
        println!("beginning execution at block {b}");

        let mut vm = VM::new(&m.instrs, &m.blocks, &m.bodies);
        let e = or_fatal(run(&mut vm, b));

        println!("tables:");
        println!("{}", show(&vm.fmt_tables()));

        assert_eq!(show(&vm.fmt(&e)), y.to_string())
    }
}

fn f(x: f64) -> Obj {
    Obj::F(num(x))
}

fn body(start: usize, vars: usize) -> Body<'static> {
    Body { start, vars, names: vec![], export: vec![] }
}

fn bare() -> VM<'static> {
    VM::new(&[], &[], &[])
}

fn with_stack(items: &[Obj]) -> VM<'static> {
    let mut vm = bare();
    for x in items {
        assert_eq!(vm.exe_instr(&Instr::Push(*x)), Action::Next);
    }
    vm
}

fn eval(l: &Leaf) -> String {
    let mut m = Machine::new();
    let b = m.compile(l).unwrap();
    let mut vm = VM::new(&m.instrs, &m.blocks, &m.bodies);
    let e = run(&mut vm, b).unwrap();
    show(&vm.fmt(&e))
}

#[test]
fn a_new_vm_is_empty() {
    let vm = bare();
    assert!(vm.stack().is_empty());
    assert!(vm.frames().is_empty());
    assert!(vm.vars().is_empty());
    assert!(vm.get_tables().is_empty());
    assert_eq!(show(&vm.fmt_tables()), "");
    assert_eq!(show(&vm.fmt_vars()), "");
}

#[test]
fn push_pop_dup_and_swap() {
    let mut vm = bare();
    assert_eq!(vm.exe_instr(&Instr::Pop), Action::Next);
    assert!(vm.stack().is_empty());
    assert_eq!(vm.exe_instr(&Instr::Push(f(1.))), Action::Next);
    assert_eq!(vm.exe_instr(&Instr::Push(Obj::C('a'))), Action::Next);
    assert_eq!(vm.stack(), &vec![f(1.), Obj::C('a')]);
    assert_eq!(vm.exe_instr(&Instr::Swap2), Action::Next);
    assert_eq!(vm.stack(), &vec![Obj::C('a'), f(1.)]);
    assert_eq!(vm.exe_instr(&Instr::Dup), Action::Next);
    assert_eq!(vm.stack(), &vec![Obj::C('a'), f(1.), f(1.)]);
    assert_eq!(vm.exe_instr(&Instr::Pop), Action::Next);
    assert_eq!(vm.exe_instr(&Instr::Pop), Action::Next);
    assert_eq!(vm.stack(), &vec![Obj::C('a')]);
    assert_eq!(vm.exe_instr(&Instr::Swap2), Action::Fail(Fault::Underflow));
    assert_eq!(vm.stack(), &vec![Obj::C('a')]);
    assert_eq!(bare().exe_instr(&Instr::Dup), Action::Fail(Fault::Underflow));
}

#[test]
fn local_binds_and_load_reads() {
    let mut vm = with_stack(&[f(1.), f(2.)]);
    assert_eq!(vm.exe_instr(&Instr::Local(7)), Action::Next);
    assert_eq!(vm.stack(), &vec![f(1.)]);
    assert_eq!(vm.vars()[&7], f(2.));
    assert_eq!(vm.exe_instr(&Instr::Load(7)), Action::Next);
    assert_eq!(vm.stack(), &vec![f(1.), f(2.)]);
    assert_eq!(vm.exe_instr(&Instr::Local(7)), Action::Next);
    assert_eq!(vm.exe_instr(&Instr::Local(7)), Action::Next);
    assert_eq!(vm.vars()[&7], f(1.));
    assert_eq!(vm.exe_instr(&Instr::Local(7)), Action::Fail(Fault::Underflow));
    assert_eq!(vm.exe_instr(&Instr::Load(8)), Action::Fail(Fault::Lookup(Missing::Var(8))));
    assert!(vm.stack().is_empty());
}

#[test]
fn arithmetic_asks_the_host() {
    for (ins, op) in [
        (Instr::AddF, Arith::Add),
        (Instr::SubF, Arith::Sub),
        (Instr::MulF, Arith::Mul),
        (Instr::DivF, Arith::Div),
    ] {
        let mut vm = with_stack(&[Obj::C('z'), f(5.), f(2.)]);
        assert_eq!(vm.exe_instr(&ins), Action::Compute(op, num(5.), num(2.)));
        assert_eq!(vm.stack(), &vec![Obj::C('z')]);
        assert_eq!(vm.resume(num(9.)), Action::Next);
        assert_eq!(vm.stack(), &vec![Obj::C('z'), f(9.)]);
    }
}

#[test]
fn operands_of_the_wrong_kind_are_type_faults() {
    let want = |found| Action::Fail(Fault::Type { expected: ObjType::F, found });
    let mut vm = with_stack(&[f(1.), Obj::C('a')]);
    assert_eq!(vm.exe_instr(&Instr::AddF), want(ObjType::C));
    assert_eq!(vm.exe_instr(&Instr::NegF), want(ObjType::C));
    assert_eq!(vm.exe_instr(&Instr::CmpF), want(ObjType::C));
    assert_eq!(vm.exe_instr(&Instr::LJmpNZ(0)), want(ObjType::C));
    assert_eq!(vm.exe_instr(&Instr::JmpZ(0)), want(ObjType::C));
    assert_eq!(vm.stack(), &vec![f(1.), Obj::C('a')]);
    let mut vm = with_stack(&[Obj::U(3), f(1.)]);
    assert_eq!(vm.exe_instr(&Instr::MulF), want(ObjType::U));
    let mut vm = with_stack(&[Obj::T(3), f(1.)]);
    assert_eq!(vm.exe_instr(&Instr::SubF), want(ObjType::T));
    let mut vm = with_stack(&[Obj::Fun(3), f(1.)]);
    assert_eq!(vm.exe_instr(&Instr::DivF), want(ObjType::Fun));
    assert_eq!(vm.stack(), &vec![Obj::Fun(3), f(1.)]);
    let fun = |found| Action::Fail(Fault::Type { expected: ObjType::Fun, found });
    let mut vm = with_stack(&[f(1.)]);
    assert_eq!(vm.exe_instr(&Instr::Apply0), fun(ObjType::F));
    assert_eq!(vm.exe_instr(&Instr::ApplyN), fun(ObjType::F));
    assert_eq!(vm.exe_instr(&Instr::PopVec), Action::Fail(Fault::Type { expected: ObjType::T, found: ObjType::F }));
    let mut vm = with_stack(&[f(1.), f(2.)]);
    assert_eq!(vm.exe_instr(&Instr::Apply1), fun(ObjType::F));
    assert_eq!(vm.stack(), &vec![f(1.), f(2.)]);
}

#[test]
fn missing_operands_are_underflow_faults() {
    let under = Action::Fail(Fault::Underflow);
    for ins in [
        Instr::AddF,
        Instr::NegF,
        Instr::CmpF,
        Instr::Apply0,
        Instr::Apply1,
        Instr::ApplyN,
        Instr::PopVec,
        Instr::Local(0),
        Instr::VecPush(0),
        Instr::Table(1),
        Instr::Vec(1),
        Instr::JmpZ(0),
        Instr::LJmpZ(0),
        Instr::LJmpNZ(0),
    ] {
        assert_eq!(bare().exe_instr(&ins), under, "{ins:?}");
    }
    let mut vm = with_stack(&[f(1.)]);
    for ins in [Instr::AddF, Instr::CmpF, Instr::Apply1, Instr::Table(1), Instr::Vec(2), Instr::Table(usize::MAX), Instr::Vec(usize::MAX)] {
        assert_eq!(vm.exe_instr(&ins), under, "{ins:?}");
        assert_eq!(vm.stack(), &vec![f(1.)]);
    }
}

#[test]
fn negation_and_comparison_need_no_host() {
    let mut vm = with_stack(&[f(2.5)]);
    assert_eq!(vm.exe_instr(&Instr::NegF), Action::Next);
    assert_eq!(vm.stack(), &vec![f(-2.5)]);
    for (x, y, want) in [(1., 2., -1.), (2., 1., 1.), (2., 2., 0.), (0., -0., 0.), (f64::NAN, 1., 0.)] {
        let mut vm = with_stack(&[f(x), f(y)]);
        assert_eq!(vm.exe_instr(&Instr::CmpF), Action::Next);
        assert_eq!(vm.stack(), &vec![f(want)]);
    }
}

#[test]
fn table_pairs_the_topmost_values() {
    let mut vm = with_stack(&[f(9.), Obj::C('a'), f(1.), Obj::C('b'), f(2.)]);
    assert_eq!(vm.exe_instr(&Instr::Table(2)), Action::Next);
    assert_eq!(vm.stack(), &vec![f(9.), Obj::T(0)]);
    let t = vm.get_table(0);
    assert_eq!(t.0, vec![(f(2.), Obj::C('b')), (f(1.), Obj::C('a'))]);
    assert!(t.vec().is_empty());
    assert_eq!(show(&vm.fmt(&Obj::T(0))), "[2: b, 1: a|]");
    assert_eq!(vm.exe_instr(&Instr::Table(0)), Action::Next);
    assert_eq!(vm.stack(), &vec![f(9.), Obj::T(0), Obj::T(1)]);
    assert_eq!(show(&vm.fmt(&Obj::T(1))), "[|]");
}

#[test]
fn vec_takes_the_topmost_values_in_source_order() {
    let mut vm = with_stack(&[f(9.), f(1.), f(2.), f(3.)]);
    assert_eq!(vm.exe_instr(&Instr::Vec(2)), Action::Next);
    assert_eq!(vm.stack(), &vec![f(9.), f(1.), Obj::T(0)]);
    assert_eq!(vm.get_table(0).vec(), [f(2.), f(3.)]);
    assert!(vm.get_table(0).0.is_empty());
    assert_eq!(vm.exe_instr(&Instr::VecFull), Action::Next);
    assert_eq!(vm.stack(), &vec![Obj::T(1)]);
    assert_eq!(vm.get_table(1).vec(), [f(9.), f(1.), Obj::T(0)]);
    assert_eq!(show(&vm.fmt(&Obj::T(1))), "[|9, 1, [|2, 3]]");
    assert_eq!(vm.exe_instr(&Instr::Vec(0)), Action::Next);
    assert_eq!(show(&vm.fmt(&Obj::T(2))), "[|]");
}

#[test]
fn vectors_held_by_variables_grow_and_shrink() {
    let mut vm = with_stack(&[f(1.)]);
    vm.exe_instr(&Instr::Vec(1));
    vm.exe_instr(&Instr::Local(4));
    assert_eq!(vm.exe_instr(&Instr::VecLast(4)), Action::Next);
    assert_eq!(vm.stack(), &vec![f(1.)]);
    vm.exe_instr(&Instr::Push(Obj::C('x')));
    assert_eq!(vm.exe_instr(&Instr::VecPush(4)), Action::Next);
    assert_eq!(vm.stack(), &vec![f(1.)]);
    assert_eq!(vm.get_table(0).vec(), [f(1.), Obj::C('x')]);
    assert_eq!(vm.exe_instr(&Instr::VecLast(4)), Action::Next);
    assert_eq!(vm.stack(), &vec![f(1.), Obj::C('x')]);
    assert_eq!(vm.exe_instr(&Instr::VecPop(4)), Action::Next);
    assert_eq!(vm.exe_instr(&Instr::VecPop(4)), Action::Next);
    assert!(vm.get_table(0).vec().is_empty());
    assert_eq!(vm.exe_instr(&Instr::VecPop(4)), Action::Next);
    assert_eq!(vm.exe_instr(&Instr::VecLast(4)), Action::Fail(Fault::Underflow));
    assert_eq!(vm.stack(), &vec![f(1.), Obj::C('x')]);
}

#[test]
fn vector_instructions_need_a_variable_that_holds_a_live_table() {
    let mut vm = with_stack(&[f(1.), f(2.)]);
    for ins in [Instr::VecPush(0), Instr::VecLast(0), Instr::VecPop(0)] {
        assert_eq!(vm.exe_instr(&ins), Action::Fail(Fault::Lookup(Missing::Var(0))));
    }
    vm.exe_instr(&Instr::Local(0));
    for ins in [Instr::VecPush(0), Instr::VecLast(0), Instr::VecPop(0)] {
        assert_eq!(vm.exe_instr(&ins), Action::Fail(Fault::Type { expected: ObjType::T, found: ObjType::F }));
    }
    vm.exe_instr(&Instr::Push(Obj::T(5)));
    vm.exe_instr(&Instr::Local(0));
    vm.exe_instr(&Instr::Push(f(3.)));
    for ins in [Instr::VecPush(0), Instr::VecLast(0), Instr::VecPop(0)] {
        assert_eq!(vm.exe_instr(&ins), Action::Fail(Fault::Lookup(Missing::Table(5))));
    }
    assert_eq!(vm.stack(), &vec![f(1.), f(3.)]);
}

#[test]
fn pop_vec_spills_the_head_lowest_and_frees_the_table() {
    let mut vm = with_stack(&[f(9.), f(1.), f(2.), f(3.)]);
    vm.exe_instr(&Instr::Vec(3));
    vm.exe_instr(&Instr::Dup);
    vm.exe_instr(&Instr::Local(0));
    assert_eq!(vm.exe_instr(&Instr::PopVec), Action::Next);
    assert_eq!(vm.stack(), &vec![f(9.), f(1.), f(2.), f(3.)]);
    assert!(vm.get_tables().is_empty());
    assert_eq!(show(&vm.fmt(&Obj::T(0))), "[&0]");
    assert_eq!(vm.exe_instr(&Instr::Load(0)), Action::Next);
    assert_eq!(vm.exe_instr(&Instr::PopVec), Action::Fail(Fault::Lookup(Missing::Table(0))));
    assert_eq!(vm.stack().len(), 5);
    assert_eq!(vm.exe_instr(&Instr::VecLast(0)), Action::Fail(Fault::Lookup(Missing::Table(0))));
}

#[test]
fn heap_operations() {
    let mut vm = bare();
    assert_eq!(vm.add_table(Table(vec![], vec![f(1.)])), 0);
    assert_eq!(vm.add_table(Table(vec![(f(1.), f(2.))], vec![])), 1);
    assert_eq!(vm.get_tables().len(), 2);
    assert_eq!(vm.get_table(1).0, vec![(f(1.), f(2.))]);
    vm.exe_instr(&Instr::Push(Obj::T(0)));
    vm.exe_instr(&Instr::Local(3));
    vm.vec_push(&3, f(5.));
    assert_eq!(vm.get_table(0).vec(), [f(1.), f(5.)]);
    vm.vec_last(&3);
    assert_eq!(vm.stack(), &vec![f(5.)]);
    vm.vec_pop(&3);
    assert_eq!(vm.get_table(0).vec(), [f(1.)]);
    vm.rm_table(&0);
    vm.rm_table(&7);
    assert_eq!(vm.get_tables().len(), 1);
    assert!(vm.get_tables().contains_key(&1));
    assert_eq!(vm.add_table(Table(vec![], vec![])), 2);
}

#[test]
fn table_methods() {
    let mut t = Table(vec![(f(1.), f(2.))], vec![f(3.)]);
    assert_eq!(t.vec(), [f(3.)]);
    t.vec_push(f(4.));
    assert_eq!(t.vec(), [f(3.), f(4.)]);
    t.vec_mut().push(f(5.));
    assert_eq!(t.1, vec![f(3.), f(4.), f(5.)]);
    t.vec_pop();
    t.vec_pop();
    t.vec_pop();
    t.vec_pop();
    assert!(t.vec().is_empty());
    assert_eq!(t.0, vec![(f(1.), f(2.))]);
}

#[test]
fn dispatch_of_an_immediate_block_begins_its_body() {
    let code = [Instr::Push(f(1.)), Instr::Ret];
    let blocks = [Blk(BlkType::Fun, Time::Immediate, 0)];
    let bodies = [body(0, 0)];
    let mut vm = VM::new(&code, &blocks, &bodies);
    assert_eq!(vm.exe_block(0), Action::Next);
    assert_eq!(vm.frames(), &vec![Frame { pc: 0, call: Call::Block(0) }]);
    assert_eq!(vm.step(), Action::Next);
    assert_eq!(vm.frames(), &vec![Frame { pc: 1, call: Call::Block(0) }]);
    assert_eq!(vm.step(), Action::Done(f(1.)));
    assert!(vm.frames().is_empty());
    assert!(vm.stack().is_empty());
    assert_eq!(vm.step(), Action::Fail(Fault::Idle));
}

#[test]
fn dispatch_of_a_deferred_block_goes_by_the_stack() {
    let code = [Instr::Local(0), Instr::Local(1), Instr::Load(0), Instr::Ret];
    let blocks = [Blk(BlkType::Fun, Time::Deferred, 0)];
    let bodies = [body(0, 2)];
    let mut vm = VM::new(&code, &blocks, &bodies);
    assert_eq!(vm.exe_block(0), Action::Done(Obj::Fun(0)));
    assert!(vm.frames().is_empty());
    vm.exe_instr(&Instr::Push(f(1.)));
    assert_eq!(vm.exe_block(0), Action::Fail(Fault::Arity(0)));
    assert!(vm.frames().is_empty());
    assert_eq!(vm.stack(), &vec![f(1.)]);
    vm.exe_instr(&Instr::Push(f(2.)));
    assert_eq!(vm.exe_block(0), Action::Next);
    assert_eq!(vm.run(10), Action::Done(f(2.)));
    vm.exe_instr(&Instr::Push(f(1.)));
    vm.exe_instr(&Instr::Push(f(2.)));
    vm.exe_instr(&Instr::Push(f(3.)));
    assert_eq!(vm.exe_block(0), Action::Next);
    assert_eq!(vm.run(10), Action::Done(f(3.)));
    assert_eq!(vm.stack(), &vec![f(1.)]);
}

#[test]
fn a_deferred_block_met_on_an_empty_stack_is_pushed_for_the_caller() {
    let code = [Instr::Jmp(1), Instr::Ret, Instr::Push(f(1.)), Instr::Ret];
    let blocks = [Blk(BlkType::Fun, Time::Immediate, 0), Blk(BlkType::Fun, Time::Deferred, 1)];
    let bodies = [body(0, 0), body(2, 0)];
    let mut vm = VM::new(&code, &blocks, &bodies);
    assert_eq!(vm.exe_block(0), Action::Next);
    assert_eq!(vm.step(), Action::Next);
    assert_eq!(vm.stack(), &vec![Obj::Fun(1)]);
    assert_eq!(vm.frames().len(), 1);
    assert_eq!(vm.step(), Action::Done(Obj::Fun(1)));
}

#[test]
fn blocks_bodies_and_code_that_are_not_there_are_lookup_faults() {
    let code = [Instr::Ret];
    let blocks = [
        Blk(BlkType::Fun, Time::Immediate, 3),
        Blk(BlkType::Fun, Time::Deferred, 3),
        Blk(BlkType::Fun, Time::Immediate, 1),
        Blk(BlkType::One, Time::Immediate, 0),
        Blk(BlkType::Two, Time::Deferred, 0),
        Blk(BlkType::Fun, Time::Immediate, 0),
    ];
    let bodies = [body(1, 0), body(2, 0)];
    let mut vm = VM::new(&code, &blocks, &bodies);
    assert_eq!(vm.exe_block(9), Action::Fail(Fault::Lookup(Missing::Block(9))));
    assert_eq!(vm.exe_block(0), Action::Fail(Fault::Lookup(Missing::Body(3))));
    assert_eq!(vm.exe_block(1), Action::Done(Obj::Fun(1)));
    assert_eq!(vm.exe_block(2), Action::Fail(Fault::Lookup(Missing::Code(2))));
    assert_eq!(vm.exe_block(3), Action::Fail(Fault::Reserved(3)));
    assert_eq!(vm.exe_block(4), Action::Fail(Fault::Reserved(4)));
    assert_eq!(vm.exe_body(2), Action::Fail(Fault::Lookup(Missing::Body(2))));
    assert_eq!(vm.exe_body(1), Action::Fail(Fault::Lookup(Missing::Code(2))));
    assert_eq!(vm.exe_instr(&Instr::Jmp(9)), Action::Fail(Fault::Lookup(Missing::Block(9))));
    vm.exe_instr(&Instr::Push(f(1.)));
    assert_eq!(vm.exe_block(1), Action::Fail(Fault::Lookup(Missing::Body(3))));
    assert_eq!(vm.exe_block(5), Action::Next);
    assert_eq!(vm.step(), Action::Done(f(1.)));
}

#[test]
fn a_body_that_returns_on_an_empty_stack_is_at_fault() {
    let code = [Instr::Nop, Instr::Ret];
    let blocks = [Blk(BlkType::Fun, Time::Immediate, 0)];
    let bodies = [body(0, 0)];
    let mut vm = VM::new(&code, &blocks, &bodies);
    assert_eq!(vm.exe_block(0), Action::Next);
    assert_eq!(vm.step(), Action::Next);
    assert_eq!(vm.step(), Action::Fail(Fault::Return));
    assert_eq!(vm.frames(), &vec![Frame { pc: 1, call: Call::Block(0) }]);
    assert_eq!(Fault::Return.message(), "invalid return: no value on top of stack");
}

#[test]
fn a_body_of_nothing_but_ret_is_an_invalid_return() {
    let code = [Instr::Ret];
    let bodies = [body(0, 0)];
    let mut vm = VM::new(&code, &[], &bodies);
    assert_eq!(vm.exe_body(0), Action::Next);
    let fault = match vm.step() {
        Action::Fail(f) => f,
        a => panic!("{a:?}"),
    };
    assert_eq!(fault, Fault::Return);
    assert_eq!(fault.message(), "invalid return: no value on top of stack");
    assert_ne!(fault, Fault::Underflow);
    assert!(show(&vm.explain(&fault)).starts_with("invalid return: no value on top of stack at Ret\n"));
}

#[test]
fn a_body_ends_at_the_end_of_the_code() {
    let code = [Instr::Push(f(4.))];
    let bodies = [body(0, 0), body(1, 0)];
    let mut vm = VM::new(&code, &[], &bodies);
    assert_eq!(vm.exe_body(0), Action::Next);
    assert_eq!(vm.frames(), &vec![Frame { pc: 0, call: Call::Body }]);
    assert_eq!(vm.step(), Action::Next);
    assert_eq!(vm.step(), Action::Done(f(4.)));
    assert_eq!(vm.exe_body(1), Action::Next);
    assert_eq!(vm.step(), Action::Fail(Fault::Return));
}

#[test]
fn a_fault_leaves_the_state_and_the_position() {
    let code = [Instr::Push(f(1.)), Instr::AddF, Instr::Ret];
    let bodies = [body(0, 0)];
    let mut vm = VM::new(&code, &[], &bodies);
    vm.exe_body(0);
    vm.step();
    assert_eq!(vm.step(), Action::Fail(Fault::Underflow));
    assert_eq!(vm.frames(), &vec![Frame { pc: 1, call: Call::Body }]);
    assert_eq!(vm.stack(), &vec![f(1.)]);
    assert_eq!(vm.step(), Action::Fail(Fault::Underflow));
}

#[test]
fn structural_instructions_do_nothing_and_ret_is_no_instruction() {
    let mut vm = with_stack(&[f(1.)]);
    for ins in [Instr::Label(3), Instr::Nop, Instr::Break] {
        assert_eq!(vm.exe_instr(&ins), Action::Next);
        assert_eq!(vm.stack(), &vec![f(1.)]);
    }
    assert_eq!(vm.exe_instr(&Instr::Ret), Action::Fail(Fault::Invalid));
}

#[test]
fn labelled_jumps_go_on_behind_the_label() {
    let code = [
        Instr::Push(f(0.)),
        Instr::LJmpNZ(1),
        Instr::Push(f(7.)),
        Instr::LJmpNZ(1),
        Instr::Push(Obj::C('a')),
        Instr::Ret,
        Instr::Label(0),
        Instr::Label(1),
        Instr::Push(Obj::C('b')),
        Instr::Ret,
    ];
    let bodies = [body(0, 0)];
    let mut vm = VM::new(&code, &[], &bodies);
    vm.exe_body(0);
    assert_eq!(vm.run(2), Action::Next);
    assert!(vm.stack().is_empty());
    assert_eq!(vm.frames(), &vec![Frame { pc: 2, call: Call::Body }]);
    assert_eq!(vm.run(2), Action::Next);
    assert_eq!(vm.frames(), &vec![Frame { pc: 4, call: Call::Body }, Frame { pc: 8, call: Call::Jump }]);
    assert_eq!(vm.run(2), Action::Next);
    assert_eq!(vm.frames(), &vec![Frame { pc: 4, call: Call::Body }]);
    assert_eq!(vm.stack(), &vec![Obj::C('b')]);
    assert_eq!(vm.run(9), Action::Done(Obj::C('a')));
    assert_eq!(vm.stack(), &vec![Obj::C('b')]);
}

#[test]
fn jump_on_zero_is_the_mirror_image() {
    let mut vm = with_stack(&[f(1.), f(0.)]);
    assert_eq!(vm.exe_instr(&Instr::LJmpZ(4)), Action::Fail(Fault::Lookup(Missing::Label(4))));
    assert_eq!(vm.exe_instr(&Instr::LJmpNZ(4)), Action::Next);
    assert_eq!(vm.stack(), &vec![f(1.)]);
    assert_eq!(vm.exe_instr(&Instr::LJmpZ(4)), Action::Next);
    assert!(vm.stack().is_empty());
    let code = [Instr::Label(4), Instr::Ret];
    let mut vm = VM::new(&code, &[], &[]);
    vm.exe_instr(&Instr::Push(f(-0.)));
    assert_eq!(vm.exe_instr(&Instr::LJmpZ(4)), Action::Next);
    assert_eq!(vm.frames(), &vec![Frame { pc: 1, call: Call::Jump }]);
    assert_eq!(vm.step(), Action::Next);
    assert!(vm.frames().is_empty());
    vm.exe_instr(&Instr::Push(f(f64::NAN)));
    assert_eq!(vm.exe_instr(&Instr::LJmpNZ(4)), Action::Next);
    assert_eq!(vm.frames().len(), 1);
}

#[test]
fn branch_on_zero_dispatches_a_block() {
    let code = [Instr::Push(Obj::C('t')), Instr::Ret];
    let blocks = [Blk(BlkType::Fun, Time::Immediate, 0)];
    let bodies = [body(0, 0)];
    let mut vm = VM::new(&code, &blocks, &bodies);
    vm.exe_instr(&Instr::Push(f(3.)));
    assert_eq!(vm.exe_instr(&Instr::JmpZ(0)), Action::Next);
    assert!(vm.frames().is_empty());
    assert!(vm.stack().is_empty());
    vm.exe_instr(&Instr::Push(f(0.)));
    assert_eq!(vm.exe_instr(&Instr::JmpZ(0)), Action::Next);
    assert_eq!(vm.frames(), &vec![Frame { pc: 0, call: Call::Block(0) }]);
    assert!(vm.stack().is_empty());
    vm.exe_instr(&Instr::Push(f(0.)));
    assert_eq!(vm.exe_instr(&Instr::JmpZ(5)), Action::Fail(Fault::Lookup(Missing::Block(5))));
    assert_eq!(vm.stack(), &vec![f(0.)]);
}

#[test]
fn application_puts_the_argument_back_and_dispatches() {
    let code = [Instr::Local(0), Instr::Load(0), Instr::Ret];
    let blocks = [Blk(BlkType::Fun, Time::Deferred, 0)];
    let bodies = [body(0, 1)];
    let mut vm = VM::new(&code, &blocks, &bodies);
    vm.exe_instr(&Instr::Push(Obj::Fun(0)));
    vm.exe_instr(&Instr::Push(f(6.)));
    assert_eq!(vm.exe_instr(&Instr::Apply1), Action::Next);
    assert_eq!(vm.stack(), &vec![f(6.)]);
    assert_eq!(vm.frames(), &vec![Frame { pc: 0, call: Call::Block(0) }]);
    assert_eq!(vm.run(5), Action::Done(f(6.)));
    vm.exe_instr(&Instr::Push(Obj::Fun(0)));
    assert_eq!(vm.exe_instr(&Instr::Apply0), Action::Done(Obj::Fun(0)));
    assert!(vm.stack().is_empty());
    vm.exe_instr(&Instr::Push(f(1.)));
    vm.exe_instr(&Instr::Push(f(2.)));
    vm.exe_instr(&Instr::Push(Obj::Fun(0)));
    assert_eq!(vm.exe_instr(&Instr::ApplyN), Action::Next);
    assert_eq!(vm.stack(), &vec![f(1.), f(2.)]);
    assert_eq!(vm.run(5), Action::Done(f(2.)));
    vm.exe_instr(&Instr::Push(Obj::Fun(8)));
    assert_eq!(vm.exe_instr(&Instr::ApplyN), Action::Fail(Fault::Lookup(Missing::Block(8))));
    assert_eq!(vm.stack(), &vec![f(1.), Obj::Fun(8)]);
    vm.exe_instr(&Instr::Push(f(3.)));
    assert_eq!(vm.exe_instr(&Instr::Apply1), Action::Fail(Fault::Lookup(Missing::Block(8))));
    assert_eq!(vm.stack(), &vec![f(1.), Obj::Fun(8), f(3.)]);
}

#[test]
fn run_stops_when_its_fuel_is_spent() {
    let code = [Instr::Label(0), Instr::Push(f(1.)), Instr::LJmpNZ(0), Instr::Ret];
    let bodies = [body(0, 0)];
    let mut vm = VM::new(&code, &[], &bodies);
    vm.exe_body(0);
    assert_eq!(vm.run(0), Action::Next);
    assert_eq!(vm.frames().len(), 1);
    assert_eq!(vm.run(3), Action::Next);
    assert_eq!(vm.frames().len(), 2);
    assert_eq!(vm.run(300), Action::Next);
    assert_eq!(vm.frames().len(), 152);
}

#[test]
fn run_stops_at_the_first_request() {
    let code = [Instr::Push(f(1.)), Instr::Push(f(2.)), Instr::AddF, Instr::Push(f(3.)), Instr::MulF, Instr::Ret];
    let bodies = [body(0, 0)];
    let mut vm = VM::new(&code, &[], &bodies);
    vm.exe_body(0);
    assert_eq!(vm.run(100), Action::Compute(Arith::Add, num(1.), num(2.)));
    vm.resume(num(3.));
    assert_eq!(vm.run(100), Action::Compute(Arith::Mul, num(3.), num(3.)));
    vm.resume(num(9.));
    assert_eq!(vm.run(100), Action::Done(f(9.)));
    assert_eq!(vm.run(100), Action::Fail(Fault::Idle));
}

#[test]
fn an_undefined_variable_is_a_compile_time_error() {
    let mut m = Machine::new();
    let l = D("+", &X("x"), &F(num(1.)));
    assert!(m.compile(&l).is_err());
}

#[test]
fn a_deferred_block_with_too_few_arguments_is_a_runtime_error() {
    let l = D(
        "@",
        &Leaf::Fun { a: vec![("x", LeafType::F), ("y", LeafType::F)], v: vec![D("+", &X("x"), &X("y"))] },
        &F(num(1.)),
    );
    let mut m = Machine::new();
    let b = m.compile(&l).unwrap();
    let mut vm = VM::new(&m.instrs, &m.blocks, &m.bodies);
    assert_eq!(run(&mut vm, b), Err(Fault::Arity(1)));
    let report = show(&vm.explain(&Fault::Arity(1)));
    assert!(report.contains("deferred block called with too few arguments"));
    assert!(Fault::Arity(1).message().contains("deferred block called with too few arguments"));
    assert!(report.starts_with(
        "err while executing block 3: deferred block called with too few arguments: block 1 at Apply1\ntables:\n"
    ));
}

#[test]
fn literals_come_back_in_their_shortest_form() {
    for x in [0., 1., 2., 2.5, -7.25, 0.1, 1e21, 1e-7, 123456789.125, f64::MAX, f64::MIN_POSITIVE, f64::INFINITY, -0.] {
        let l = F(num(x));
        let s = eval(&l);
        assert_eq!(s, x.to_string());
        assert_eq!(s.parse::<f64>().unwrap().to_bits(), x.to_bits());
    }
    assert_eq!(eval(&F(num(2.))), "2");
    assert_eq!(eval(&F(num(f64::NAN))), "NaN");
    assert_eq!(eval(&C('q')), "q");
}

#[test]
fn arithmetic_is_that_of_doubles() {
    for (a, b) in [(5., 2.), (0.1, 0.2), (1e308, 1e308), (-3., 0.), (0., 0.), (7., -0.5)] {
        assert_eq!(eval(&D("+", &F(num(a)), &F(num(b)))), (a + b).to_string());
        assert_eq!(eval(&D("-", &F(num(a)), &F(num(b)))), (a - b).to_string());
        assert_eq!(eval(&D("*", &F(num(a)), &F(num(b)))), (a * b).to_string());
        assert_eq!(eval(&D("%", &F(num(a)), &F(num(b)))), (a / b).to_string());
    }
    assert_eq!(eval(&D("+", &F(num(5.)), &F(num(2.)))), "7");
    assert_eq!(eval(&D("%", &F(num(5.)), &F(num(2.)))), "2.5");
    assert_eq!(eval(&D("%", &F(num(1.)), &F(num(0.)))), "inf");
}

#[test]
fn negation_twice_is_exact() {
    for x in [1., -1., 0., -0., 2.5, f64::MAX, f64::INFINITY, 5e-324] {
        let l = M("-", &M("-", &F(num(x))));
        let mut m = Machine::new();
        let b = m.compile(&l).unwrap();
        let mut vm = VM::new(&m.instrs, &m.blocks, &m.bodies);
        assert_eq!(run(&mut vm, b), Ok(f(x)));
    }
    let nan = num(f64::NAN);
    let l = M("-", &M("-", &F(nan)));
    let mut m = Machine::new();
    let b = m.compile(&l).unwrap();
    let mut vm = VM::new(&m.instrs, &m.blocks, &m.bodies);
    assert_eq!(run(&mut vm, b), Ok(Obj::F(nan)));
    assert_eq!(eval(&M("-", &M("-", &F(num(1.))))), "1");
    assert_eq!(eval(&M("-", &D("+", &F(num(1.)), &F(num(2.))))), "-3");
}

#[test]
fn iota_of_a_literal_counts_from_zero() {
    let want = ["[|]", "[|0]", "[|0, 1]", "[|0, 1, 2]", "[|0, 1, 2, 3]", "[|0, 1, 2, 3, 4]"];
    for (n, s) in want.iter().enumerate() {
        assert_eq!(eval(&M("!", &F(num(n as f64)))), *s);
    }
    assert_eq!(eval(&M("!", &F(num(2.9)))), "[|0, 1]");
    assert_eq!(eval(&M("!", &F(num(-2.)))), "[|]");
    let l = M("!", &F(num(12.)));
    assert_eq!(eval(&l), "[|0, 1, 2, 3, 4, 5, 6, 7, 8, 9, 10, 11]");
}

#[test]
fn iota_of_an_expression_counts_at_run_time() {
    assert_eq!(eval(&M("!", &D("+", &F(num(1.)), &F(num(3.))))), "[|0, 1, 2, 3]");
    assert_eq!(eval(&M("!", &D("+", &F(num(1.)), &F(num(1.))))), "[|0, 1]");
    assert_eq!(eval(&M("!", &D("*", &F(num(3.)), &F(num(2.))))), "[|0, 1, 2, 3, 4, 5]");
}

#[test]
fn a_function_is_a_value_until_it_is_applied() {
    let one = F(num(1.));
    let zero = F(num(0.));
    let fun = Leaf::Fun { a: Vec::new(), v: vec![D("+", &one, &one)] };
    assert_eq!(eval(&fun), "{&1}");
    let applied = D("@", &fun, &zero);
    assert_eq!(eval(&applied), "2");
}

#[test]
fn application_binds_its_argument() {
    let (one, two, three, four) = (F(num(1.)), F(num(2.)), F(num(3.)), F(num(4.)));
    let x = X("x");
    let inc = Leaf::Fun { a: vec![("x", LeafType::F)], v: vec![D("+", &one, &x)] };
    assert_eq!(eval(&D("@", &inc, &two)), "3");
    let quarter = Leaf::Fun { a: vec![("x", LeafType::F)], v: vec![D("%", &x, &four)] };
    let six = D("*", &three, &two);
    assert_eq!(eval(&D("@", &quarter, &six)), "1.5");
}

#[test]
fn arguments_are_bound_in_source_order() {
    let sub = Leaf::Fun { a: vec![("x", LeafType::F), ("y", LeafType::F)], v: vec![D("-", &X("x"), &X("y"))] };
    assert_eq!(eval(&D(".", &sub, &A(vec![F(num(5.)), F(num(2.))]))), "3");
    let pair = Leaf::Fun { a: vec![("x", LeafType::F), ("y", LeafType::F)], v: vec![A(vec![X("x"), X("y")])] };
    assert_eq!(eval(&D(".", &pair, &A(vec![F(num(5.)), F(num(2.))]))), "[|5, 2]");
    assert_eq!(eval(&D(".", &pair, &M("!", &F(num(2.))))), "[|0, 1]");
    let add = Leaf::Fun { a: vec![("x", LeafType::F), ("y", LeafType::F)], v: vec![D("+", &X("x"), &X("y"))] };
    assert_eq!(eval(&D(".", &add, &A(vec![F(num(1.)), F(num(1.))]))), "2");
}

#[test]
fn arrays_render_their_items() {
    assert_eq!(eval(&A(vec![F(num(1.)), F(num(2.))])), "[|1, 2]");
    assert_eq!(eval(&A(vec![])), "[|]");
    assert_eq!(eval(&A(vec![C('a'), A(vec![F(num(0.5)), A(vec![])]), M("-", &F(num(1.)))])), "[|a, [|0.5, [|]], -1]");
}

#[test]
fn values_render_by_their_kind() {
    let vm = bare();
    assert_eq!(show(&vm.fmt(&Obj::C('x'))), "x");
    assert_eq!(show(&vm.fmt(&f(2.))), "2");
    assert_eq!(show(&vm.fmt(&f(2.5))), "2.5");
    assert_eq!(show(&vm.fmt(&Obj::U(42))), "42");
    assert_eq!(show(&vm.fmt(&Obj::Fun(7))), "{&7}");
    assert_eq!(show(&vm.fmt(&Obj::T(3))), "[&3]");
    assert_eq!(show(&[Obj::T(3).fmt()]), "[&3]");
    assert_eq!(show(&[Obj::Fun(12).fmt()]), "{&12}");
    assert_eq!(show(&[Obj::U(0).fmt()]), "0");
    assert_eq!(show(&[Obj::C('c').fmt()]), "c");
    assert_eq!(show(&[f(-1.5).fmt()]), "-1.5");
    for (o, k) in [(Obj::C('c'), ObjType::C), (f(1.), ObjType::F), (Obj::U(1), ObjType::U), (Obj::T(1), ObjType::T), (Obj::Fun(1), ObjType::Fun)] {
        assert_eq!(o.kind(), k);
    }
}

#[test]
fn a_table_that_holds_itself_is_opened_once() {
    let mut vm = with_stack(&[f(1.)]);
    vm.exe_instr(&Instr::Vec(1));
    vm.exe_instr(&Instr::Dup);
    vm.exe_instr(&Instr::Dup);
    vm.exe_instr(&Instr::Local(0));
    vm.exe_instr(&Instr::VecPush(0));
    assert_eq!(show(&vm.fmt(&Obj::T(0))), "[|1, [&0]]");
    vm.exe_instr(&Instr::Vec(0));
    assert_eq!(show(&vm.fmt(&Obj::T(0))), "[|1, [|1, [&0]]]");
}

#[test]
fn the_listings_of_tables_and_variables() {
    let mut vm = with_stack(&[Obj::C('k'), f(1.5), f(0.), f(1.), f(2.)]);
    vm.exe_instr(&Instr::Vec(3));
    vm.exe_instr(&Instr::Local(12));
    vm.exe_instr(&Instr::Table(1));
    vm.exe_instr(&Instr::Local(3));
    vm.exe_instr(&Instr::Push(f(9.)));
    vm.exe_instr(&Instr::Local(12));
    vm.exe_instr(&Instr::Push(Obj::T(1)));
    vm.exe_instr(&Instr::Local(100));
    assert_eq!(
        show(&vm.fmt_tables()),
        "0 /\n\n\t--------\n\t  0: 0\n\t  1: 1\n\t  2: 2\n1 /\n\t1.5 :\tk\n\t--------\n"
    );
    assert_eq!(show(&vm.fmt_vars()), " 12: '9'\n  3: '[1.5: k|]'\n100: '[1.5: k|]'");
    vm.rm_table(&0);
    assert_eq!(show(&vm.fmt_tables()), "1 /\n\t1.5 :\tk\n\t--------\n");
}

#[test]
fn the_report_of_a_fault_names_the_blocks_and_lists_the_state() {
    let l = D(
        "@",
        &Leaf::Fun { a: vec![("x", LeafType::F)], v: vec![D("+", &X("x"), &X("x"))] },
        &C('c'),
    );
    let mut m = Machine::new();
    let b = m.compile(&l).unwrap();
    let mut vm = VM::new(&m.instrs, &m.blocks, &m.bodies);
    let fault = run(&mut vm, b).unwrap_err();
    assert_eq!(fault, Fault::Type { expected: ObjType::F, found: ObjType::C });
    assert_eq!(
        show(&vm.explain(&fault)),
        "err while executing block 3: err while executing block 1: err while executing block 0: \
         invalid operand: expected F, found C at AddF\ntables:\n\nvars:\n  0: 'c'"
    );
}

#[test]
fn faults_in_words() {
    for (fault, want) in [
        (Fault::Type { expected: ObjType::Fun, found: ObjType::T }, "invalid operand: expected Fun, found T"),
        (Fault::Type { expected: ObjType::U, found: ObjType::C }, "invalid operand: expected U, found C"),
        (Fault::Underflow, "no value on top of stack"),
        (Fault::Return, "invalid return: no value on top of stack"),
        (Fault::Lookup(Missing::Var(3)), "no var 3"),
        (Fault::Lookup(Missing::Table(4)), "no table 4"),
        (Fault::Lookup(Missing::Label(5)), "no label 5"),
        (Fault::Lookup(Missing::Block(6)), "no block 6"),
        (Fault::Lookup(Missing::Body(7)), "no body 7"),
        (Fault::Lookup(Missing::Code(80)), "no instruction 80"),
        (Fault::Arity(9), "deferred block called with too few arguments: block 9"),
        (Fault::Reserved(10), "block 10 is of a reserved kind"),
        (Fault::Invalid, "invalid instruction: Ret"),
        (Fault::Full, "no table handle left"),
        (Fault::Idle, "nothing to run"),
    ] {
        assert_eq!(fault.message(), want);
    }
    assert_eq!(Missing::Var(0).message(), "no var 0");
    assert_eq!(ObjType::Fun.name(), "Fun");
}

#[test]
fn instructions_as_listed() {
    for (ins, want) in [
        (Instr::Push(f(1.5)), "Push(1.5)"),
        (Instr::Push(Obj::C('a')), "Push(a)"),
        (Instr::Push(Obj::Fun(2)), "Push({&2})"),
        (Instr::Push(Obj::T(2)), "Push([&2])"),
        (Instr::Push(Obj::U(2)), "Push(2)"),
        (Instr::Pop, "Pop"),
        (Instr::Local(1), "Local(1)"),
        (Instr::Load(2), "Load(2)"),
        (Instr::Label(3), "Label(3)"),
        (Instr::AddF, "AddF"),
        (Instr::SubF, "SubF"),
        (Instr::MulF, "MulF"),
        (Instr::DivF, "DivF"),
        (Instr::NegF, "NegF"),
        (Instr::CmpF, "CmpF"),
        (Instr::Table(4), "Table(4)"),
        (Instr::Vec(5), "Vec(5)"),
        (Instr::VecFull, "VecFull"),
        (Instr::VecPush(6), "VecPush(6)"),
        (Instr::VecLast(7), "VecLast(7)"),
        (Instr::VecPop(8), "VecPop(8)"),
        (Instr::Apply0, "Apply0"),
        (Instr::Apply1, "Apply1"),
        (Instr::ApplyN, "ApplyN"),
        (Instr::Dup, "Dup"),
        (Instr::Swap2, "Swap2"),
        (Instr::PopVec, "PopVec"),
        (Instr::Ret, "Ret"),
        (Instr::Break, "Break"),
        (Instr::Nop, "Nop"),
        (Instr::Jmp(9), "Jmp(9)"),
        (Instr::JmpZ(10), "JmpZ(10)"),
        (Instr::LJmpZ(11), "LJmpZ(11)"),
        (Instr::LJmpNZ(12), "LJmpNZ(12)"),
    ] {
        assert_eq!(show(&ins.fmt()), want);
        assert!(want.starts_with(ins.name()));
    }
}

#[test]
fn or_fatal_gives_the_value() {
    let r: Result<u8, String> = Ok(3);
    assert_eq!(or_fatal(r), 3);
}

#[test]
fn the_machine_hands_out_its_bodies() {
    let code = [Instr::Nop, Instr::Dup, Instr::Ret, Instr::Pop];
    let bodies = [body(1, 0), body(3, 0), body(4, 0)];
    let vm = VM::new(&code, &[], &bodies);
    let mut it = vm.iter_body(0);
    assert_eq!(it.next(), Some(&Instr::Dup));
    assert_eq!(it.next(), None);
    assert_eq!(it.next(), Some(&Instr::Pop));
    assert_eq!(it.next(), None);
    assert_eq!(vm.iter_body(1).next(), Some(&Instr::Pop));
    assert_eq!(vm.iter_body(2).next(), None);
}

#[test]
fn compiled_programs_fail_only_for_what_the_expression_gets_wrong() {
    let (one, two, c) = (F(num(1.)), F(num(2.)), C('c'));
    let (x, y) = (X("x"), X("y"));
    let add = D("+", &x, &y);
    let two_params = Leaf::Fun { a: vec![("x", LeafType::F), ("y", LeafType::F)], v: vec![add] };
    let neg = M("-", &c);
    let iota = M("!", &c);
    let short = D("@", &two_params, &one);
    let mixed = D(".", &two_params, &neg);
    let chars = D(".", &two_params, &D("@", &two_params, &two));
    let array = A(vec![C('a'), M("-", &one), M("!", &two)]);
    let fine = D(".", &two_params, &M("!", &two));
    for l in [&neg, &iota, &short, &mixed, &chars, &array, &fine] {
        let mut m = Machine::new();
        let b = m.compile(l).unwrap();
        let mut vm = VM::new(&m.instrs, &m.blocks, &m.bodies);
        match run(&mut vm, b) {
            Ok(_) => {}
            Err(Fault::Type { .. }) | Err(Fault::Underflow) | Err(Fault::Arity(_)) => {}
            Err(Fault::Return) | Err(Fault::Full) | Err(Fault::Idle) => {}
            Err(Fault::Lookup(Missing::Var(_))) | Err(Fault::Lookup(Missing::Table(_))) => {}
            Err(f) => panic!("{l:?} broke the program: {f:?}"),
        }
    }
    assert_eq!(eval(&fine), "1");
}
