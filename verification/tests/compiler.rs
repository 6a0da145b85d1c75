use nvm::bc::{Blk, BlkType, Body, Instr, Obj, ObjType, Time};
use nvm::lisp::Leaf::{A, C, D, F, M, X};
use nvm::lisp::{CompileError, Leaf, LeafType, Machine};
use nvm::num::Double;
use nvm::text::Piece;
use nvm::BodyIterator;

fn num(x: f64) -> Double {
    Double::from_bits(x.to_bits())
}

fn push(x: f64) -> Instr {
    Instr::Push(Obj::F(num(x)))
}

fn immediate(i: usize) -> Blk {
    Blk(BlkType::Fun, Time::Immediate, i)
}

fn same_bodies(a: &[Body], b: &[Body]) -> bool {
    a.len() == b.len()
        && a.iter().zip(b).all(|(x, y)| {
            x.start == y.start && x.vars == y.vars && x.names == y.names && x.export == y.export
        })
}

#[test]
fn a_new_machine_is_empty() {
    let m = Machine::new();
    assert!(m.vars.is_empty());
    assert_eq!(m.varn, 0);
    assert_eq!(m.labeln, 0);
    assert!(m.instrs.is_empty());
    assert!(m.blocks.is_empty());
    assert!(m.bodies.is_empty());
}

#[test]
fn literal_number_is_one_push() {
    let mut m = Machine::new();
    let l = F(num(2.5));
    let b = m.compile(&l).unwrap();
    assert_eq!(b, 0);
    assert_eq!(m.instrs, vec![push(2.5), Instr::Ret]);
    assert_eq!(m.blocks, vec![immediate(0)]);
    assert_eq!(m.bodies.len(), 1);
    assert_eq!(m.bodies[0].start, 0);
    assert_eq!(m.bodies[0].vars, 0);
    assert!(m.bodies[0].names.is_empty());
    assert!(m.bodies[0].export.is_empty());
    assert!(m.bodies[0].exported().is_empty());
}

#[test]
fn literal_character_is_one_push() {
    let mut m = Machine::new();
    let l = C('q');
    assert_eq!(m.compile(&l).unwrap(), 0);
    assert_eq!(m.instrs, vec![Instr::Push(Obj::C('q')), Instr::Ret]);
}

#[test]
fn arithmetic_on_literals_is_inline() {
    for (op, ins) in [("+", Instr::AddF), ("-", Instr::SubF), ("*", Instr::MulF), ("%", Instr::DivF)] {
        let mut m = Machine::new();
        let l = D(op, &F(num(5.)), &F(num(2.)));
        assert_eq!(m.compile(&l).unwrap(), 0);
        assert_eq!(m.instrs, vec![push(5.), push(2.), ins, Instr::Ret]);
        assert_eq!(m.blocks, vec![immediate(0)]);
    }
}

#[test]
fn arithmetic_on_variables_loads_them() {
    for (op, ins) in [("+", Instr::AddF), ("-", Instr::SubF), ("*", Instr::MulF), ("%", Instr::DivF)] {
        let mut m = Machine::new();
        m.vars.insert(0, ("x", LeafType::F));
        m.vars.insert(1, ("y", LeafType::F));
        m.varn = 2;
        let l = D(op, &X("x"), &F(num(1.)));
        assert_eq!(m.compile(&l).unwrap(), 0);
        assert_eq!(m.instrs, vec![Instr::Load(0), push(1.), ins, Instr::Ret]);
        let l = D(op, &F(num(1.)), &X("y"));
        assert_eq!(m.compile(&l).unwrap(), 1);
        assert_eq!(m.instrs[4..], [push(1.), Instr::Load(1), ins, Instr::Ret]);
        let l = D(op, &X("y"), &X("x"));
        assert_eq!(m.compile(&l).unwrap(), 2);
        assert_eq!(m.instrs[8..], [Instr::Load(1), Instr::Load(0), ins, Instr::Ret]);
    }
}

#[test]
fn undefined_variable_is_a_compile_error() {
    let mut m = Machine::new();
    let l = D("+", &X("x"), &F(num(1.)));
    assert!(matches!(m.compile(&l), Err(CompileError::Undefined("x"))));
    assert!(m.instrs.is_empty());
    let l = X("nope");
    let e = m.compile(&l).unwrap_err();
    assert!(matches!(e, CompileError::Undefined("nope")));
    assert_eq!(e.message(), "variable nope undefined");
}

#[test]
fn the_most_recent_binding_of_a_name_wins() {
    let mut m = Machine::new();
    m.vars.insert(0, ("x", LeafType::F));
    m.vars.insert(1, ("y", LeafType::F));
    m.vars.insert(3, ("x", LeafType::C));
    m.varn = 4;
    assert_eq!(m.get_var_by_name("x"), Some(3));
    assert_eq!(m.get_var_by_name("y"), Some(1));
    assert_eq!(m.get_var_by_name("z"), None);
    assert_eq!(m.get_var(3), 3);
    let l = X("x");
    m.compile(&l).unwrap();
    assert_eq!(m.instrs, vec![Instr::Load(3), Instr::Ret]);
}

#[test]
fn array_jumps_to_each_item_in_order() {
    let mut m = Machine::new();
    let l = A(vec![F(num(1.)), F(num(2.))]);
    assert_eq!(m.compile(&l).unwrap(), 2);
    assert_eq!(
        m.instrs,
        vec![push(1.), Instr::Ret, push(2.), Instr::Ret, Instr::Jmp(0), Instr::Jmp(1), Instr::Vec(2), Instr::Ret]
    );
    assert_eq!(m.blocks, vec![immediate(0), immediate(1), immediate(2)]);
    assert_eq!(m.bodies[2].start, 4);
}

#[test]
fn empty_array_is_an_empty_vector() {
    let mut m = Machine::new();
    let l = A(vec![]);
    assert_eq!(m.compile(&l).unwrap(), 0);
    assert_eq!(m.instrs, vec![Instr::Vec(0), Instr::Ret]);
}

#[test]
fn function_binds_the_last_parameter_first() {
    let mut m = Machine::new();
    let l = Leaf::Fun {
        a: vec![("x", LeafType::F), ("y", LeafType::C)],
        v: vec![D("+", &X("x"), &X("y"))],
    };
    assert_eq!(m.compile(&l).unwrap(), 1);
    assert_eq!(m.varn, 2);
    assert_eq!(m.vars[&0], ("y", LeafType::C));
    assert_eq!(m.vars[&1], ("x", LeafType::F));
    assert_eq!(
        m.instrs,
        vec![
            Instr::Load(1),
            Instr::Load(0),
            Instr::AddF,
            Instr::Ret,
            Instr::Local(0),
            Instr::Local(1),
            Instr::Jmp(0),
            Instr::Ret
        ]
    );
    assert_eq!(m.blocks, vec![immediate(0), Blk(BlkType::Fun, Time::Deferred, 1)]);
    assert_eq!(m.bodies[1].start, 4);
    assert_eq!(m.bodies[1].vars, 2);
    assert_eq!(m.bodies[1].names, vec![("x", ObjType::F), ("y", ObjType::C)]);
    assert_eq!(m.bodies[1].export, vec![false, false]);
    assert!(m.bodies[1].exported().is_empty());
    assert!(m.bodies[0].export.is_empty());
}

#[test]
fn function_runs_its_first_expression_only() {
    let mut m = Machine::new();
    let l = Leaf::Fun { a: vec![], v: vec![F(num(1.)), F(num(2.)), F(num(3.))] };
    assert_eq!(m.compile(&l).unwrap(), 3);
    assert_eq!(
        m.instrs,
        vec![push(1.), Instr::Ret, push(2.), Instr::Ret, push(3.), Instr::Ret, Instr::Jmp(0), Instr::Ret]
    );
}

#[test]
fn function_without_body_is_a_compile_error() {
    let mut m = Machine::new();
    let l = Leaf::Fun { a: vec![("x", LeafType::F)], v: vec![] };
    let e = m.compile(&l).unwrap_err();
    assert!(matches!(e, CompileError::Empty));
    assert_eq!(e.message(), "no leaves in fun");
    assert_eq!(m.varn, 1);
    assert!(m.instrs.is_empty());
}

#[test]
fn parameter_without_value_kind_is_unsupported() {
    for t in [LeafType::M, LeafType::D, LeafType::A, LeafType::Fun] {
        let mut m = Machine::new();
        let l = Leaf::Fun { a: vec![("x", LeafType::F), ("y", t)], v: vec![F(num(1.))] };
        assert!(matches!(m.compile(&l), Err(CompileError::Unsupported)));
        assert_eq!(m.varn, 0);
        assert!(m.instrs.is_empty());
    }
}

#[test]
fn leaf_type_into_value_kind() {
    assert_eq!(LeafType::C.into(), ObjType::C);
    assert_eq!(LeafType::F.into(), ObjType::F);
}

#[test]
fn application_to_one_value() {
    let mut m = Machine::new();
    let l = D("@", &Leaf::Fun { a: vec![("x", LeafType::F)], v: vec![X("x")] }, &F(num(2.)));
    assert_eq!(m.compile(&l).unwrap(), 3);
    assert_eq!(
        m.instrs[7..],
        [Instr::Push(Obj::Fun(1)), Instr::Push(Obj::Fun(2)), Instr::Apply0, Instr::Apply1, Instr::Ret]
    );
    assert_eq!(m.instrs[5..7], [push(2.), Instr::Ret]);
}

#[test]
fn application_to_an_array() {
    let mut m = Machine::new();
    let l = D(
        ".",
        &Leaf::Fun { a: vec![("x", LeafType::F)], v: vec![X("x")] },
        &A(vec![F(num(7.)), F(num(8.))]),
    );
    assert_eq!(m.compile(&l).unwrap(), 4);
    assert_eq!(
        m.instrs[9..],
        [Instr::Jmp(2), Instr::Jmp(3), Instr::Push(Obj::Fun(1)), Instr::ApplyN, Instr::Ret]
    );
}

#[test]
fn application_to_a_vector_expression() {
    let mut m = Machine::new();
    let l = D(".", &Leaf::Fun { a: vec![("x", LeafType::F)], v: vec![X("x")] }, &M("!", &F(num(2.))));
    assert_eq!(m.compile(&l).unwrap(), 3);
    assert_eq!(m.instrs[..4], [push(0.), push(1.), Instr::Vec(2), Instr::Ret]);
    assert_eq!(
        m.instrs[9..],
        [Instr::Jmp(0), Instr::PopVec, Instr::Push(Obj::Fun(2)), Instr::ApplyN, Instr::Ret]
    );
}

#[test]
fn unsupported_shapes_are_compile_errors() {
    let f = Leaf::Fun { a: vec![], v: vec![F(num(1.))] };
    let one = F(num(1.));
    let c = C('c');
    let arr = A(vec![]);
    let inner = M("-", &one);
    let cases = [
        D("@", &one, &one),
        D(".", &one, &arr),
        D(".", &f, &one),
        D(".", &f, &c),
        D("^", &one, &one),
        D("+", &one, &c),
        D("+", &inner, &one),
        M("?", &one),
        M("+", &one),
    ];
    for l in &cases {
        let mut m = Machine::new();
        let e = m.compile(l).unwrap_err();
        assert!(matches!(e, CompileError::Unsupported), "{l:?}");
        assert_eq!(e.message(), "cannot compile leaf");
    }
}

#[test]
fn minus_of_a_literal_is_folded() {
    let mut m = Machine::new();
    let l = M("-", &F(num(3.)));
    assert_eq!(m.compile(&l).unwrap(), 0);
    assert_eq!(m.instrs, vec![push(-3.), Instr::Ret]);
}

#[test]
fn minus_of_an_expression_negates_its_result() {
    let mut m = Machine::new();
    let l = M("-", &C('a'));
    assert_eq!(m.compile(&l).unwrap(), 1);
    assert_eq!(m.instrs[2..], [Instr::Jmp(0), Instr::NegF, Instr::Ret]);
}

#[test]
fn iota_of_a_literal_pushes_the_numbers() {
    let mut m = Machine::new();
    let l = M("!", &F(num(3.)));
    assert_eq!(m.compile(&l).unwrap(), 0);
    assert_eq!(m.instrs, vec![push(0.), push(1.), push(2.), Instr::Vec(3), Instr::Ret]);
    for (x, n) in [(0., 0), (-4., 0), (0.9, 0), (2.7, 2), (f64::NAN, 0)] {
        let mut m = Machine::new();
        let l = M("!", &F(num(x)));
        m.compile(&l).unwrap();
        assert_eq!(m.instrs.len(), n + 2);
        assert_eq!(m.instrs[n], Instr::Vec(n));
    }
}

#[test]
fn iota_of_an_expression_is_the_counting_loop() {
    let mut m = Machine::new();
    m.varn = 5;
    m.labeln = 9;
    let l = M("!", &D("+", &F(num(1.)), &F(num(3.))));
    assert_eq!(m.compile(&l).unwrap(), 1);
    assert_eq!(m.varn, 6);
    assert_eq!(m.labeln, 10);
    assert_eq!(
        m.instrs[4..],
        [
            Instr::Jmp(0),
            push(1.),
            Instr::SubF,
            push(0.),
            Instr::Vec(1),
            Instr::Local(5),
            Instr::Label(9),
            Instr::Dup,
            Instr::VecLast(5),
            push(1.),
            Instr::AddF,
            Instr::Dup,
            Instr::VecPush(5),
            Instr::CmpF,
            Instr::LJmpNZ(9),
            Instr::Load(5),
            Instr::Ret
        ]
    );
    assert_eq!(m.bodies[1].start, 4);
}

#[test]
fn no_slot_or_label_left_is_a_compile_error() {
    let mut m = Machine::new();
    m.varn = usize::MAX;
    let l = Leaf::Fun { a: vec![("x", LeafType::F)], v: vec![F(num(1.))] };
    let e = m.compile(&l).unwrap_err();
    assert!(matches!(e, CompileError::Limit));
    assert_eq!(e.message(), "no slot or label left");
    assert_eq!(m.varn, usize::MAX);

    let mut m = Machine::new();
    m.labeln = usize::MAX;
    let l = M("!", &C('a'));
    assert!(matches!(m.compile(&l), Err(CompileError::Limit)));
    assert_eq!(m.instrs, vec![Instr::Push(Obj::C('a')), Instr::Ret]);

    let mut m = Machine::new();
    m.varn = usize::MAX;
    let l = M("!", &C('a'));
    assert!(matches!(m.compile(&l), Err(CompileError::Limit)));
    assert_eq!(m.labeln, 1);
}

#[test]
fn a_failure_keeps_what_was_compiled_before_it() {
    let mut m = Machine::new();
    let l = A(vec![F(num(1.)), X("x"), F(num(2.))]);
    assert!(matches!(m.compile(&l), Err(CompileError::Undefined("x"))));
    assert_eq!(m.instrs, vec![push(1.), Instr::Ret]);
    assert_eq!(m.blocks.len(), 1);
}

#[test]
fn compiling_twice_gives_the_same_program() {
    let f = Leaf::Fun {
        a: vec![("x", LeafType::F), ("y", LeafType::F)],
        v: vec![A(vec![X("x"), X("y")])],
    };
    let arg = M("!", &D("+", &F(num(1.)), &F(num(3.))));
    let l = D(".", &f, &arg);
    let mut m1 = Machine::new();
    let mut m2 = Machine::new();
    let b1 = m1.compile(&l).unwrap();
    let b2 = m2.compile(&l).unwrap();
    assert_eq!(b1, b2);
    assert_eq!(m1.instrs, m2.instrs);
    assert_eq!(m1.blocks, m2.blocks);
    assert!(same_bodies(&m1.bodies, &m2.bodies));
    assert_eq!(m1.vars, m2.vars);
    assert_eq!((m1.varn, m1.labeln), (m2.varn, m2.labeln));
}

#[test]
fn compiling_only_appends() {
    let mut m = Machine::new();
    let first = D("+", &F(num(1.)), &F(num(2.)));
    m.compile(&first).unwrap();
    let instrs = m.instrs.clone();
    let blocks = m.blocks.clone();
    let second = M("-", &A(vec![F(num(1.))]));
    m.compile(&second).unwrap();
    assert_eq!(m.instrs[..instrs.len()], instrs[..]);
    assert_eq!(m.blocks[..blocks.len()], blocks[..]);
    assert_eq!(m.bodies[0].start, 0);
}

#[test]
fn every_compiled_body_ends_in_a_ret_and_refers_to_blocks_that_exist() {
    let f = Leaf::Fun {
        a: vec![("x", LeafType::F), ("y", LeafType::F)],
        v: vec![A(vec![X("x"), X("y")]), M("-", &X("x"))],
    };
    let arg = M("!", &D("+", &F(num(1.)), &F(num(3.))));
    let l = D(".", &f, &arg);
    let mut m = Machine::new();
    let b = m.compile(&l).unwrap();
    assert!(b < m.blocks.len());
    for blk in &m.blocks {
        assert!(blk.idx() < m.bodies.len());
    }
    for body in &m.bodies {
        assert!(body.start <= m.instrs.len());
        assert!(m.instrs[body.start..].contains(&Instr::Ret));
    }
    for i in &m.instrs {
        match i {
            Instr::Jmp(b) | Instr::JmpZ(b) | Instr::Push(Obj::Fun(b)) => assert!(*b < m.blocks.len()),
            Instr::LJmpNZ(l) | Instr::LJmpZ(l) => {
                assert_eq!(m.instrs.iter().filter(|x| **x == Instr::Label(*l)).count(), 1)
            }
            _ => {}
        }
    }
}

#[test]
fn immediate_and_lambda_wrap_instructions_in_a_block() {
    let mut m = Machine::new();
    assert_eq!(m.immediate(&[Instr::Dup, Instr::Pop]), 0);
    assert_eq!(m.lambda(&[Instr::Nop]), 1);
    assert_eq!(m.instrs, vec![Instr::Dup, Instr::Pop, Instr::Ret, Instr::Nop, Instr::Ret]);
    assert_eq!(m.blocks, vec![immediate(0), immediate(1)]);
    assert_eq!(m.bodies[1].start, 3);
}

#[test]
fn iter_body_hands_out_a_body_up_to_its_ret() {
    let mut m = Machine::new();
    m.immediate(&[Instr::Dup, Instr::Pop]);
    m.immediate(&[Instr::Nop]);
    let mut it = m.iter_body(0);
    assert_eq!(it.next(), Some(&Instr::Dup));
    assert_eq!(it.next(), Some(&Instr::Pop));
    assert_eq!(it.next(), None);
    assert_eq!(it.next(), Some(&Instr::Nop));
    assert_eq!(it.next(), None);
    assert_eq!(it.next(), None);
    assert_eq!(it.pos, 5);
    let mut it = m.iter_body(1);
    assert_eq!(it.next(), Some(&Instr::Nop));
    assert_eq!(it.next(), None);
}

#[test]
fn body_iterator_from_a_start() {
    let code = [Instr::Nop, Instr::Dup, Instr::Ret];
    let body = Body { start: 1, vars: 0, names: vec![], export: vec![] };
    let mut it = BodyIterator::from(&code, &body);
    assert_eq!(it.pos, 1);
    assert_eq!(it.next(), Some(&Instr::Dup));
    assert_eq!(it.next(), None);
    let end = Body { start: 3, vars: 0, names: vec![], export: vec![] };
    let mut it = BodyIterator::from(&code, &end);
    assert_eq!(it.next(), None);
    assert_eq!(it.pos, 3);
}

#[test]
fn exported_names_are_the_flagged_ones() {
    let body = Body {
        start: 0,
        vars: 3,
        names: vec![("a", ObjType::F), ("b", ObjType::C), ("c", ObjType::F)],
        export: vec![true, false, true],
    };
    assert_eq!(body.exported(), vec![("a", ObjType::F), ("c", ObjType::F)]);
    let none = Body { start: 0, vars: 0, names: vec![], export: vec![] };
    assert!(none.exported().is_empty());
    let all_hidden = Body { start: 0, vars: 1, names: vec![("a", ObjType::F)], export: vec![false] };
    assert!(all_hidden.exported().is_empty());
}

#[test]
fn block_index_is_its_body() {
    assert_eq!(Blk(BlkType::Fun, Time::Deferred, 17).idx(), 17);
    assert_eq!(immediate(0).idx(), 0);
}

fn show(pieces: &[Piece]) -> String {
    let mut s = String::new();
    for p in pieces {
        match p {
            Piece::Text(t) => s.push_str(t),
            Piece::Char(c) => s.push(*c),
            Piece::Num(d) => s.push_str(&f64::from_bits(d.bits).to_string()),
        }
    }
    s
}

#[test]
fn the_listing_of_a_compiler() {
    let mut m = Machine::new();
    assert_eq!(show(&m.listing()), "instrs:\nbodies:\nblocks:\nvars:\n");
    let (n, x, q) = (F(num(1.5)), X("x"), C('q'));
    let f = Leaf::Fun { a: vec![("x", LeafType::F), ("c", LeafType::C)], v: vec![D("+", &n, &x)] };
    let l = D("@", &f, &q);
    m.compile(&l).unwrap();
    m.varn = 4;
    assert_eq!(
        show(&m.listing()),
        "instrs:\n\
         \x20 0: Push(1.5)\n\
         \x20 1: Load(1)\n\
         \x20 2: AddF\n\
         \x20 3: Ret\n\
         \x20 4: Local(0)\n\
         \x20 5: Local(1)\n\
         \x20 6: Jmp(0)\n\
         \x20 7: Ret\n\
         \x20 8: Push(q)\n\
         \x20 9: Ret\n\
         \x2010: Push({&1})\n\
         \x2011: Push({&2})\n\
         \x2012: Apply0\n\
         \x2013: Apply1\n\
         \x2014: Ret\n\
         bodies:\n\
         \x20 0: start 0, vars 0\n\
         \x20   > Push(1.5)\n\
         \x20   > Load(1)\n\
         \x20   > AddF\n\
         \x20 1: start 4, vars 2\n\
         \x20   > Local(0)\n\
         \x20   > Local(1)\n\
         \x20   > Jmp(0)\n\
         \x20 2: start 8, vars 0\n\
         \x20   > Push(q)\n\
         \x20 3: start 10, vars 0\n\
         \x20   > Push({&1})\n\
         \x20   > Push({&2})\n\
         \x20   > Apply0\n\
         \x20   > Apply1\n\
         blocks:\n\
         \x20 0: Fun Immediate 0\n\
         \x20 1: Fun Deferred 1\n\
         \x20 2: Fun Immediate 2\n\
         \x20 3: Fun Immediate 3\n\
         vars:\n\
         \x20 0: c = C\n\
         \x20 1: x = F\n"
    );
}

#[test]
fn names_of_kinds_and_times() {
    assert_eq!(BlkType::Fun.name(), "Fun");
    assert_eq!(BlkType::One.name(), "One");
    assert_eq!(BlkType::Two.name(), "Two");
    assert_eq!(Time::Immediate.name(), "Immediate");
    assert_eq!(Time::Deferred.name(), "Deferred");
    let kinds = [LeafType::C, LeafType::F, LeafType::M, LeafType::D, LeafType::A, LeafType::Fun];
    let names: Vec<&str> = kinds.iter().map(|k| k.name()).collect();
    assert_eq!(names, ["C", "F", "M", "D", "A", "Fun"]);
}

#[test]
fn every_compiled_body_has_one_export_flag_for_each_name() {
    let (x, y, one) = (X("x"), X("y"), F(num(1.)));
    let inner = Leaf::Fun { a: vec![("x", LeafType::F)], v: vec![D("+", &one, &x)] };
    let two = Leaf::Fun {
        a: vec![("x", LeafType::F), ("y", LeafType::C)],
        v: vec![D("*", &x, &y), D("@", &inner, &one)],
    };
    let l = D(".", &two, &A(vec![F(num(1.)), C('c')]));
    let mut m = Machine::new();
    m.compile(&l).unwrap();
    let mut with_names = 0;
    for body in &m.bodies {
        assert_eq!(body.export.len(), body.names.len());
        assert_eq!(body.vars, body.names.len());
        assert!(body.export.iter().all(|e| !e));
        assert!(body.exported().is_empty());
        if !body.names.is_empty() {
            with_names += 1;
        }
    }
    assert_eq!(with_names, 2);
    let f = m.bodies.iter().find(|b| b.names.len() == 2).unwrap();
    assert_eq!(f.names, vec![("x", ObjType::F), ("y", ObjType::C)]);
    let mut shown = Body { start: f.start, vars: f.vars, names: f.names.clone(), export: vec![false, true] };
    assert_eq!(shown.exported(), vec![("y", ObjType::C)]);
    shown.export[0] = true;
    assert_eq!(shown.exported(), f.names);
}

#[test]
fn iota_appends_the_pushes_in_ascending_order() {
    let mut m = Machine::new();
    m.immediate(&[Instr::Nop]);
    let b = m.iota(4).unwrap();
    assert_eq!(b, 1);
    assert_eq!(m.instrs[..2], [Instr::Nop, Instr::Ret]);
    assert_eq!(m.instrs[2..], [push(0.), push(1.), push(2.), push(3.), Instr::Vec(4), Instr::Ret]);
    assert_eq!(m.blocks[1], immediate(1));
    assert_eq!((m.bodies[1].start, m.bodies[1].vars), (2, 0));
    assert!(m.bodies[1].names.is_empty() && m.bodies[1].export.is_empty());
    assert_eq!(m.iota(0).unwrap(), 2);
    assert_eq!(m.instrs[8..], [Instr::Vec(0), Instr::Ret]);
}

#[test]
fn a_clone_of_an_expression_is_the_same_expression() {
    let (one, x) = (F(num(1.)), X("x"));
    let sum = D("+", &one, &x);
    let neg = M("-", &sum);
    let f = Leaf::Fun { a: vec![("x", LeafType::F), ("c", LeafType::C)], v: vec![sum.clone(), A(vec![C('q'), neg.clone()])] };
    let l = D(".", &f, &A(vec![F(num(2.)), C('c')]));
    let copy = l.clone();
    assert_eq!(copy, l);
    for leaf in [&one, &x, &sum, &neg, &f, &C('z'), &A(vec![])] {
        assert_eq!(&leaf.clone(), leaf);
    }
    let mut m1 = Machine::new();
    let mut m2 = Machine::new();
    assert_eq!(m1.compile(&l), m2.compile(&copy));
    assert_eq!(m1.instrs, m2.instrs);
    assert_eq!(m1.blocks, m2.blocks);
    assert!(same_bodies(&m1.bodies, &m2.bodies));
    if let (Leaf::Fun { a, v }, Leaf::Fun { a: a2, v: v2 }) = (&f, f.clone()) {
        assert_eq!(a, &a2);
        assert_eq!(v, &v2);
    }
}
