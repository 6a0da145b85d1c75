//! What the compiler produces.
//!
//! Compilation is a function from the state of a compiler and an expression
//! to the state afterwards and the number of the block to execute, or the
//! reason why there is none. `lower` is that function, rule by rule. The
//! compiler that runs is held to it, so what it appends to the instruction
//! buffer, the bodies and the blocks is fixed by the expression and by the
//! state it started from.
use crate::bc::{Blk, BlkType, BodyView, Instr, Obj, ObjType, Time};
use crate::lisp::{CompileError, Leaf, LeafType};
use crate::num::{Double, ONE};
use crate::sem::Program;
use vstd::prelude::*;

verus! {

/// The state of a compiler.
pub struct Draft<'a> {
    /// The name and kind of each named variable, by slot.
    pub vars: Map<usize, (&'static str, LeafType)>,
    /// The next variable slot.
    pub varn: usize,
    /// The next label.
    pub labeln: usize,
    /// The instruction buffer.
    pub instrs: Seq<Instr>,
    /// The blocks.
    pub blocks: Seq<Blk>,
    /// The bodies.
    pub bodies: Seq<BodyView<'a>>,
}

/// The value kind of a parameter's kind: characters and numbers have one.
pub open spec fn kind_of(t: LeafType) -> Option<ObjType> {
    match t {
        LeafType::C => Some(ObjType::C),
        LeafType::F => Some(ObjType::F),
        _ => None,
    }
}

/// The instruction of an arithmetic operator: `+`, `-`, `*`, and `%` for
/// division.
pub open spec fn arith_of(op: Seq<char>) -> Option<Instr> {
    if op == "+"@ {
        Some(Instr::AddF)
    } else if op == "-"@ {
        Some(Instr::SubF)
    } else if op == "*"@ {
        Some(Instr::MulF)
    } else if op == "%"@ {
        Some(Instr::DivF)
    } else {
        None
    }
}

/// A literal number or a variable: what arithmetic takes without a block of
/// its own.
pub open spec fn is_operand(l: Leaf) -> bool {
    l is F || l is X
}

/// The parameters as a body lists them: each name with its value kind.
pub open spec fn names_of<'a>(params: Seq<(&'static str, LeafType)>) -> Seq<(&'a str, ObjType)> {
    Seq::new(
        params.len(),
        |i: int|
            {
                let name: &'a str = params[i].0;
                (name, kind_of(params[i].1).unwrap())
            },
    )
}

/// The counting loop that builds the vector `0, 1, .., n - 1` at run time,
/// where the block `x` gives `n`, `l` is a fresh label and `r` a fresh slot.
/// The count less one stays on the stack. The vector starts as `[0]` in `r`;
/// each turn appends the last item plus one and goes round again as long as
/// that differs from the count less one.
pub open spec fn counting(x: usize, l: usize, r: usize) -> Seq<Instr> {
    seq![
        Instr::Jmp(x),
        Instr::Push(Obj::F(Double { bits: ONE })),
        Instr::SubF,
        Instr::Push(Obj::F(Double { bits: 0 })),
        Instr::Vec(1),
        Instr::Local(r),
        Instr::Label(l),
        Instr::Dup,
        Instr::VecLast(r),
        Instr::Push(Obj::F(Double { bits: ONE })),
        Instr::AddF,
        Instr::Dup,
        Instr::VecPush(r),
        Instr::CmpF,
        Instr::LJmpNZ(l),
        Instr::Load(r),
    ]
}

/// The pushes of the numbers `0, 1, .., n - 1`, and the vector of them.
pub open spec fn counted(n: usize) -> Seq<Instr> {
    Seq::new(n as nat, |i: int| Instr::Push(Obj::F(Double::of_index(i as usize)))).push(
        Instr::Vec(n),
    )
}

/// The export flags of `n` names that are all hidden.
pub open spec fn hidden(n: nat) -> Seq<bool> {
    Seq::new(n, |i: int| false)
}

/// One `Jmp` for each block, in order.
pub open spec fn jumps(ids: Seq<usize>) -> Seq<Instr> {
    Seq::new(ids.len(), |i: int| Instr::Jmp(ids[i]))
}

impl<'a> Draft<'a> {
    /// The state of a compiler that has compiled nothing.
    pub open spec fn fresh() -> Draft<'a> {
        Draft {
            vars: Map::empty(),
            varn: 0,
            labeln: 0,
            instrs: Seq::empty(),
            blocks: Seq::empty(),
            bodies: Seq::empty(),
        }
    }

    /// What has been compiled, as a program for the machine.
    pub open spec fn program(self) -> Program<'a> {
        Program { code: self.instrs, blocks: self.blocks, bodies: self.bodies }
    }

    /// The highest slot under `bound` that is registered under `name`.
    pub open spec fn slot_below(self, name: Seq<char>, bound: nat) -> Option<usize>
        decreases bound,
    {
        if bound == 0 {
            None
        } else {
            let i = (bound - 1) as usize;
            if self.vars.contains_key(i) && self.vars[i].0@ == name {
                Some(i)
            } else {
                self.slot_below(name, (bound - 1) as nat)
            }
        }
    }

    /// The slot most recently registered under `name`.
    pub open spec fn lookup(self, name: Seq<char>) -> Option<usize> {
        self.slot_below(name, self.varn as nat)
    }

    /// This state with `ops` appended as a body of its own, and a block for
    /// it. The block's number is the number of blocks before. The body has
    /// one export flag for each name, and none of them is set: a name is
    /// hidden until it is exported.
    pub open spec fn block(
        self,
        ops: Seq<Instr>,
        time: Time,
        vars: usize,
        names: Seq<(&'a str, ObjType)>,
    ) -> Draft<'a> {
        Draft {
            instrs: self.instrs + ops,
            bodies: self.bodies.push(
                BodyView {
                    start: self.instrs.len() as usize,
                    vars,
                    names,
                    export: hidden(names.len()),
                },
            ),
            blocks: self.blocks.push(Blk(BlkType::Fun, time, self.bodies.len() as usize)),
            ..self
        }
    }

    /// This state with `ops` and a `Ret` appended as a body without
    /// parameters, and an immediate block for it.
    pub open spec fn immediate(self, ops: Seq<Instr>) -> Draft<'a> {
        self.block(ops.push(Instr::Ret), Time::Immediate, 0, Seq::empty())
    }

    /// The result of compiling to a new immediate block of `ops`.
    pub open spec fn done(self, ops: Seq<Instr>) -> (Draft<'a>, Result<usize, CompileError>) {
        (self.immediate(ops), Ok(self.blocks.len() as usize))
    }

    /// This state with the next slot registered under the name `n`.
    pub open spec fn add_var(self, n: &'static str, t: LeafType) -> Draft<'a> {
        Draft { vars: self.vars.insert(self.varn, (n, t)), varn: (self.varn + 1) as usize, ..self }
    }

    /// This state with the next slot taken without a name.
    pub open spec fn mk_var(self) -> Draft<'a> {
        Draft { varn: (self.varn + 1) as usize, ..self }
    }

    /// This state with the next label taken.
    pub open spec fn mk_label(self) -> Draft<'a> {
        Draft { labeln: (self.labeln + 1) as usize, ..self }
    }

    /// The instruction that fetches an operand: a push for a literal number,
    /// a load for a variable that is defined.
    pub open spec fn operand(self, l: Leaf) -> Result<Instr, CompileError>
        recommends
            is_operand(l),
    {
        match l {
            Leaf::F(v) => Ok(Instr::Push(Obj::F(v))),
            Leaf::X(x) => match self.lookup(x@) {
                Some(i) => Ok(Instr::Load(i)),
                None => Err(CompileError::Undefined(x)),
            },
            _ => Err(CompileError::Unsupported),
        }
    }

    /// Registers the first `upto` parameters, the last of them first, and
    /// appends to `acc` one `Local` for each. It stops at the first
    /// parameter for which no slot is left.
    pub open spec fn declare(
        self,
        params: Seq<(&'static str, LeafType)>,
        upto: nat,
        acc: Seq<Instr>,
    ) -> (Draft<'a>, Result<Seq<Instr>, CompileError>)
        decreases upto,
    {
        if upto == 0 {
            (self, Ok(acc))
        } else if self.varn == usize::MAX {
            (self, Err(CompileError::Limit))
        } else {
            let p = params[upto - 1];
            self.add_var(p.0, p.1).declare(
                params,
                (upto - 1) as nat,
                acc.push(Instr::Local(self.varn)),
            )
        }
    }
}

/// Every parameter is of a kind that values have.
pub open spec fn kinds_known(params: Seq<(&'static str, LeafType)>) -> bool {
    forall|i: int| 0 <= i < params.len() ==> kind_of(#[trigger] params[i].1) is Some
}

/// Compiles `l` from the state `d`: the state afterwards, and the number of
/// the block to execute or the reason why `l` cannot be compiled. After a
/// failure the state holds what was compiled up to it.
pub open spec fn lower<'a>(d: Draft<'a>, l: Leaf<'a>) -> (Draft<'a>, Result<usize, CompileError>)
    decreases l,
{
    match l {
        Leaf::X(_) => match d.operand(l) {
            Ok(i) => d.done(seq![i]),
            Err(e) => (d, Err(e)),
        },
        Leaf::F(v) => d.done(seq![Instr::Push(Obj::F(v))]),
        Leaf::C(c) => d.done(seq![Instr::Push(Obj::C(c))]),
        Leaf::A(xs) => match lower_all(d, xs@, 0, Seq::empty()) {
            (d1, Ok(ids)) => d1.done(jumps(ids).push(Instr::Vec(ids.len() as usize))),
            (d1, Err(e)) => (d1, Err(e)),
        },
        Leaf::D(op, x, y) => if arith_of(op@) is Some && is_operand(*x) && is_operand(*y) {
            match d.operand(*x) {
                Err(e) => (d, Err(e)),
                Ok(ix) => match d.operand(*y) {
                    Err(e) => (d, Err(e)),
                    Ok(iy) => d.done(seq![ix, iy, arith_of(op@).unwrap()]),
                },
            }
        } else if op@ == "@"@ && *x is Fun {
            match lower(d, *x) {
                (d1, Err(e)) => (d1, Err(e)),
                (d1, Ok(f)) => match lower(d1, *y) {
                    (d2, Err(e)) => (d2, Err(e)),
                    (d2, Ok(g)) => d2.done(
                        seq![
                            Instr::Push(Obj::Fun(f)),
                            Instr::Push(Obj::Fun(g)),
                            Instr::Apply0,
                            Instr::Apply1,
                        ],
                    ),
                },
            }
        } else if op@ == "."@ && *x is Fun && *y is A {
            match lower(d, *x) {
                (d1, Err(e)) => (d1, Err(e)),
                (d1, Ok(f)) => match lower_all(d1, y->A_0@, 0, Seq::empty()) {
                    (d2, Err(e)) => (d2, Err(e)),
                    (d2, Ok(ids)) => d2.done(
                        jumps(ids).push(Instr::Push(Obj::Fun(f))).push(Instr::ApplyN),
                    ),
                },
            }
        } else if op@ == "."@ && *x is Fun && (*y is M || *y is D) {
            match lower(d, *y) {
                (d1, Err(e)) => (d1, Err(e)),
                (d1, Ok(m)) => match lower(d1, *x) {
                    (d2, Err(e)) => (d2, Err(e)),
                    (d2, Ok(f)) => d2.done(
                        seq![
                            Instr::Jmp(m),
                            Instr::PopVec,
                            Instr::Push(Obj::Fun(f)),
                            Instr::ApplyN,
                        ],
                    ),
                },
            }
        } else {
            (d, Err(CompileError::Unsupported))
        },
        Leaf::M(op, x) => if op@ == "-"@ {
            match *x {
                Leaf::F(v) => d.done(seq![Instr::Push(Obj::F(v.negated()))]),
                _ => match lower(d, *x) {
                    (d1, Err(e)) => (d1, Err(e)),
                    (d1, Ok(b)) => d1.done(seq![Instr::Jmp(b), Instr::NegF]),
                },
            }
        } else if op@ == "!"@ {
            match *x {
                Leaf::F(v) => d.done(counted(v.index())),
                _ => match lower(d, *x) {
                    (d1, Err(e)) => (d1, Err(e)),
                    (d1, Ok(b)) => if d1.labeln == usize::MAX {
                        (d1, Err(CompileError::Limit))
                    } else if d1.varn == usize::MAX {
                        (d1.mk_label(), Err(CompileError::Limit))
                    } else {
                        d1.mk_label().mk_var().done(counting(b, d1.labeln, d1.varn))
                    },
                },
            }
        } else {
            (d, Err(CompileError::Unsupported))
        },
        Leaf::Fun { a, v } => if !kinds_known(a@) {
            (d, Err(CompileError::Unsupported))
        } else {
            match d.declare(a@, a@.len(), Seq::empty()) {
                (d1, Err(e)) => (d1, Err(e)),
                (d1, Ok(prelude)) => if v@.len() == 0 {
                    (d1, Err(CompileError::Empty))
                } else {
                    match lower_all(d1, v@, 0, Seq::empty()) {
                        (d2, Err(e)) => (d2, Err(e)),
                        (d2, Ok(ids)) => (
                            d2.block(
                                prelude.push(Instr::Jmp(ids[0])).push(Instr::Ret),
                                Time::Deferred,
                                a@.len() as usize,
                                names_of(a@),
                            ),
                            Ok(d2.blocks.len() as usize),
                        ),
                    }
                },
            }
        },
    }
}

/// Compiles the items of `xs` from the position `i` on, in order, and
/// appends the numbers of their blocks to `acc`. It stops at the first item
/// that cannot be compiled.
pub open spec fn lower_all<'a>(d: Draft<'a>, xs: Seq<Leaf<'a>>, i: int, acc: Seq<usize>) -> (
    Draft<'a>,
    Result<Seq<usize>, CompileError>,
)
    decreases xs, xs.len() - i,
{
    if 0 <= i < xs.len() {
        match lower(d, xs[i]) {
            (d1, Err(e)) => (d1, Err(e)),
            (d1, Ok(b)) => lower_all(d1, xs, i + 1, acc.push(b)),
        }
    } else {
        (d, Ok(acc))
    }
}

} // verus!
