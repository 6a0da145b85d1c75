//! What the instructions mean.
//!
//! The machine is a transition system. Its state is a data stack, the
//! variables, a heap of tables and a stack of frames, one for each body that
//! is running. `step` takes a program and a state to the next state and says
//! what the host has to do then: go on, work out a sum for the machine, take
//! the result, or stop on a fault. Everything here is ghost code; the
//! machine that runs is held to it, transition for transition.
use crate::bc::{Blk, BlkType, BodyView, Instr, Obj, ObjType, Time};
use crate::num::Double;
use vstd::prelude::*;

verus! {

/// A table with its two parts as sequences.
pub struct TableView {
    /// The pairs of keys and values.
    pub pairs: Seq<(Obj, Obj)>,
    /// The vector.
    pub array: Seq<Obj>,
}

/// How a frame came to be.
#[derive(Debug, Copy, Clone, PartialEq, Eq, Structural)]
pub enum Call {
    /// By the dispatch of the block with this number.
    Block(usize),
    /// By running a body directly.
    Body,
    /// By a jump to a label.
    Jump,
}

/// A body that is running: the position of its next instruction, and how it
/// was entered.
#[derive(Debug, Copy, Clone, PartialEq, Eq, Structural)]
pub struct Frame {
    pub pc: usize,
    pub call: Call,
}

/// What was looked up and not found.
#[derive(Debug, Copy, Clone, PartialEq, Eq, Structural)]
pub enum Missing {
    /// No value in this variable slot.
    Var(usize),
    /// No table under this handle.
    Table(usize),
    /// No label with this number in the code.
    Label(usize),
    /// No block with this number.
    Block(usize),
    /// No body with this number.
    Body(usize),
    /// No such position in the code, where a body was to start.
    Code(usize),
}

/// Why the machine stopped.
#[derive(Debug, Copy, Clone, PartialEq, Eq, Structural)]
pub enum Fault {
    /// An operand was of the wrong variant.
    Type { expected: ObjType, found: ObjType },
    /// An operand was wanted from a stack, or an item from a vector, that
    /// was too short.
    Underflow,
    /// A body came to its end with nothing on the stack to return.
    Return,
    /// A variable, table, label, block or body was not there.
    Lookup(Missing),
    /// The deferred block with this number was dispatched on a stack that
    /// held some of its arguments, not all.
    Arity(usize),
    /// The block with this number is of a kind that is not in use.
    Reserved(usize),
    /// `Ret` was given as an instruction to execute.
    Invalid,
    /// No handle is left for another table.
    Full,
    /// There was nothing to run.
    Idle,
}

/// The arithmetic that the machine leaves to its host.
#[derive(Debug, Copy, Clone, PartialEq, Eq, Structural)]
pub enum Arith {
    Add,
    Sub,
    Mul,
    Div,
}

/// What the host has to do after a transition.
#[derive(Debug, Copy, Clone, PartialEq, Eq, Structural)]
pub enum Action {
    /// Nothing: the machine is ready for its next step.
    Next,
    /// Work out the first number, the operation, the second number, and
    /// hand the result to `resume`.
    Compute(Arith, Double, Double),
    /// The outermost body has returned this value.
    Done(Obj),
    /// The machine cannot go on.
    Fail(Fault),
}

/// The state of a machine.
pub struct State {
    /// The data stack; its top is the last item.
    pub stack: Seq<Obj>,
    /// The variables by slot.
    pub vars: Map<usize, Obj>,
    /// The slots that hold a value, in the order in which they were first bound.
    pub slots: Seq<usize>,
    /// The handle of the next table.
    pub next: usize,
    /// The tables by handle.
    pub tables: Map<usize, TableView>,
    /// The frames; the running one is the last.
    pub frames: Seq<Frame>,
}

/// A program: the instruction buffer, the blocks, and the bodies.
pub struct Program<'a> {
    pub code: Seq<Instr>,
    pub blocks: Seq<Blk>,
    pub bodies: Seq<BodyView<'a>>,
}

impl State {
    /// The state of a machine that has not run yet.
    pub open spec fn fresh() -> State {
        State {
            stack: Seq::empty(),
            vars: Map::empty(),
            slots: Seq::empty(),
            next: 0,
            tables: Map::empty(),
            frames: Seq::empty(),
        }
    }

    /// This state with another stack.
    pub open spec fn with_stack(self, stack: Seq<Obj>) -> State {
        State { stack, ..self }
    }

    /// This state with another stack of frames.
    pub open spec fn with_frames(self, frames: Seq<Frame>) -> State {
        State { frames, ..self }
    }

    /// This state with `v` pushed.
    pub open spec fn push(self, v: Obj) -> State {
        self.with_stack(self.stack.push(v))
    }

    /// This state without the `n` topmost values.
    pub open spec fn drop(self, n: int) -> State
        recommends
            0 <= n <= self.stack.len(),
    {
        self.with_stack(self.stack.take(self.stack.len() - n))
    }

    /// The value `depth` places under the top.
    pub open spec fn peek(self, depth: int) -> Obj
        recommends
            0 <= depth < self.stack.len(),
    {
        self.stack[self.stack.len() - 1 - depth]
    }

    /// This state with `v` in the variable slot `x`.
    pub open spec fn bind(self, x: usize, v: Obj) -> State {
        State {
            vars: self.vars.insert(x, v),
            slots: if self.vars.contains_key(x) {
                self.slots
            } else {
                self.slots.push(x)
            },
            ..self
        }
    }

    /// This state with the table `t` under the handle `h`.
    pub open spec fn put_table(self, h: usize, t: TableView) -> State {
        State { tables: self.tables.insert(h, t), ..self }
    }

    /// This state with `t` as a new table, its handle pushed.
    pub open spec fn adopt(self, t: TableView) -> State
        recommends
            self.next < usize::MAX,
    {
        State {
            tables: self.tables.insert(self.next, t),
            next: (self.next + 1) as usize,
            ..self
        }.push(Obj::T(self.next))
    }
}

/// The operation of an arithmetic instruction that the host works out.
pub open spec fn operation(i: Instr) -> Option<Arith> {
    match i {
        Instr::AddF => Some(Arith::Add),
        Instr::SubF => Some(Arith::Sub),
        Instr::MulF => Some(Arith::Mul),
        Instr::DivF => Some(Arith::Div),
        _ => None,
    }
}

/// The number `depth` places under the top of the stack, or why there is
/// none.
pub open spec fn num_at(s: State, depth: int) -> Result<Double, Fault> {
    if s.stack.len() <= depth {
        Err(Fault::Underflow)
    } else {
        match s.peek(depth) {
            Obj::F(d) => Ok(d),
            o => Err(Fault::Type { expected: ObjType::F, found: o.variant() }),
        }
    }
}

/// The function `depth` places under the top of the stack, or why there is
/// none.
pub open spec fn fun_at(s: State, depth: int) -> Result<usize, Fault> {
    if s.stack.len() <= depth {
        Err(Fault::Underflow)
    } else {
        match s.peek(depth) {
            Obj::Fun(b) => Ok(b),
            o => Err(Fault::Type { expected: ObjType::Fun, found: o.variant() }),
        }
    }
}

/// The handle of the live table that the variable `v` holds, or why there is
/// none.
pub open spec fn table_of(s: State, v: usize) -> Result<usize, Fault> {
    if !s.vars.contains_key(v) {
        Err(Fault::Lookup(Missing::Var(v)))
    } else {
        match s.vars[v] {
            Obj::T(h) => if s.tables.contains_key(h) {
                Ok(h)
            } else {
                Err(Fault::Lookup(Missing::Table(h)))
            },
            o => Err(Fault::Type { expected: ObjType::T, found: o.variant() }),
        }
    }
}

/// The first position at or after `from` that holds `Label(l)`.
pub open spec fn label_from(code: Seq<Instr>, l: usize, from: int) -> Option<usize>
    decreases code.len() - from,
{
    if from < 0 || from >= code.len() {
        None
    } else if code[from] == Instr::Label(l) {
        Some(from as usize)
    } else {
        label_from(code, l, from + 1)
    }
}

/// A label that is found is in the code, at the position given, and no
/// earlier position from `from` on holds it.
pub proof fn label_found(code: Seq<Instr>, l: usize, from: int)
    requires
        0 <= from,
        code.len() <= usize::MAX,
    ensures
        match label_from(code, l, from) {
            Some(i) => from <= i < code.len() && code[i as int] == Instr::Label(l) && forall|j: int|
                from <= j < i ==> code[j] != Instr::Label(l),
            None => forall|j: int| from <= j < code.len() ==> code[j] != Instr::Label(l),
        },
    decreases code.len() - from,
{
    if from < code.len() && code[from] != Instr::Label(l) {
        label_found(code, l, from + 1);
    }
}

/// A value for whoever started the body that returned it: pushed for the
/// frame below, or handed to the host where there is none.
pub open spec fn hand_over(s: State, v: Obj) -> (State, Action) {
    if s.frames.len() == 0 {
        (s, Action::Done(v))
    } else {
        (s.push(v), Action::Next)
    }
}

/// Begins the body with the number `body`.
pub open spec fn enter(p: Program, s: State, body: usize, call: Call) -> (State, Action) {
    if body >= p.bodies.len() {
        (s, Action::Fail(Fault::Lookup(Missing::Body(body))))
    } else if p.bodies[body as int].start > p.code.len() {
        (s, Action::Fail(Fault::Lookup(Missing::Code(p.bodies[body as int].start))))
    } else {
        (
            s.with_frames(s.frames.push(Frame { pc: p.bodies[body as int].start, call })),
            Action::Next,
        )
    }
}

/// Dispatches the block `b`. An immediate block begins at once. A deferred
/// block is its own value on an empty stack, begins where the stack holds at
/// least as many values as it has parameters, and is a fault otherwise.
pub open spec fn dispatch(p: Program, s: State, b: usize) -> (State, Action) {
    if b >= p.blocks.len() {
        (s, Action::Fail(Fault::Lookup(Missing::Block(b))))
    } else {
        let blk = p.blocks[b as int];
        if blk.0 != BlkType::Fun {
            (s, Action::Fail(Fault::Reserved(b)))
        } else if blk.1 == Time::Immediate {
            enter(p, s, blk.2, Call::Block(b))
        } else if s.stack.len() == 0 {
            hand_over(s, Obj::Fun(b))
        } else if blk.2 >= p.bodies.len() {
            (s, Action::Fail(Fault::Lookup(Missing::Body(blk.2))))
        } else if p.bodies[blk.2 as int].vars <= s.stack.len() {
            enter(p, s, blk.2, Call::Block(b))
        } else {
            (s, Action::Fail(Fault::Arity(b)))
        }
    }
}

/// Ends the running frame. After a jump the frame below goes on where it
/// was. A body hands over the top of the stack, and is at fault where the
/// stack is empty.
pub open spec fn leave(s: State) -> (State, Action)
    recommends
        s.frames.len() > 0,
{
    let below = s.with_frames(s.frames.drop_last());
    if s.frames.last().call == Call::Jump {
        (below, Action::Next)
    } else if s.stack.len() == 0 {
        (s, Action::Fail(Fault::Return))
    } else {
        hand_over(below.drop(1), s.peek(0))
    }
}

/// Pops two numbers and asks the host for `x op y`, where `y` was on top.
pub open spec fn arith(s: State, op: Arith) -> (State, Action) {
    match num_at(s, 0) {
        Err(f) => (s, Action::Fail(f)),
        Ok(y) => match num_at(s, 1) {
            Err(f) => (s, Action::Fail(f)),
            Ok(x) => (s.drop(2), Action::Compute(op, x, y)),
        },
    }
}

/// Pops a number and, where it is zero or not as `on_zero` says, dispatches
/// the block `b`.
pub open spec fn branch(p: Program, s: State, b: usize, on_zero: bool) -> (State, Action) {
    match num_at(s, 0) {
        Err(f) => (s, Action::Fail(f)),
        Ok(x) => if x.zero() == on_zero {
            match dispatch(p, s.drop(1), b) {
                (_, Action::Fail(f)) => (s, Action::Fail(f)),
                r => r,
            }
        } else {
            (s.drop(1), Action::Next)
        },
    }
}

/// Pops a number and, where it is zero or not as `on_zero` says, goes on
/// behind the label `l` in a frame of its own.
pub open spec fn jump(p: Program, s: State, l: usize, on_zero: bool) -> (State, Action) {
    match num_at(s, 0) {
        Err(f) => (s, Action::Fail(f)),
        Ok(x) => if x.zero() == on_zero {
            match label_from(p.code, l, 0) {
                None => (s, Action::Fail(Fault::Lookup(Missing::Label(l)))),
                Some(i) => (
                    s.drop(1).with_frames(
                        s.frames.push(Frame { pc: (i + 1) as usize, call: Call::Jump }),
                    ),
                    Action::Next,
                ),
            }
        } else {
            (s.drop(1), Action::Next)
        },
    }
}

/// Pops a function and dispatches its block with `keep` values left on the
/// stack above it put back.
pub open spec fn apply(p: Program, s: State, keep: int) -> (State, Action) {
    match fun_at(s, keep) {
        Err(f) => (s, Action::Fail(f)),
        Ok(b) => {
            let args = s.stack.subrange(s.stack.len() - keep, s.stack.len() as int);
            match dispatch(p, s.drop(keep + 1).with_stack(s.drop(keep + 1).stack + args), b) {
                (_, Action::Fail(f)) => (s, Action::Fail(f)),
                r => r,
            }
        },
    }
}

/// The pairs that `Table(n)` makes of the `2n` topmost values: the topmost
/// is the first key, the one under it the first value, and so on downwards.
pub open spec fn pairs_of(stack: Seq<Obj>, n: int) -> Seq<(Obj, Obj)>
    recommends
        0 <= 2 * n <= stack.len(),
{
    Seq::new(
        n as nat,
        |j: int| (stack[stack.len() - 1 - 2 * j], stack[stack.len() - 2 - 2 * j]),
    )
}

/// Makes a table of the `2n` topmost values and pushes its handle.
pub open spec fn make_table(s: State, n: usize) -> (State, Action) {
    if 2 * n > s.stack.len() {
        (s, Action::Fail(Fault::Underflow))
    } else if s.next == usize::MAX {
        (s, Action::Fail(Fault::Full))
    } else {
        (
            s.drop(2 * n).adopt(
                TableView { pairs: pairs_of(s.stack, n as int), array: Seq::empty() },
            ),
            Action::Next,
        )
    }
}

/// Makes a vector of the `n` topmost values, the lowest first, and pushes
/// its handle.
pub open spec fn make_vec(s: State, n: int) -> (State, Action) {
    if n > s.stack.len() {
        (s, Action::Fail(Fault::Underflow))
    } else if s.next == usize::MAX {
        (s, Action::Fail(Fault::Full))
    } else {
        (
            s.drop(n).adopt(
                TableView {
                    pairs: Seq::empty(),
                    array: s.stack.subrange(s.stack.len() - n, s.stack.len() as int),
                },
            ),
            Action::Next,
        )
    }
}

/// Pops a value and appends it to the vector that the variable `v` holds.
pub open spec fn vec_push(s: State, v: usize) -> (State, Action) {
    if s.stack.len() == 0 {
        (s, Action::Fail(Fault::Underflow))
    } else {
        match table_of(s, v) {
            Err(f) => (s, Action::Fail(f)),
            Ok(h) => (
                s.drop(1).put_table(
                    h,
                    TableView { array: s.tables[h].array.push(s.peek(0)), ..s.tables[h] },
                ),
                Action::Next,
            ),
        }
    }
}

/// Pushes the last item of the vector that the variable `v` holds.
pub open spec fn vec_last(s: State, v: usize) -> (State, Action) {
    match table_of(s, v) {
        Err(f) => (s, Action::Fail(f)),
        Ok(h) => if s.tables[h].array.len() == 0 {
            (s, Action::Fail(Fault::Underflow))
        } else {
            (s.push(s.tables[h].array.last()), Action::Next)
        },
    }
}

/// Drops the last item, if there is one, of the vector that the variable `v`
/// holds.
pub open spec fn vec_pop(s: State, v: usize) -> (State, Action) {
    match table_of(s, v) {
        Err(f) => (s, Action::Fail(f)),
        Ok(h) => if s.tables[h].array.len() == 0 {
            (s, Action::Next)
        } else {
            (
                s.put_table(
                    h,
                    TableView { array: s.tables[h].array.drop_last(), ..s.tables[h] },
                ),
                Action::Next,
            )
        },
    }
}

/// Pops the handle of a vector, pushes its items with the first one lowest,
/// and frees the table.
pub open spec fn pop_vec(s: State) -> (State, Action) {
    if s.stack.len() == 0 {
        (s, Action::Fail(Fault::Underflow))
    } else {
        match s.peek(0) {
            Obj::T(h) => if s.tables.contains_key(h) {
                (
                    State {
                        stack: s.drop(1).stack + s.tables[h].array,
                        tables: s.tables.remove(h),
                        ..s
                    },
                    Action::Next,
                )
            } else {
                (s, Action::Fail(Fault::Lookup(Missing::Table(h))))
            },
            o => (s, Action::Fail(Fault::Type { expected: ObjType::T, found: o.variant() })),
        }
    }
}

/// The effect of one instruction on a state. A fault leaves the state as it
/// was. The definition is opaque, to keep it out of proofs that do not look
/// into instructions: `reveal(exe)` brings it in.
#[verifier::opaque]
pub open spec fn exe(p: Program, s: State, i: Instr) -> (State, Action) {
    match i {
        Instr::Push(v) => (s.push(v), Action::Next),
        Instr::Pop => if s.stack.len() == 0 {
            (s, Action::Next)
        } else {
            (s.drop(1), Action::Next)
        },
        Instr::Local(x) => if s.stack.len() == 0 {
            (s, Action::Fail(Fault::Underflow))
        } else {
            (s.drop(1).bind(x, s.peek(0)), Action::Next)
        },
        Instr::Load(x) => if s.vars.contains_key(x) {
            (s.push(s.vars[x]), Action::Next)
        } else {
            (s, Action::Fail(Fault::Lookup(Missing::Var(x))))
        },
        Instr::Label(_) => (s, Action::Next),
        Instr::AddF => arith(s, Arith::Add),
        Instr::SubF => arith(s, Arith::Sub),
        Instr::MulF => arith(s, Arith::Mul),
        Instr::DivF => arith(s, Arith::Div),
        Instr::NegF => match num_at(s, 0) {
            Err(f) => (s, Action::Fail(f)),
            Ok(x) => (s.drop(1).push(Obj::F(x.negated())), Action::Next),
        },
        Instr::CmpF => match num_at(s, 0) {
            Err(f) => (s, Action::Fail(f)),
            Ok(y) => match num_at(s, 1) {
                Err(f) => (s, Action::Fail(f)),
                Ok(x) => (s.drop(2).push(Obj::F(x.ordering(y))), Action::Next),
            },
        },
        Instr::Table(n) => make_table(s, n),
        Instr::Vec(n) => make_vec(s, n as int),
        Instr::VecFull => make_vec(s, s.stack.len() as int),
        Instr::VecPush(v) => vec_push(s, v),
        Instr::VecLast(v) => vec_last(s, v),
        Instr::VecPop(v) => vec_pop(s, v),
        Instr::Apply0 => apply(p, s, 0),
        Instr::Apply1 => apply(p, s, 1),
        Instr::ApplyN => apply(p, s, 0),
        Instr::Dup => if s.stack.len() == 0 {
            (s, Action::Fail(Fault::Underflow))
        } else {
            (s.push(s.peek(0)), Action::Next)
        },
        Instr::Swap2 => if s.stack.len() < 2 {
            (s, Action::Fail(Fault::Underflow))
        } else {
            (s.drop(2).push(s.peek(0)).push(s.peek(1)), Action::Next)
        },
        Instr::PopVec => pop_vec(s),
        Instr::Ret => (s, Action::Fail(Fault::Invalid)),
        Instr::Break => (s, Action::Next),
        Instr::Nop => (s, Action::Next),
        Instr::Jmp(b) => dispatch(p, s, b),
        Instr::JmpZ(b) => branch(p, s, b, true),
        Instr::LJmpZ(l) => jump(p, s, l, true),
        Instr::LJmpNZ(l) => jump(p, s, l, false),
    }
}

/// One transition: the running frame executes the instruction at its
/// position and moves past it, or ends where that is `Ret` or the end of the
/// code. A fault leaves the state as it was, the position on the instruction
/// at fault.
pub open spec fn step(p: Program, s: State) -> (State, Action) {
    if s.frames.len() == 0 {
        (s, Action::Fail(Fault::Idle))
    } else {
        let top = s.frames.last();
        if top.pc >= p.code.len() || p.code[top.pc as int] == Instr::Ret {
            leave(s)
        } else {
            let moved = s.with_frames(
                s.frames.update(
                    s.frames.len() - 1,
                    Frame { pc: (top.pc + 1) as usize, call: top.call },
                ),
            );
            match exe(p, moved, p.code[top.pc as int]) {
                (_, Action::Fail(f)) => (s, Action::Fail(f)),
                r => r,
            }
        }
    }
}

/// The machine takes the host's result of an operation: the number is pushed.
pub open spec fn resume(s: State, r: Double) -> State {
    s.push(Obj::F(r))
}

/// Up to `fuel` transitions, as long as none asks anything of the host.
pub open spec fn run(p: Program, s: State, fuel: nat) -> (State, Action)
    decreases fuel,
{
    if fuel == 0 {
        (s, Action::Next)
    } else {
        match step(p, s) {
            (t, Action::Next) => run(p, t, (fuel - 1) as nat),
            r => r,
        }
    }
}

/// A fresh machine dispatches the block `b` and makes up to `fuel`
/// transitions, as long as none asks anything of the host.
pub open spec fn boot(p: Program, b: usize, fuel: nat) -> (State, Action) {
    match dispatch(p, State::fresh(), b) {
        (s, Action::Next) => run(p, s, fuel),
        r => r,
    }
}

/// Every table is under a handle that was given out already.
pub open spec fn handles_given(s: State) -> bool {
    forall|h: usize| s.tables.contains_key(h) ==> h < s.next
}

/// `t` has the tables of `s`, but for at most one that is new under the
/// next handle of `s`, one that is changed, or one that is gone.
spec fn heap_step(s: State, t: State) -> bool {
    &&& t.next >= s.next
    &&& forall|h: usize|
        t.tables.contains_key(h) ==> s.tables.contains_key(h) || (h == s.next && t.next > s.next)
}

proof fn dispatch_keeps_heap(p: Program, s: State, b: usize)
    ensures
        heap_step(s, dispatch(p, s, b).0),
{
}

proof fn exe_keeps_heap(p: Program, s: State, i: Instr)
    ensures
        heap_step(s, exe(p, s, i).0),
{
    reveal(exe);
    let keep: int = if i == Instr::Apply1 {
        1
    } else {
        0
    };
    match i {
        Instr::Apply0 | Instr::Apply1 | Instr::ApplyN => {
            if fun_at(s, keep) is Ok {
                let args = s.stack.subrange(s.stack.len() - keep, s.stack.len() as int);
                let rest = s.drop(keep + 1);
                dispatch_keeps_heap(p, rest.with_stack(rest.stack + args), fun_at(s, keep)->Ok_0);
            }
        },
        Instr::Jmp(b) => {
            dispatch_keeps_heap(p, s, b);
        },
        Instr::JmpZ(b) => {
            dispatch_keeps_heap(p, s.drop(1), b);
        },
        _ => {},
    }
}

/// Handles are given out in order and never twice: no transition lowers the
/// next handle, and as long as every table is under a handle that was given
/// out, it stays so.
pub proof fn handles_stay_given(p: Program, s: State)
    requires
        handles_given(s),
    ensures
        handles_given(State::fresh()),
        handles_given(step(p, s).0),
        step(p, s).0.next >= s.next,
        forall|b: usize| handles_given(#[trigger] dispatch(p, s, b).0),
        forall|r: Double| handles_given(#[trigger] resume(s, r)),
{
    assert forall|b: usize| handles_given(#[trigger] dispatch(p, s, b).0) by {
        dispatch_keeps_heap(p, s, b);
    }
    if s.frames.len() > 0 {
        let top = s.frames.last();
        if !(top.pc >= p.code.len() || p.code[top.pc as int] == Instr::Ret) {
            let moved = s.with_frames(
                s.frames.update(
                    s.frames.len() - 1,
                    Frame { pc: (top.pc + 1) as usize, call: top.call },
                ),
            );
            exe_keeps_heap(p, moved, p.code[top.pc as int]);
        }
    }
}

/// Variables live on: a slot that holds a value holds one after every
/// transition.
pub proof fn variables_live_on(p: Program, s: State, slot: usize)
    requires
        s.vars.contains_key(slot),
    ensures
        step(p, s).0.vars.contains_key(slot),
{
    reveal(exe);
}

/// Only `PopVec` frees a table: after any other instruction every table is
/// still there.
pub proof fn only_pop_vec_frees(p: Program, s: State, i: Instr, h: usize)
    requires
        s.tables.contains_key(h),
        i != Instr::PopVec,
    ensures
        exe(p, s, i).0.tables.contains_key(h),
{
    reveal(exe);
}

/// An instruction at fault changes nothing.
pub proof fn fault_keeps_state(p: Program, s: State, i: Instr)
    ensures
        exe(p, s, i).1 is Fail ==> exe(p, s, i).0 == s,
        step(p, s).1 is Fail ==> step(p, s).0 == s,
{
    reveal(exe);
}

} // verus!
