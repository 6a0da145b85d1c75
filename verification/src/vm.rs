//! The stack machine.
//!
//! A `VM` runs a program one transition at a time and never computes with
//! numbers itself: where an instruction needs a sum, a difference, a product
//! or a quotient, the machine hands the operands to its host and takes the
//! result back through `resume`. Each transition is exactly the one that
//! `sem::step` describes.
use crate::bc::{body_views, Blk, BlkType, Body, Instr, Obj, ObjType, Time};
use crate::num::Double;
use crate::sem;
use crate::sem::{Action, Arith, Call, Fault, Frame, Missing, Program, State, TableView};
use crate::show::{
    entry, list_blocks, list_items, list_pairs, list_table, list_tables, list_vars, render,
    render_items, render_pairs, report,
};
use crate::text::{
    decimal, no_piece, padded, put, put_all, put_decimal, put_padded, put_text, single, text,
    tokens, Piece,
};
use crate::BodyIterator;
use std::collections::HashMap;
use vstd::prelude::*;
use vstd::string::*;

verus! {

broadcast use vstd::std_specs::hash::group_hash_axioms;

/// A table: a list of pairs and a vector.
#[derive(Clone, Debug, PartialEq)]
pub struct Table(pub Vec<(Obj, Obj)>, pub Vec<Obj>);

impl View for Table {
    type V = TableView;

    open spec fn view(&self) -> TableView {
        TableView { pairs: self.0@, array: self.1@ }
    }
}

impl Table {
    /// The vector of the table.
    pub fn vec(&self) -> (r: &[Obj])
        ensures
            r@ == self@.array,
    {
        self.1.as_slice()
    }

    /// The vector of the table, to be changed in place.
    pub fn vec_mut(&mut self) -> (r: &mut Vec<Obj>)
        ensures
            *r == old(self).1,
            final(self).0 == old(self).0,
            final(self).1 == *final(r),
    {
        &mut self.1
    }

    /// Appends `x` to the vector.
    pub fn vec_push(&mut self, x: Obj)
        ensures
            final(self)@ == (TableView { array: old(self)@.array.push(x), ..old(self)@ }),
    {
        self.1.push(x);
    }

    /// Drops the last item of the vector, if there is one.
    pub fn vec_pop(&mut self)
        ensures
            final(self)@ == (TableView {
                array: if old(self)@.array.len() == 0 {
                    old(self)@.array
                } else {
                    old(self)@.array.drop_last()
                },
                ..old(self)@
            }),
    {
        let _ = self.1.pop();
    }
}

/// The tables of a heap, each with its two parts as sequences.
pub open spec fn heap(m: Map<usize, Table>) -> Map<usize, TableView> {
    Map::new(|h: usize| m.contains_key(h), |h: usize| m[h]@)
}

/// The heap of a machine and the vectors that its variables hold.
pub trait Machine {
    /// The state that the operations act on.
    spec fn state(&self) -> State;

    /// The table under the handle `x`.
    fn get_table(&self, x: usize) -> (t: &Table)
        requires
            self.state().tables.contains_key(x),
        ensures
            t@ == self.state().tables[x],
    ;

    /// All the tables by handle.
    fn get_tables(&self) -> (m: &HashMap<usize, Table>)
        ensures
            heap(m@) == self.state().tables,
    ;

    /// Puts `t` on the heap and returns its handle.
    fn add_table(&mut self, t: Table) -> (h: usize)
        requires
            old(self).state().next < usize::MAX,
        ensures
            h == old(self).state().next,
            final(self).state() == (State {
                tables: old(self).state().tables.insert(h, t@),
                next: (h + 1) as usize,
                ..old(self).state()
            }),
    ;

    /// Frees the table under the handle `x`, if there is one.
    fn rm_table(&mut self, x: &usize)
        ensures
            final(self).state() == (State {
                tables: old(self).state().tables.remove(*x),
                ..old(self).state()
            }),
    ;

    /// Appends `x` to the vector that the variable `v` holds.
    fn vec_push(&mut self, v: &usize, x: Obj)
        requires
            sem::table_of(old(self).state(), *v) is Ok,
        ensures
            ({
                let s = old(self).state();
                let h = sem::table_of(s, *v)->Ok_0;
                final(self).state() == s.put_table(
                    h,
                    TableView { array: s.tables[h].array.push(x), ..s.tables[h] },
                )
            }),
    ;

    /// Pushes the last item of the vector that the variable `v` holds.
    fn vec_last(&mut self, v: &usize)
        requires
            sem::table_of(old(self).state(), *v) is Ok,
            old(self).state().tables[sem::table_of(old(self).state(), *v)->Ok_0].array.len() > 0,
        ensures
            ({
                let s = old(self).state();
                let h = sem::table_of(s, *v)->Ok_0;
                final(self).state() == s.push(s.tables[h].array.last())
            }),
    ;

    /// Drops the last item, if there is one, of the vector that the variable
    /// `v` holds.
    fn vec_pop(&mut self, v: &usize)
        requires
            sem::table_of(old(self).state(), *v) is Ok,
        ensures
            ({
                let s = old(self).state();
                let h = sem::table_of(s, *v)->Ok_0;
                final(self).state() == s.put_table(
                    h,
                    TableView {
                        array: if s.tables[h].array.len() == 0 {
                            s.tables[h].array
                        } else {
                            s.tables[h].array.drop_last()
                        },
                        ..s.tables[h]
                    },
                )
            }),
    ;
}

/// A machine on a program.
///
/// The host begins a run with `exe_block` or `exe_body` and then does what
/// each action asks: after `Next` it calls `step` (or `run`, for many steps
/// at once), after `Compute` it works out the number and hands it to
/// `resume`, and `Done` and `Fail` end the run. After a fault the machine
/// stands where it was, for `explain` to report.
#[derive(Debug, Clone, PartialEq)]
pub struct VM<'a> {
    code: &'a [Instr],
    blocks: &'a [Blk],
    bodies: &'a [Body<'a>],
    stack: Vec<Obj>,
    vars: HashMap<usize, Obj>,
    slots: Vec<usize>,
    next: usize,
    tables: HashMap<usize, Table>,
    frames: Vec<Frame>,
}

impl<'a> View for VM<'a> {
    type V = State;

    closed spec fn view(&self) -> State {
        State {
            stack: self.stack@,
            vars: self.vars@,
            slots: self.slots@,
            next: self.next,
            tables: heap(self.tables@),
            frames: self.frames@,
        }
    }
}

impl<'a> VM<'a> {
    /// The program that the machine runs.
    pub closed spec fn program(&self) -> Program<'a> {
        Program { code: self.code@, blocks: self.blocks@, bodies: body_views(self.bodies@) }
    }

    /// The data stack, its top last.
    pub fn stack(&self) -> (r: &Vec<Obj>)
        ensures
            r@ == self@.stack,
    {
        &self.stack
    }

    /// The frames, the running one last.
    pub fn frames(&self) -> (r: &Vec<Frame>)
        ensures
            r@ == self@.frames,
    {
        &self.frames
    }

    /// The variables by slot.
    pub fn vars(&self) -> (r: &HashMap<usize, Obj>)
        ensures
            r@ == self@.vars,
    {
        &self.vars
    }

    /// The instructions of the body `i`, one by one.
    pub fn iter_body(&self, i: usize) -> (it: BodyIterator<'a>)
        requires
            i < self.program().bodies.len(),
            self.program().bodies[i as int].start <= self.program().code.len(),
        ensures
            it.rest() == self.program().code.skip(self.program().bodies[i as int].start as int),
    {
        BodyIterator::from(self.code, &self.bodies[i])
    }

    /// A machine on the given program, with nothing on its stack, no
    /// variable, no table, and nothing to run yet.
    pub fn new(code: &'a [Instr], blocks: &'a [Blk], bodies: &'a [Body<'a>]) -> (vm: Self)
        ensures
            vm@ == State::fresh(),
            vm.program() == (Program {
                code: code@,
                blocks: blocks@,
                bodies: body_views(bodies@),
            }),
    {
        let vm = VM {
            code,
            blocks,
            bodies,
            stack: Vec::new(),
            vars: HashMap::new(),
            slots: Vec::new(),
            next: 0,
            tables: HashMap::new(),
            frames: Vec::new(),
        };
        assert(heap(vm.tables@) =~= Map::empty());
        vm
    }
}


impl<'a> Machine for VM<'a> {
    open spec fn state(&self) -> State {
        self@
    }

    fn get_table(&self, x: usize) -> (t: &Table) {
        self.tables.get(&x).unwrap()
    }

    fn get_tables(&self) -> (m: &HashMap<usize, Table>) {
        &self.tables
    }

    fn add_table(&mut self, t: Table) -> (h: usize)
        ensures
            final(self).program() == old(self).program(),
    {
        let h = self.next;
        let ghost view = t@;
        self.tables.insert(h, t);
        self.next = h + 1;
        assert(heap(self.tables@) =~= heap(old(self).tables@).insert(h, view));
        h
    }

    fn rm_table(&mut self, x: &usize)
        ensures
            final(self).program() == old(self).program(),
    {
        let _ = self.tables.remove(x);
        assert(heap(self.tables@) =~= heap(old(self).tables@).remove(*x));
    }

    fn vec_push(&mut self, v: &usize, x: Obj)
        ensures
            final(self).program() == old(self).program(),
    {
        let h = self.table_of(*v).unwrap();
        let mut t = self.tables.remove(&h).unwrap();
        t.vec_push(x);
        let ghost view = t@;
        self.tables.insert(h, t);
        assert(heap(self.tables@) =~= heap(old(self).tables@).insert(h, view));
    }

    fn vec_last(&mut self, v: &usize)
        ensures
            final(self).program() == old(self).program(),
    {
        let h = self.table_of(*v).unwrap();
        let items = self.get_table(h).vec();
        let last = items[items.len() - 1];
        self.stack.push(last);
    }

    fn vec_pop(&mut self, v: &usize)
        ensures
            final(self).program() == old(self).program(),
    {
        let h = self.table_of(*v).unwrap();
        let mut t = self.tables.remove(&h).unwrap();
        t.vec_pop();
        let ghost view = t@;
        self.tables.insert(h, t);
        assert(heap(self.tables@) =~= heap(old(self).tables@).insert(h, view));
    }
}

impl<'a> VM<'a> {
    /// The number `depth` places under the top, or why there is none.
    fn num_at(&self, depth: usize) -> (r: Result<Double, Fault>)
        ensures
            r == sem::num_at(self@, depth as int),
    {
        let n = self.stack.len();
        if n <= depth {
            Err(Fault::Underflow)
        } else {
            match self.stack[n - 1 - depth] {
                Obj::F(d) => Ok(d),
                o => Err(Fault::Type { expected: ObjType::F, found: o.kind() }),
            }
        }
    }

    /// The function `depth` places under the top, or why there is none.
    fn fun_at(&self, depth: usize) -> (r: Result<usize, Fault>)
        ensures
            r == sem::fun_at(self@, depth as int),
    {
        let n = self.stack.len();
        if n <= depth {
            Err(Fault::Underflow)
        } else {
            match self.stack[n - 1 - depth] {
                Obj::Fun(b) => Ok(b),
                o => Err(Fault::Type { expected: ObjType::Fun, found: o.kind() }),
            }
        }
    }

    /// The handle of the live table that the variable `v` holds, or why
    /// there is none.
    fn table_of(&self, v: usize) -> (r: Result<usize, Fault>)
        ensures
            r == sem::table_of(self@, v),
    {
        match self.vars.get(&v) {
            None => Err(Fault::Lookup(Missing::Var(v))),
            Some(o) => match *o {
                Obj::T(h) => if self.tables.contains_key(&h) {
                    Ok(h)
                } else {
                    Err(Fault::Lookup(Missing::Table(h)))
                },
                o => Err(Fault::Type { expected: ObjType::T, found: o.kind() }),
            },
        }
    }

    /// Removes the `n` topmost values.
    fn drop_top(&mut self, n: usize)
        requires
            n <= old(self)@.stack.len(),
        ensures
            final(self)@ == old(self)@.drop(n as int),
            final(self).program() == old(self).program(),
    {
        let keep = self.stack.len() - n;
        self.stack.truncate(keep);
    }
}


impl<'a> VM<'a> {
    /// Hands `v` to whoever started the body that returned it.
    fn hand_over(&mut self, v: Obj) -> (a: Action)
        ensures
            (final(self)@, a) == sem::hand_over(old(self)@, v),
            final(self).program() == old(self).program(),
    {
        if self.frames.len() == 0 {
            Action::Done(v)
        } else {
            self.stack.push(v);
            Action::Next
        }
    }

    /// Begins the body with the number `body`.
    fn enter(&mut self, body: usize, call: Call) -> (a: Action)
        ensures
            (final(self)@, a) == sem::enter(old(self).program(), old(self)@, body, call),
            final(self).program() == old(self).program(),
    {
        if body >= self.bodies.len() {
            return Action::Fail(Fault::Lookup(Missing::Body(body)));
        }
        let start = self.bodies[body].start;
        if start > self.code.len() {
            return Action::Fail(Fault::Lookup(Missing::Code(start)));
        }
        self.frames.push(Frame { pc: start, call });
        Action::Next
    }

    /// Dispatches the block `i`. An immediate block begins at once. A
    /// deferred block is its own value on an empty stack, begins where the
    /// stack holds at least as many values as it has parameters, and is a
    /// fault otherwise.
    pub fn exe_block(&mut self, i: usize) -> (a: Action)
        ensures
            (final(self)@, a) == sem::dispatch(old(self).program(), old(self)@, i),
            final(self).program() == old(self).program(),
    {
        if i >= self.blocks.len() {
            return Action::Fail(Fault::Lookup(Missing::Block(i)));
        }
        let blk = self.blocks[i];
        match blk.0 {
            BlkType::Fun => {},
            _ => {
                return Action::Fail(Fault::Reserved(i));
            },
        }
        match blk.1 {
            Time::Immediate => self.enter(blk.2, Call::Block(i)),
            Time::Deferred => {
                if self.stack.len() == 0 {
                    self.hand_over(Obj::Fun(i))
                } else if blk.2 >= self.bodies.len() {
                    Action::Fail(Fault::Lookup(Missing::Body(blk.2)))
                } else if self.bodies[blk.2].vars <= self.stack.len() {
                    self.enter(blk.2, Call::Block(i))
                } else {
                    Action::Fail(Fault::Arity(i))
                }
            },
        }
    }

    /// Begins the body `i` without a block around it.
    pub fn exe_body(&mut self, i: usize) -> (a: Action)
        ensures
            (final(self)@, a) == sem::enter(old(self).program(), old(self)@, i, Call::Body),
            final(self).program() == old(self).program(),
    {
        self.enter(i, Call::Body)
    }

    /// Goes on behind the position `pc`, in a frame that ends without a
    /// value.
    fn exe_at(&mut self, pc: usize)
        ensures
            final(self)@ == old(self)@.with_frames(
                old(self)@.frames.push(Frame { pc, call: Call::Jump }),
            ),
            final(self).program() == old(self).program(),
    {
        self.frames.push(Frame { pc, call: Call::Jump });
    }

    /// Ends the running frame.
    fn leave(&mut self) -> (a: Action)
        requires
            old(self)@.frames.len() > 0,
        ensures
            (final(self)@, a) == sem::leave(old(self)@),
            final(self).program() == old(self).program(),
    {
        let n = self.frames.len();
        match self.frames[n - 1].call {
            Call::Jump => {
                let _ = self.frames.pop();
                Action::Next
            },
            _ => {
                let k = self.stack.len();
                if k == 0 {
                    Action::Fail(Fault::Return)
                } else {
                    let v = self.stack[k - 1];
                    let _ = self.frames.pop();
                    self.drop_top(1);
                    self.hand_over(v)
                }
            },
        }
    }

    /// The value in the variable slot `i`.
    fn load_var(&self, i: &usize) -> (r: Result<Obj, Fault>)
        ensures
            r == if self@.vars.contains_key(*i) {
                Ok::<Obj, Fault>(self@.vars[*i])
            } else {
                Err(Fault::Lookup(Missing::Var(*i)))
            },
    {
        match self.vars.get(i) {
            Some(o) => Ok(*o),
            None => Err(Fault::Lookup(Missing::Var(*i))),
        }
    }

    /// The first position that holds `Label(x)`.
    fn find_label(&self, x: usize) -> (r: Option<usize>)
        ensures
            r == sem::label_from(self.program().code, x, 0),
    {
        let mut i: usize = 0;
        while i < self.code.len()
            invariant
                i <= self.code.len(),
                sem::label_from(self.code@, x, 0) == sem::label_from(self.code@, x, i as int),
            decreases self.code.len() - i,
        {
            match self.code[i] {
                Instr::Label(l) => {
                    if l == x {
                        return Some(i);
                    }
                },
                _ => {},
            }
            i = i + 1;
        }
        None
    }
}


impl<'a> VM<'a> {
    /// Pops two numbers and asks the host for `x op y`, where `y` was on
    /// top.
    fn arith(&mut self, op: Arith) -> (a: Action)
        ensures
            (final(self)@, a) == sem::arith(old(self)@, op),
            final(self).program() == old(self).program(),
    {
        let y = match self.num_at(0) {
            Ok(y) => y,
            Err(f) => {
                return Action::Fail(f);
            },
        };
        let x = match self.num_at(1) {
            Ok(x) => x,
            Err(f) => {
                return Action::Fail(f);
            },
        };
        self.drop_top(2);
        Action::Compute(op, x, y)
    }

    /// Pops a number and, where it is zero or not as `on_zero` says,
    /// dispatches the block `b`.
    fn branch(&mut self, b: usize, on_zero: bool) -> (a: Action)
        ensures
            (final(self)@, a) == sem::branch(old(self).program(), old(self)@, b, on_zero),
            final(self).program() == old(self).program(),
    {
        let x = match self.num_at(0) {
            Ok(x) => x,
            Err(f) => {
                return Action::Fail(f);
            },
        };
        let top = self.stack[self.stack.len() - 1];
        self.drop_top(1);
        if x.is_zero() == on_zero {
            let a = self.exe_block(b);
            match a {
                Action::Fail(_) => {
                    self.stack.push(top);
                    assert(self.stack@ =~= old(self).stack@);
                },
                _ => {},
            }
            a
        } else {
            Action::Next
        }
    }

    /// Pops a number and, where it is zero or not as `on_zero` says, goes
    /// on behind the label `l`.
    fn jump(&mut self, l: usize, on_zero: bool) -> (a: Action)
        ensures
            (final(self)@, a) == sem::jump(old(self).program(), old(self)@, l, on_zero),
            final(self).program() == old(self).program(),
    {
        let x = match self.num_at(0) {
            Ok(x) => x,
            Err(f) => {
                return Action::Fail(f);
            },
        };
        if x.is_zero() == on_zero {
            match self.find_label(l) {
                None => Action::Fail(Fault::Lookup(Missing::Label(l))),
                Some(i) => {
                    let size = self.code.len();
                    proof {
                        sem::label_found(self.code@, l, 0);
                    }
                    self.drop_top(1);
                    self.exe_at(i + 1);
                    Action::Next
                },
            }
        } else {
            self.drop_top(1);
            Action::Next
        }
    }

    /// Pops the function under the `keep` topmost values and dispatches its
    /// block.
    fn apply(&mut self, keep: usize) -> (a: Action)
        requires
            keep <= 1,
        ensures
            (final(self)@, a) == sem::apply(old(self).program(), old(self)@, keep as int),
            final(self).program() == old(self).program(),
    {
        let b = match self.fun_at(keep) {
            Ok(b) => b,
            Err(f) => {
                return Action::Fail(f);
            },
        };
        let n = self.stack.len();
        let f = self.stack[n - 1 - keep];
        if keep == 1 {
            let y = self.stack[n - 1];
            self.drop_top(2);
            self.stack.push(y);
            assert(self.stack@ =~= old(self)@.drop(2).stack + old(self)@.stack.subrange(
                n - 1,
                n as int,
            ));
            let a = self.exe_block(b);
            match a {
                Action::Fail(_) => {
                    let _ = self.stack.pop();
                    self.stack.push(f);
                    self.stack.push(y);
                    assert(self.stack@ =~= old(self).stack@);
                },
                _ => {},
            }
            a
        } else {
            self.drop_top(1);
            assert(self.stack@ =~= old(self)@.drop(1).stack + old(self)@.stack.subrange(
                n as int,
                n as int,
            ));
            let a = self.exe_block(b);
            match a {
                Action::Fail(_) => {
                    self.stack.push(f);
                    assert(self.stack@ =~= old(self).stack@);
                },
                _ => {},
            }
            a
        }
    }

    /// Makes a table of the `2n` topmost values and pushes its handle.
    fn make_table(&mut self, n: usize) -> (a: Action)
        ensures
            (final(self)@, a) == sem::make_table(old(self)@, n),
            final(self).program() == old(self).program(),
    {
        let len = self.stack.len();
        if n > len / 2 {
            return Action::Fail(Fault::Underflow);
        }
        if self.next == usize::MAX {
            return Action::Fail(Fault::Full);
        }
        let mut pairs: Vec<(Obj, Obj)> = Vec::new();
        let mut j: usize = 0;
        while j < n
            invariant
                j <= n,
                2 * n <= len,
                len == self.stack.len(),
                pairs@ == sem::pairs_of(self.stack@, j as int),
            decreases n - j,
        {
            pairs.push((self.stack[len - 1 - 2 * j], self.stack[len - 2 - 2 * j]));
            j = j + 1;
            assert(pairs@ =~= sem::pairs_of(self.stack@, j as int));
        }
        self.drop_top(2 * n);
        let h = self.add_table(Table(pairs, Vec::new()));
        self.stack.push(Obj::T(h));
        Action::Next
    }

    /// Makes a vector of the `n` topmost values, the lowest first, and
    /// pushes its handle.
    fn make_vec(&mut self, n: usize) -> (a: Action)
        ensures
            (final(self)@, a) == sem::make_vec(old(self)@, n as int),
            final(self).program() == old(self).program(),
    {
        let len = self.stack.len();
        if n > len {
            return Action::Fail(Fault::Underflow);
        }
        if self.next == usize::MAX {
            return Action::Fail(Fault::Full);
        }
        let items = self.stack.split_off(len - n);
        let h = self.add_table(Table(Vec::new(), items));
        self.stack.push(Obj::T(h));
        Action::Next
    }

    /// Pops the handle of a vector, pushes its items with the first one
    /// lowest, and frees the table.
    fn pop_vec(&mut self) -> (a: Action)
        ensures
            (final(self)@, a) == sem::pop_vec(old(self)@),
            final(self).program() == old(self).program(),
    {
        let len = self.stack.len();
        if len == 0 {
            return Action::Fail(Fault::Underflow);
        }
        match self.stack[len - 1] {
            Obj::T(h) => {
                match self.tables.remove(&h) {
                    None => {
                        assert(self.tables@ =~= old(self).tables@);
                        Action::Fail(Fault::Lookup(Missing::Table(h)))
                    },
                    Some(t) => {
                        let mut items = t.1;
                        self.drop_top(1);
                        self.stack.append(&mut items);
                        assert(heap(self.tables@) =~= heap(old(self).tables@).remove(h));
                        Action::Next
                    },
                }
            },
            o => Action::Fail(Fault::Type { expected: ObjType::T, found: o.kind() }),
        }
    }
}


impl<'a> VM<'a> {
    /// Executes one instruction on the state as it is. A fault leaves the
    /// state as it was.
    pub fn exe_instr(&mut self, x: &Instr) -> (a: Action)
        ensures
            (final(self)@, a) == sem::exe(old(self).program(), old(self)@, *x),
            final(self).program() == old(self).program(),
    {
        reveal(sem::exe);
        match *x {
            Instr::Push(v) => {
                self.stack.push(v);
                Action::Next
            },
            Instr::Pop => {
                if self.stack.len() > 0 {
                    self.drop_top(1);
                }
                Action::Next
            },
            Instr::Local(slot) => {
                let n = self.stack.len();
                if n == 0 {
                    Action::Fail(Fault::Underflow)
                } else {
                    let v = self.stack[n - 1];
                    self.drop_top(1);
                    if !self.vars.contains_key(&slot) {
                        self.slots.push(slot);
                    }
                    let _ = self.vars.insert(slot, v);
                    Action::Next
                }
            },
            Instr::Load(slot) => match self.load_var(&slot) {
                Ok(v) => {
                    self.stack.push(v);
                    Action::Next
                },
                Err(f) => Action::Fail(f),
            },
            Instr::Label(_) => Action::Next,
            Instr::AddF => self.arith(Arith::Add),
            Instr::SubF => self.arith(Arith::Sub),
            Instr::MulF => self.arith(Arith::Mul),
            Instr::DivF => self.arith(Arith::Div),
            Instr::NegF => match self.num_at(0) {
                Ok(v) => {
                    self.drop_top(1);
                    self.stack.push(Obj::F(v.neg()));
                    Action::Next
                },
                Err(f) => Action::Fail(f),
            },
            Instr::CmpF => {
                let y = match self.num_at(0) {
                    Ok(y) => y,
                    Err(f) => {
                        return Action::Fail(f);
                    },
                };
                let x = match self.num_at(1) {
                    Ok(x) => x,
                    Err(f) => {
                        return Action::Fail(f);
                    },
                };
                self.drop_top(2);
                self.stack.push(Obj::F(x.compare(y)));
                Action::Next
            },
            Instr::Table(n) => self.make_table(n),
            Instr::Vec(n) => self.make_vec(n),
            Instr::VecFull => {
                let n = self.stack.len();
                self.make_vec(n)
            },
            Instr::VecPush(v) => {
                let n = self.stack.len();
                if n == 0 {
                    return Action::Fail(Fault::Underflow);
                }
                match self.table_of(v) {
                    Err(f) => Action::Fail(f),
                    Ok(_) => {
                        let item = self.stack[n - 1];
                        self.vec_push(&v, item);
                        self.drop_top(1);
                        Action::Next
                    },
                }
            },
            Instr::VecLast(v) => match self.table_of(v) {
                Err(f) => Action::Fail(f),
                Ok(h) => {
                    if self.get_table(h).vec().len() == 0 {
                        Action::Fail(Fault::Underflow)
                    } else {
                        self.vec_last(&v);
                        Action::Next
                    }
                },
            },
            Instr::VecPop(v) => match self.table_of(v) {
                Err(f) => Action::Fail(f),
                Ok(h) => {
                    if self.get_table(h).vec().len() > 0 {
                        self.vec_pop(&v);
                    }
                    Action::Next
                },
            },
            Instr::Apply0 => self.apply(0),
            Instr::Apply1 => self.apply(1),
            Instr::ApplyN => self.apply(0),
            Instr::Dup => {
                let n = self.stack.len();
                if n == 0 {
                    Action::Fail(Fault::Underflow)
                } else {
                    let v = self.stack[n - 1];
                    self.stack.push(v);
                    Action::Next
                }
            },
            Instr::Swap2 => {
                let n = self.stack.len();
                if n < 2 {
                    Action::Fail(Fault::Underflow)
                } else {
                    let y = self.stack[n - 1];
                    let x = self.stack[n - 2];
                    self.drop_top(2);
                    self.stack.push(y);
                    self.stack.push(x);
                    Action::Next
                }
            },
            Instr::PopVec => self.pop_vec(),
            Instr::Ret => Action::Fail(Fault::Invalid),
            Instr::Break => Action::Next,
            Instr::Nop => Action::Next,
            Instr::Jmp(b) => self.exe_block(b),
            Instr::JmpZ(b) => self.branch(b, true),
            Instr::LJmpZ(l) => self.jump(l, true),
            Instr::LJmpNZ(l) => self.jump(l, false),
        }
    }

    /// One transition: the running frame executes the instruction at its
    /// position and moves past it, or ends where that is `Ret` or the end
    /// of the code.
    pub fn step(&mut self) -> (a: Action)
        ensures
            (final(self)@, a) == sem::step(old(self).program(), old(self)@),
            final(self).program() == old(self).program(),
    {
        let n = self.frames.len();
        if n == 0 {
            return Action::Fail(Fault::Idle);
        }
        let top = self.frames[n - 1];
        if top.pc >= self.code.len() {
            return self.leave();
        }
        let ins = self.code[top.pc];
        match ins {
            Instr::Ret => {
                return self.leave();
            },
            _ => {},
        }
        self.frames[n - 1] = Frame { pc: top.pc + 1, call: top.call };
        let ghost moved = self@;
        let a = self.exe_instr(&ins);
        match a {
            Action::Fail(_) => {
                proof {
                    sem::fault_keeps_state(self.program(), moved, ins);
                }
                self.frames[n - 1] = top;
                assert(self.frames@ =~= old(self).frames@);
            },
            _ => {},
        }
        a
    }

    /// Takes the host's result of an operation: the number is pushed.
    pub fn resume(&mut self, r: Double) -> (a: Action)
        ensures
            final(self)@ == sem::resume(old(self)@, r),
            a == Action::Next,
            final(self).program() == old(self).program(),
    {
        self.stack.push(Obj::F(r));
        Action::Next
    }

    /// Makes up to `fuel` transitions, and stops before them at the first
    /// that asks anything of the host.
    pub fn run(&mut self, fuel: usize) -> (a: Action)
        ensures
            (final(self)@, a) == sem::run(old(self).program(), old(self)@, fuel as nat),
            final(self).program() == old(self).program(),
    {
        let mut left = fuel;
        while left > 0
            invariant
                self.program() == old(self).program(),
                sem::run(old(self).program(), old(self)@, fuel as nat) == sem::run(
                    self.program(),
                    self@,
                    left as nat,
                ),
            decreases left,
        {
            let a = self.step();
            match a {
                Action::Next => {},
                _ => {
                    return a;
                },
            }
            left = left - 1;
        }
        Action::Next
    }
}


/// Appends `sep` unless this is the first entry.
fn put_entry(out: &mut Vec<Piece>, first: bool, sep: &str)
    ensures
        tokens(final(out)@) == entry(tokens(old(out)@), first, sep),
{
    if !first {
        put_text(out, sep);
    }
}

impl<'a> VM<'a> {
    /// The value `x` with the tables it holds opened to the depth `depth`.
    fn show(&self, x: &Obj, depth: usize) -> (r: Vec<Piece>)
        ensures
            tokens(r@) == render(self@.tables, *x, depth as nat),
        decreases depth,
    {
        match *x {
            Obj::T(h) => {
                if depth > 0 && self.tables.contains_key(&h) {
                    let t = self.get_table(h);
                    let ghost tables = self@.tables;
                    let ghost inner = (depth - 1) as nat;
                    let mut pairs = no_piece();
                    let mut i: usize = 0;
                    while i < t.0.len()
                        invariant
                            i <= t.0.len(),
                            depth > 0,
                            inner == depth - 1,
                            tables == self@.tables,
                            tokens(pairs@) == render_pairs(tables, t.0@, inner, i as nat),
                        decreases t.0.len() - i,
                    {
                        put_entry(&mut pairs, i == 0, ", ");
                        put_all(&mut pairs, self.show(&t.0[i].0, depth - 1));
                        put_text(&mut pairs, ": ");
                        put_all(&mut pairs, self.show(&t.0[i].1, depth - 1));
                        i = i + 1;
                    }
                    let mut items = no_piece();
                    let mut j: usize = 0;
                    while j < t.1.len()
                        invariant
                            j <= t.1.len(),
                            depth > 0,
                            inner == depth - 1,
                            tables == self@.tables,
                            tokens(items@) == render_items(tables, t.1@, inner, j as nat),
                        decreases t.1.len() - j,
                    {
                        put_entry(&mut items, j == 0, ", ");
                        put_all(&mut items, self.show(&t.1[j], depth - 1));
                        j = j + 1;
                    }
                    let mut r = single(text("["));
                    put_all(&mut r, pairs);
                    put_text(&mut r, "|");
                    put_all(&mut r, items);
                    put_text(&mut r, "]");
                    r
                } else {
                    single(x.fmt())
                }
            },
            _ => single(x.fmt()),
        }
    }

    /// The number of tables on the heap: the depth to which a rendering
    /// opens tables.
    fn depth(&self) -> (d: usize)
        ensures
            d == self@.tables.len(),
    {
        assert(heap(self.tables@).dom() =~= self.tables@.dom());
        self.tables.len()
    }

    /// The heap holds finitely many tables, so that a table that is there
    /// makes the depth to which a rendering opens tables positive.
    pub proof fn heap_is_finite(&self)
        ensures
            self@.tables.dom().finite(),
            forall|h: usize| self@.tables.contains_key(h) ==> self@.tables.len() > 0,
    {
        assert(heap(self.tables@).dom() =~= self.tables@.dom());
        assert forall|h: usize| self@.tables.contains_key(h) implies self@.tables.len() > 0 by {
            vstd::set_lib::lemma_set_empty_equivalency_len(self@.tables.dom());
        }
    }

    /// Renders a value. A table shows as `[k: v, ..|a, ..]`, with what it
    /// holds rendered in the same way and opened as deep as there are
    /// tables on the heap, of which there are finitely many.
    pub fn fmt(&self, x: &Obj) -> (r: Vec<Piece>)
        ensures
            tokens(r@) == render(self@.tables, *x, self@.tables.len()),
            self@.tables.dom().finite(),
            *x matches Obj::T(h) ==> (self@.tables.contains_key(h) ==> self@.tables.len() > 0),
    {
        proof {
            self.heap_is_finite();
        }
        self.show(x, self.depth())
    }

    /// The listing of the table under the handle `h`.
    fn list_table(&self, h: usize, depth: usize) -> (r: Vec<Piece>)
        requires
            self@.tables.contains_key(h),
        ensures
            tokens(r@) == list_table(self@.tables, h, depth as nat),
    {
        let ghost tables = self@.tables;
        let t = self.get_table(h);
        let mut pairs = no_piece();
        let mut i: usize = 0;
        while i < t.0.len()
            invariant
                i <= t.0.len(),
                tables == self@.tables,
                tokens(pairs@) == list_pairs(tables, t.0@, depth as nat, i as nat),
            decreases t.0.len() - i,
        {
            put_entry(&mut pairs, i == 0, "\n");
            put_text(&mut pairs, "\t");
            put_all(&mut pairs, self.show(&t.0[i].0, depth));
            put_text(&mut pairs, " :\t");
            put_all(&mut pairs, self.show(&t.0[i].1, depth));
            i = i + 1;
        }
        let mut items = no_piece();
        let mut j: usize = 0;
        while j < t.1.len()
            invariant
                j <= t.1.len(),
                tables == self@.tables,
                tokens(items@) == list_items(tables, t.1@, depth as nat, j as nat),
            decreases t.1.len() - j,
        {
            put_entry(&mut items, j == 0, "\n");
            let mut line = String::from_str("\t");
            put_padded(&mut line, j);
            line.append(": ");
            put(&mut items, Piece::Text(line));
            put_all(&mut items, self.show(&t.1[j], depth));
            j = j + 1;
        }
        let mut head = decimal(h);
        head.append(" /\n");
        let mut r = single(Piece::Text(head));
        put_all(&mut r, pairs);
        put_text(&mut r, "\n\t--------\n");
        put_all(&mut r, items);
        r
    }

    /// The listing of all tables, by handle.
    fn list_tables(&self, depth: usize) -> (r: Vec<Piece>)
        ensures
            tokens(r@) == list_tables(self@.tables, self@.next as nat, depth as nat),
    {
        let ghost tables = self@.tables;
        let mut r = no_piece();
        let mut h: usize = 0;
        while h < self.next
            invariant
                h <= self.next,
                tables == self@.tables,
                tokens(r@) == list_tables(tables, h as nat, depth as nat),
            decreases self.next - h,
        {
            if self.tables.contains_key(&h) {
                let first = r.len() == 0;
                put_entry(&mut r, first, "\n");
                put_all(&mut r, self.list_table(h, depth));
            }
            h = h + 1;
        }
        r
    }

    /// The listing of the variables, in the order in which their slots
    /// were first bound.
    fn list_vars(&self, depth: usize) -> (r: Vec<Piece>)
        ensures
            tokens(r@) == list_vars(self@, self@.slots.len(), depth as nat),
    {
        let ghost s = self@;
        let mut r = no_piece();
        let mut i: usize = 0;
        while i < self.slots.len()
            invariant
                i <= self.slots.len(),
                s == self@,
                tokens(r@) == list_vars(s, i as nat, depth as nat),
            decreases self.slots.len() - i,
        {
            let slot = self.slots[i];
            match self.vars.get(&slot) {
                Some(v) => {
                    let first = r.len() == 0;
                    put_entry(&mut r, first, "\n");
                    let mut line = String::new();
                    put_padded(&mut line, slot);
                    line.append(": '");
                    assert(line@ =~= padded(slot as nat) + ": '"@);
                    put(&mut r, Piece::Text(line));
                    put_all(&mut r, self.show(v, depth));
                    put_text(&mut r, "'");
                },
                None => {},
            }
            i = i + 1;
        }
        r
    }

    /// The listing of the tables by handle: for each its handle, its pairs
    /// one to a line, a rule, and its items one to a line.
    pub fn fmt_tables(&self) -> (r: Vec<Piece>)
        ensures
            tokens(r@) == list_tables(self@.tables, self@.next as nat, self@.tables.len()),
    {
        self.list_tables(self.depth())
    }

    /// The listing of the variables: each slot and its value, one to a
    /// line, in the order in which the slots were first bound.
    pub fn fmt_vars(&self) -> (r: Vec<Piece>)
        ensures
            tokens(r@) == list_vars(self@, self@.slots.len(), self@.tables.len()),
    {
        self.list_vars(self.depth())
    }

    /// The words that name the blocks that are running, from the outermost
    /// on.
    fn list_blocks(&self) -> (r: Vec<Piece>)
        ensures
            tokens(r@) == list_blocks(self@.frames, self@.frames.len()),
    {
        let mut r = no_piece();
        let mut i: usize = 0;
        while i < self.frames.len()
            invariant
                i <= self.frames.len(),
                tokens(r@) == list_blocks(self@.frames, i as nat),
            decreases self.frames.len() - i,
        {
            match self.frames[i].call {
                Call::Block(b) => {
                    let mut s = String::from_str("err while executing block ");
                    put_decimal(&mut s, b);
                    s.append(": ");
                    put(&mut r, Piece::Text(s));
                },
                _ => {},
            }
            i = i + 1;
        }
        r
    }

    /// The report of a fault: the blocks that were running, from the
    /// outermost on, what went wrong and at which instruction, and the
    /// tables and the variables as they stand.
    pub fn explain(&self, f: &Fault) -> (r: Vec<Piece>)
        ensures
            tokens(r@) == report(self.program().code, self@, *f, self@.tables.len()),
    {
        let depth = self.depth();
        let mut r = self.list_blocks();
        put(&mut r, Piece::Text(f.message()));
        let n = self.frames.len();
        if n > 0 && self.frames[n - 1].pc < self.code.len() {
            put_text(&mut r, " at ");
            put_all(&mut r, self.code[self.frames[n - 1].pc].fmt());
        }
        put_text(&mut r, "\ntables:\n");
        put_all(&mut r, self.list_tables(depth));
        put_text(&mut r, "\nvars:\n");
        put_all(&mut r, self.list_vars(depth));
        r
    }
}

} // verus!
