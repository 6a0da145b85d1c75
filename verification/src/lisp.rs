//! Expressions, and the compiler from expressions to bytecode.
use crate::bc::{body_views, Blk, BlkType, Body, BodyView, Instr, Obj, ObjType, Time};
use crate::lower::{
    arith_of, counted, counting, hidden, is_operand, jumps, kind_of, kinds_known, lower,
    lower_all, names_of, Draft,
};
use crate::num::{Double, ONE};
use crate::shape::{lower_extends, lower_well_formed};
use crate::show::{list_blks, list_bodies, list_instrs, list_names, list_run, listing, numbered};
use crate::text::{
    no_piece, padded, put, put_all, put_decimal, put_padded, put_text, same, single, text, tokens,
    Piece,
};
use crate::BodyIterator;
use std::collections::HashMap;
use vstd::prelude::*;
use vstd::string::*;

verus! {

broadcast use vstd::std_specs::hash::group_hash_axioms;

/// The kind of an expression, as a parameter declares it.
#[derive(Copy, Clone, Debug, PartialEq, Eq, Structural)]
pub enum LeafType {
    C,
    F,
    M,
    D,
    A,
    Fun,
}

impl LeafType {
    /// The value kind of a character or a number.
    pub fn into(self) -> (k: ObjType)
        requires
            kind_of(self) is Some,
        ensures
            kind_of(self) == Some(k),
    {
        match self {
            LeafType::C => ObjType::C,
            _ => ObjType::F,
        }
    }
}

/// An expression.
#[derive(Debug, PartialEq)]
pub enum Leaf<'a> {
    /// A variable.
    X(&'static str),
    /// A literal number.
    F(Double),
    /// A literal character.
    C(char),
    /// An array of expressions.
    A(Vec<Leaf<'a>>),
    /// An operator applied to one expression: `-` or `!`.
    M(&'static str, &'a Leaf<'a>),
    /// An operator applied to two: `+`, `-`, `*`, `%`, `@` or `.`.
    D(&'static str, &'a Leaf<'a>, &'a Leaf<'a>),
    /// A function: its parameters and the expressions of its body.
    Fun { a: Vec<(&'static str, LeafType)>, v: Vec<Leaf<'a>> },
}

/// An expression as a tree of values: what a `Leaf` holds, with its lists
/// as sequences and the expressions it refers to in their place.
pub enum Tree {
    X(&'static str),
    F(Double),
    C(char),
    A(Seq<Tree>),
    M(&'static str, Box<Tree>),
    D(&'static str, Box<Tree>, Box<Tree>),
    Fun { a: Seq<(&'static str, LeafType)>, v: Seq<Tree> },
}

impl<'a> View for Leaf<'a> {
    type V = Tree;

    open spec fn view(&self) -> Tree
        decreases self,
    {
        match *self {
            Leaf::X(x) => Tree::X(x),
            Leaf::F(v) => Tree::F(v),
            Leaf::C(c) => Tree::C(c),
            Leaf::A(xs) => Tree::A(trees(xs@, 0)),
            Leaf::M(op, x) => Tree::M(op, Box::new(x.view())),
            Leaf::D(op, x, y) => Tree::D(op, Box::new(x.view()), Box::new(y.view())),
            Leaf::Fun { a, v } => Tree::Fun { a: a@, v: trees(v@, 0) },
        }
    }
}

/// The trees of the expressions from the position `i` on.
pub open spec fn trees(xs: Seq<Leaf>, i: int) -> Seq<Tree>
    decreases xs, xs.len() - i,
{
    if 0 <= i < xs.len() {
        seq![xs[i].view()] + trees(xs, i + 1)
    } else {
        Seq::empty()
    }
}

/// `trees` gives the tree of each expression, in order.
pub proof fn trees_are_itemwise(xs: Seq<Leaf>, i: int)
    requires
        0 <= i <= xs.len(),
    ensures
        trees(xs, i).len() == xs.len() - i,
        forall|j: int| 0 <= j < xs.len() - i ==> (#[trigger] trees(xs, i)[j]) == xs[i + j].view(),
    decreases xs.len() - i,
{
    if i < xs.len() {
        trees_are_itemwise(xs, i + 1);
        assert(trees(xs, i) == seq![xs[i].view()] + trees(xs, i + 1));
        assert forall|j: int| 0 <= j < xs.len() - i implies (#[trigger] trees(xs, i)[j]) == xs[i
            + j].view() by {
            if j > 0 {
                assert(trees(xs, i)[j] == trees(xs, i + 1)[j - 1]);
            }
        }
    }
}

/// A copy of each expression, in order.
fn copies<'a>(xs: &Vec<Leaf<'a>>) -> (r: Vec<Leaf<'a>>)
    ensures
        trees(r@, 0) == trees(xs@, 0),
    decreases size_all(xs@, 0), 1nat,
{
    let mut r: Vec<Leaf<'a>> = Vec::new();
    let mut i: usize = 0;
    while i < xs.len()
        invariant
            i <= xs.len(),
            r@.len() == i,
            forall|j: int| 0 <= j < i ==> (#[trigger] r@[j]).view() == xs@[j].view(),
        decreases xs.len() - i,
    {
        proof {
            size_of_item(xs@, 0, i as int);
        }
        r.push(xs[i].copy());
        i = i + 1;
    }
    proof {
        trees_are_itemwise(r@, 0);
        trees_are_itemwise(xs@, 0);
        assert(trees(r@, 0) =~= trees(xs@, 0));
    }
    r
}

impl<'a> Leaf<'a> {
    /// A copy of the expression: the same tree, with lists of its own.
    fn copy(&self) -> (r: Leaf<'a>)
        ensures
            r@ == self@,
        decreases size(*self), 0nat,
    {
        match self {
            Leaf::X(x) => Leaf::X(x),
            Leaf::F(v) => Leaf::F(*v),
            Leaf::C(c) => Leaf::C(*c),
            Leaf::A(xs) => Leaf::A(copies(xs)),
            Leaf::M(op, x) => Leaf::M(op, x),
            Leaf::D(op, x, y) => Leaf::D(op, x, y),
            Leaf::Fun { a, v } => {
                let mut params: Vec<(&'static str, LeafType)> = Vec::new();
                let mut i: usize = 0;
                while i < a.len()
                    invariant
                        i <= a.len(),
                        params@ == a@.take(i as int),
                    decreases a.len() - i,
                {
                    params.push(a[i]);
                    i = i + 1;
                    assert(params@ =~= a@.take(i as int));
                }
                assert(a@.take(i as int) =~= a@);
                Leaf::Fun { a: params, v: copies(v) }
            },
        }
    }
}

impl<'a> Clone for Leaf<'a> {
    /// A copy of the expression: the same tree, with lists of its own.
    fn clone(&self) -> (r: Self)
        ensures
            r@ == self@,
    {
        self.copy()
    }
}

/// Why an expression was not compiled.
#[derive(Debug, Copy, Clone, PartialEq, Eq)]
pub enum CompileError {
    /// The expression is of a shape that has no rule.
    Unsupported,
    /// The variable is not defined.
    Undefined(&'static str),
    /// The function has no expression in its body.
    Empty,
    /// No variable slot or label is left.
    Limit,
}

impl CompileError {
    /// The message in words.
    pub open spec fn text(self) -> Seq<char> {
        match self {
            CompileError::Unsupported => "cannot compile leaf"@,
            CompileError::Undefined(x) => "variable "@ + x@ + " undefined"@,
            CompileError::Empty => "no leaves in fun"@,
            CompileError::Limit => "no slot or label left"@,
        }
    }

    pub fn message(&self) -> (s: String)
        ensures
            s@ == self.text(),
    {
        match self {
            CompileError::Unsupported => String::from_str("cannot compile leaf"),
            CompileError::Undefined(x) => {
                let mut s = String::from_str("variable ");
                s.append(x);
                s.append(" undefined");
                s
            },
            CompileError::Empty => String::from_str("no leaves in fun"),
            CompileError::Limit => String::from_str("no slot or label left"),
        }
    }
}

/// The number of nodes of an expression.
pub open spec fn size(l: Leaf) -> nat
    decreases l,
{
    match l {
        Leaf::A(xs) => 1 + size_all(xs@, 0),
        Leaf::M(_, x) => 1 + size(*x),
        Leaf::D(_, x, y) => 1 + size(*x) + size(*y),
        Leaf::Fun { a, v } => 1 + size_all(v@, 0),
        _ => 1,
    }
}

/// The number of nodes of the expressions from the position `i` on.
pub open spec fn size_all(xs: Seq<Leaf>, i: int) -> nat
    decreases xs, xs.len() - i,
{
    if 0 <= i < xs.len() {
        size(xs[i]) + size_all(xs, i + 1)
    } else {
        0
    }
}

proof fn size_positive(l: Leaf)
    ensures
        size(l) >= 1,
{
}

proof fn size_of_item(xs: Seq<Leaf>, from: int, i: int)
    requires
        0 <= from <= i < xs.len(),
    ensures
        size(xs[i]) <= size_all(xs, from),
    decreases i - from,
{
    if from < i {
        size_of_item(xs, from + 1, i);
    }
}

/// `lower_all` gives one block for each item that was left.
pub proof fn lower_all_len<'a>(d: Draft<'a>, xs: Seq<Leaf<'a>>, i: int, acc: Seq<usize>)
    requires
        0 <= i <= xs.len(),
    ensures
        lower_all(d, xs, i, acc).1 matches Ok(ids) ==> ids.len() == acc.len() + xs.len() - i
            && ids.take(acc.len() as int) == acc,
    decreases xs.len() - i,
{
    if i < xs.len() {
        match lower(d, xs[i]) {
            (d1, Ok(b)) => {
                lower_all_len(d1, xs, i + 1, acc.push(b));
                if lower_all(d, xs, i, acc).1 is Ok {
                    let ids = lower_all(d, xs, i, acc).1->Ok_0;
                    assert(ids.take(acc.len() as int) =~= ids.take(acc.len() as int + 1).take(
                        acc.len() as int,
                    ));
                    assert(acc.push(b).take(acc.len() as int) =~= acc);
                }
            },
            _ => {},
        }
    } else {
        assert(acc.take(acc.len() as int) =~= acc);
    }
}

/// The compiler. It only ever appends to its instruction buffer, its
/// bodies and its blocks.
#[derive(Debug, Clone, PartialEq)]
pub struct Machine<'a> {
    /// The name and kind of each named variable, by slot.
    pub vars: HashMap<usize, (&'static str, LeafType)>,
    /// The next variable slot.
    pub varn: usize,
    /// The next label.
    pub labeln: usize,
    pub instrs: Vec<Instr>,
    pub blocks: Vec<Blk>,
    pub bodies: Vec<Body<'a>>,
}

impl<'a> View for Machine<'a> {
    type V = Draft<'a>;

    open spec fn view(&self) -> Draft<'a> {
        Draft {
            vars: self.vars@,
            varn: self.varn,
            labeln: self.labeln,
            instrs: self.instrs@,
            blocks: self.blocks@,
            bodies: body_views(self.bodies@),
        }
    }
}

impl<'a> Machine<'a> {
    /// A compiler that has compiled nothing.
    pub fn new() -> (m: Self)
        ensures
            m@ == Draft::<'a>::fresh(),
            m@.well_formed(),
    {
        let m = Machine {
            vars: HashMap::new(),
            varn: 0,
            labeln: 0,
            instrs: Vec::new(),
            blocks: Vec::new(),
            bodies: Vec::new(),
        };
        assert(body_views(m.bodies@) =~= Seq::empty());
        m
    }

    /// The instructions of the body `i`, one by one.
    pub fn iter_body(&self, i: usize) -> (it: BodyIterator<'_>)
        requires
            i < self.bodies.len(),
            self.bodies[i as int].start <= self.instrs.len(),
        ensures
            it.rest() == self.instrs@.skip(self.bodies[i as int].start as int),
    {
        BodyIterator::from(self.instrs.as_slice(), &self.bodies[i])
    }

    /// Registers the next slot under the name `n`.
    fn add_var(&mut self, n: &'static str, t: LeafType) -> (r: Result<usize, CompileError>)
        ensures
            match r {
                Ok(i) => i == old(self).varn && i < usize::MAX && final(self)@ == old(
                    self,
                )@.add_var(n, t),
                Err(e) => e is Limit && old(self).varn == usize::MAX && final(self)@ == old(self)@,
            },
    {
        let i = self.varn;
        if i == usize::MAX {
            return Err(CompileError::Limit);
        }
        let _ = self.vars.insert(i, (n, t));
        self.varn = i + 1;
        Ok(i)
    }

    /// Takes the next slot without a name.
    fn mk_var(&mut self) -> (r: Result<usize, CompileError>)
        ensures
            match r {
                Ok(i) => i == old(self).varn && i < usize::MAX && final(self)@ == old(
                    self,
                )@.mk_var(),
                Err(e) => e is Limit && old(self).varn == usize::MAX && final(self)@ == old(self)@,
            },
    {
        let i = self.varn;
        if i == usize::MAX {
            return Err(CompileError::Limit);
        }
        self.varn = i + 1;
        Ok(i)
    }

    /// The slot `x`, which has to be registered.
    pub fn get_var(&self, x: usize) -> (r: usize)
        requires
            self@.vars.contains_key(x),
        ensures
            r == x,
    {
        x
    }

    /// The slot most recently registered under the name `x`.
    pub fn get_var_by_name(&self, x: &str) -> (r: Option<usize>)
        ensures
            r == self@.lookup(x@),
    {
        let mut bound = self.varn;
        while bound > 0
            invariant
                bound <= self.varn,
                self@.lookup(x@) == self@.slot_below(x@, bound as nat),
            decreases bound,
        {
            let i = bound - 1;
            match self.vars.get(&i) {
                Some(entry) => {
                    if same(entry.0, x) {
                        return Some(i);
                    }
                },
                None => {},
            }
            bound = i;
        }
        None
    }

    /// Takes the next label.
    fn mk_label(&mut self) -> (r: Result<usize, CompileError>)
        ensures
            match r {
                Ok(i) => i == old(self).labeln && i < usize::MAX && final(self)@
                    == old(self)@.mk_label(),
                Err(e) => e is Limit && old(self).labeln == usize::MAX && final(self)@ == old(
                    self,
                )@,
            },
    {
        let i = self.labeln;
        if i == usize::MAX {
            return Err(CompileError::Limit);
        }
        self.labeln = i + 1;
        Ok(i)
    }

    /// Appends `ops` as a body of its own, and a block for it.
    fn block(
        &mut self,
        ops: Vec<Instr>,
        time: Time,
        vars: usize,
        names: Vec<(&'a str, ObjType)>,
    ) -> (b: usize)
        ensures
            final(self)@ == old(self)@.block(ops@, time, vars, names@),
            b == old(self)@.blocks.len(),
    {
        let mut ops = ops;
        let start = self.instrs.len();
        self.instrs.append(&mut ops);
        let body = self.bodies.len();
        let export = flags(names.len());
        let ghost view = BodyView { start, vars, names: names@, export: export@ };
        self.bodies.push(Body { start, vars, names, export });
        let b = self.blocks.len();
        self.blocks.push(Blk(BlkType::Fun, time, body));
        assert(body_views(self.bodies@) =~= body_views(old(self).bodies@).push(view));
        b
    }

    /// Appends `v` and a `Ret` as a body without parameters, and returns the
    /// number of a new immediate block for it.
    pub fn immediate(&mut self, v: &[Instr]) -> (b: usize)
        ensures
            (final(self)@, Ok::<usize, CompileError>(b)) == old(self)@.done(v@),
    {
        let mut ops: Vec<Instr> = Vec::new();
        let mut i: usize = 0;
        while i < v.len()
            invariant
                i <= v.len(),
                ops@ == v@.take(i as int),
            decreases v.len() - i,
        {
            ops.push(v[i]);
            i = i + 1;
            assert(ops@ =~= v@.take(i as int));
        }
        assert(v@.take(i as int) =~= v@);
        ops.push(Instr::Ret);
        self.block(ops, Time::Immediate, 0, Vec::new())
    }

    /// A block of its own for a run of instructions, as `immediate` makes
    /// it.
    pub fn lambda(&mut self, v: &[Instr]) -> (b: usize)
        ensures
            (final(self)@, Ok::<usize, CompileError>(b)) == old(self)@.done(v@),
    {
        self.immediate(v)
    }

    /// The numbers from 0 up to `x`, as a vector: one push for each number,
    /// in ascending order, and a `Vec` of them, in a new immediate block.
    pub fn iota(&mut self, x: usize) -> (r: Result<usize, CompileError>)
        ensures
            (final(self)@, r) == old(self)@.done(counted(x)),
    {
        let mut ops: Vec<Instr> = Vec::new();
        let mut i: usize = 0;
        while i < x
            invariant
                i <= x,
                ops@ == Seq::new(
                    i as nat,
                    |j: int| Instr::Push(Obj::F(Double::of_index(j as usize))),
                ),
            decreases x - i,
        {
            ops.push(Instr::Push(Obj::F(Double::from_index(i))));
            i = i + 1;
            assert(ops@ =~= Seq::new(
                i as nat,
                |j: int| Instr::Push(Obj::F(Double::of_index(j as usize))),
            ));
        }
        ops.push(Instr::Vec(x));
        Ok(self.immediate(ops.as_slice()))
    }

    /// The sign flip of a literal number, folded.
    fn negate(&mut self, x: Double) -> (r: Result<usize, CompileError>)
        ensures
            (final(self)@, r) == old(self)@.done(seq![Instr::Push(Obj::F(x.negated()))]),
    {
        let ops = [Instr::Push(Obj::F(x.neg()))];
        assert(ops@ =~= seq![Instr::Push(Obj::F(x.negated()))]);
        Ok(self.immediate(&ops))
    }

    /// The instruction that fetches an operand.
    fn operand(&self, l: &Leaf<'a>) -> (r: Result<Instr, CompileError>)
        ensures
            r == self@.operand(*l),
    {
        match l {
            Leaf::F(v) => Ok(Instr::Push(Obj::F(*v))),
            Leaf::X(x) => match self.get_var_by_name(x) {
                Some(i) => Ok(Instr::Load(i)),
                None => Err(CompileError::Undefined(x)),
            },
            _ => Err(CompileError::Unsupported),
        }
    }
}


/// A piece that begins a line with `n`, right-aligned in a width of three,
/// and a colon.
fn number(n: usize) -> (p: Piece)
    ensures
        p@ == numbered(n as nat),
{
    let mut s = String::new();
    put_padded(&mut s, n);
    s.append(": ");
    assert(s@ =~= padded(n as nat) + ": "@);
    Piece::Text(s)
}

impl<'a> Machine<'a> {
    /// Appends the instructions from the position `from` up to the next
    /// `Ret` or the end of the buffer, one to a line behind an arrow.
    fn list_run(&self, from: usize, out: &mut Vec<Piece>)
        ensures
            tokens(final(out)@) == list_run(self.instrs@, from as int, tokens(old(out)@)),
    {
        let mut at = from;
        while at < self.instrs.len()
            invariant
                list_run(self.instrs@, from as int, tokens(old(out)@)) == list_run(
                    self.instrs@,
                    at as int,
                    tokens(out@),
                ),
            decreases self.instrs.len() - at,
        {
            match self.instrs[at] {
                Instr::Ret => {
                    return ;
                },
                _ => {},
            }
            put_text(out, "    > ");
            put_all(out, self.instrs[at].fmt());
            put_text(out, "\n");
            at = at + 1;
        }
    }

    /// What the compiler holds, as it is listed: the instructions, each
    /// body with its instructions, the blocks, and the named variables by
    /// slot.
    pub fn listing(&self) -> (r: Vec<Piece>)
        ensures
            tokens(r@) == listing(self@),
    {
        let mut instrs = no_piece();
        let mut i: usize = 0;
        while i < self.instrs.len()
            invariant
                i <= self.instrs.len(),
                tokens(instrs@) == list_instrs(self.instrs@, i as nat),
            decreases self.instrs.len() - i,
        {
            put(&mut instrs, number(i));
            put_all(&mut instrs, self.instrs[i].fmt());
            put_text(&mut instrs, "\n");
            i = i + 1;
        }
        let mut bodies = no_piece();
        let mut j: usize = 0;
        while j < self.bodies.len()
            invariant
                j <= self.bodies.len(),
                tokens(bodies@) == list_bodies(self.instrs@, body_views(self.bodies@), j as nat),
            decreases self.bodies.len() - j,
        {
            let b = &self.bodies[j];
            put(&mut bodies, number(j));
            let mut head = String::from_str("start ");
            put_decimal(&mut head, b.start);
            head.append(", vars ");
            put_decimal(&mut head, b.vars);
            put(&mut bodies, Piece::Text(head));
            put_text(&mut bodies, "\n");
            self.list_run(b.start, &mut bodies);
            j = j + 1;
        }
        let mut blocks = no_piece();
        let mut k: usize = 0;
        while k < self.blocks.len()
            invariant
                k <= self.blocks.len(),
                tokens(blocks@) == list_blks(self.blocks@, k as nat),
            decreases self.blocks.len() - k,
        {
            let b = self.blocks[k];
            put(&mut blocks, number(k));
            let mut line = String::from_str(b.0.name());
            line.append(" ");
            line.append(b.1.name());
            line.append(" ");
            put_decimal(&mut line, b.2);
            line.append("\n");
            put(&mut blocks, Piece::Text(line));
            k = k + 1;
        }
        let mut vars = no_piece();
        let mut slot: usize = 0;
        while slot < self.varn
            invariant
                slot <= self.varn,
                tokens(vars@) == list_names(self.vars@, slot as nat),
            decreases self.varn - slot,
        {
            match self.vars.get(&slot) {
                Some(entry) => {
                    put(&mut vars, number(slot));
                    let mut line = String::from_str(entry.0);
                    line.append(" = ");
                    line.append(entry.1.name());
                    line.append("\n");
                    put(&mut vars, Piece::Text(line));
                },
                None => {},
            }
            slot = slot + 1;
        }
        let mut r = single(text("instrs:\n"));
        put_all(&mut r, instrs);
        put_text(&mut r, "bodies:\n");
        put_all(&mut r, bodies);
        put_text(&mut r, "blocks:\n");
        put_all(&mut r, blocks);
        put_text(&mut r, "vars:\n");
        put_all(&mut r, vars);
        r
    }
}

/// One export flag for each of `n` names, none of them set.
fn flags(n: usize) -> (r: Vec<bool>)
    ensures
        r@ == hidden(n as nat),
{
    let mut r: Vec<bool> = Vec::new();
    let mut i: usize = 0;
    while i < n
        invariant
            i <= n,
            r@ == hidden(i as nat),
        decreases n - i,
    {
        r.push(false);
        i = i + 1;
        assert(r@ =~= hidden(i as nat));
    }
    r
}

/// The instruction of an arithmetic operator.
fn arith_instr(op: &str) -> (r: Option<Instr>)
    ensures
        r == arith_of(op@),
{
    if same(op, "+") {
        Some(Instr::AddF)
    } else if same(op, "-") {
        Some(Instr::SubF)
    } else if same(op, "*") {
        Some(Instr::MulF)
    } else if same(op, "%") {
        Some(Instr::DivF)
    } else {
        None
    }
}

/// Whether every parameter is of a kind that values have.
fn kinds_ok(params: &Vec<(&'static str, LeafType)>) -> (r: bool)
    ensures
        r == kinds_known(params@),
{
    let mut i: usize = 0;
    while i < params.len()
        invariant
            i <= params.len(),
            forall|j: int| 0 <= j < i ==> kind_of(#[trigger] params@[j].1) is Some,
        decreases params.len() - i,
    {
        match params[i].1 {
            LeafType::C => {},
            LeafType::F => {},
            _ => {
                return false;
            },
        }
        i = i + 1;
    }
    true
}

/// The parameters as a body lists them.
fn names<'a>(params: &Vec<(&'static str, LeafType)>) -> (r: Vec<(&'a str, ObjType)>)
    requires
        kinds_known(params@),
    ensures
        r@ == names_of::<'a>(params@),
{
    let mut r: Vec<(&'a str, ObjType)> = Vec::new();
    let mut i: usize = 0;
    while i < params.len()
        invariant
            i <= params.len(),
            kinds_known(params@),
            r@ == names_of::<'a>(params@.take(i as int)),
        decreases params.len() - i,
    {
        let p = params[i];
        assert(kind_of(params@[i as int].1) is Some);
        r.push((p.0, p.1.into()));
        i = i + 1;
        assert(r@ =~= names_of::<'a>(params@.take(i as int)));
    }
    assert(params@.take(i as int) =~= params@);
    r
}

/// One `Jmp` for each block, in order.
fn jumps_to(ids: &Vec<usize>) -> (r: Vec<Instr>)
    ensures
        r@ == jumps(ids@),
{
    let mut r: Vec<Instr> = Vec::new();
    let mut i: usize = 0;
    while i < ids.len()
        invariant
            i <= ids.len(),
            r@ == jumps(ids@.take(i as int)),
        decreases ids.len() - i,
    {
        r.push(Instr::Jmp(ids[i]));
        i = i + 1;
        assert(r@ =~= jumps(ids@.take(i as int)));
    }
    assert(ids@.take(i as int) =~= ids@);
    r
}

impl<'a> Machine<'a> {
    /// Registers the parameters, the last one first, and returns one
    /// `Local` for each.
    fn declare(&mut self, params: &Vec<(&'static str, LeafType)>) -> (r: Result<
        Vec<Instr>,
        CompileError,
    >)
        ensures
            match r {
                Ok(ins) => (final(self)@, Ok::<Seq<Instr>, CompileError>(ins@)) == old(
                    self,
                )@.declare(params@, params@.len(), Seq::empty()),
                Err(e) => (final(self)@, Err::<Seq<Instr>, CompileError>(e)) == old(self)@.declare(
                    params@,
                    params@.len(),
                    Seq::empty(),
                ),
            },
    {
        let mut ins: Vec<Instr> = Vec::new();
        let mut upto = params.len();
        while upto > 0
            invariant
                upto <= params.len(),
                old(self)@.declare(params@, params@.len(), Seq::empty()) == self@.declare(
                    params@,
                    upto as nat,
                    ins@,
                ),
            decreases upto,
        {
            let p = params[upto - 1];
            match self.add_var(p.0, p.1) {
                Ok(slot) => {
                    ins.push(Instr::Local(slot));
                },
                Err(e) => {
                    return Err(e);
                },
            }
            upto = upto - 1;
        }
        Ok(ins)
    }

    /// Compiles the expressions in order and returns the numbers of their
    /// blocks.
    fn compile_all(&mut self, xs: &'a Vec<Leaf<'a>>) -> (r: Result<Vec<usize>, CompileError>)
        ensures
            match r {
                Ok(ids) => (final(self)@, Ok::<Seq<usize>, CompileError>(ids@)) == lower_all(
                    old(self)@,
                    xs@,
                    0,
                    Seq::empty(),
                ) && ids@.len() == xs@.len(),
                Err(e) => (final(self)@, Err::<Seq<usize>, CompileError>(e)) == lower_all(
                    old(self)@,
                    xs@,
                    0,
                    Seq::empty(),
                ),
            },
        decreases size_all(xs@, 0), 2nat,
    {
        let mut ids: Vec<usize> = Vec::new();
        let mut i: usize = 0;
        while i < xs.len()
            invariant
                i <= xs.len(),
                ids@.len() == i,
                lower_all(old(self)@, xs@, 0, Seq::empty()) == lower_all(
                    self@,
                    xs@,
                    i as int,
                    ids@,
                ),
            decreases xs.len() - i,
        {
            proof {
                size_of_item(xs@, 0, i as int);
            }
            match self.compile(&xs[i]) {
                Ok(b) => {
                    ids.push(b);
                },
                Err(e) => {
                    return Err(e);
                },
            }
            i = i + 1;
        }
        Ok(ids)
    }

    /// `x @ y`: the function `x` applied to the one value of `y`.
    fn apply1(&mut self, x: &'a Leaf<'a>, y: &'a Leaf<'a>) -> (r: Result<usize, CompileError>)
        ensures
            (final(self)@, r) == match lower(old(self)@, *x) {
                (d1, Err(e)) => (d1, Err(e)),
                (d1, Ok(f)) => match lower(d1, *y) {
                    (d2, Err(e)) => (d2, Err(e)),
                    (d2, Ok(g)) => d2.done(
                        seq![
                            Instr::Push(Obj::Fun(f)),
                            Instr::Push(Obj::Fun(g)),
                            Instr::Apply0,
                            Instr::Apply1,
                        ],
                    ),
                },
            },
        decreases size(*x) + size(*y), 2nat,
    {
        proof {
            size_positive(*x);
            size_positive(*y);
        }
        let f = match self.compile(x) {
            Ok(f) => f,
            Err(e) => {
                return Err(e);
            },
        };
        let g = match self.compile(y) {
            Ok(g) => g,
            Err(e) => {
                return Err(e);
            },
        };
        let ops = [
            Instr::Push(Obj::Fun(f)),
            Instr::Push(Obj::Fun(g)),
            Instr::Apply0,
            Instr::Apply1,
        ];
        assert(ops@ =~= seq![
            Instr::Push(Obj::Fun(f)),
            Instr::Push(Obj::Fun(g)),
            Instr::Apply0,
            Instr::Apply1,
        ]);
        Ok(self.immediate(&ops))
    }

    /// `x . [y..]`: the function `x` applied to the values of the
    /// expressions `y`, which are worked out from left to right.
    fn apply_n(&mut self, x: &'a Leaf<'a>, y: &'a Vec<Leaf<'a>>) -> (r: Result<
        usize,
        CompileError,
    >)
        ensures
            (final(self)@, r) == match lower(old(self)@, *x) {
                (d1, Err(e)) => (d1, Err(e)),
                (d1, Ok(f)) => match lower_all(d1, y@, 0, Seq::empty()) {
                    (d2, Err(e)) => (d2, Err(e)),
                    (d2, Ok(ids)) => d2.done(
                        jumps(ids).push(Instr::Push(Obj::Fun(f))).push(Instr::ApplyN),
                    ),
                },
            },
        decreases size(*x) + size_all(y@, 0), 3nat,
    {
        proof {
            size_positive(*x);
        }
        let f = match self.compile(x) {
            Ok(f) => f,
            Err(e) => {
                return Err(e);
            },
        };
        let ids = match self.compile_all(y) {
            Ok(ids) => ids,
            Err(e) => {
                return Err(e);
            },
        };
        let mut ops = jumps_to(&ids);
        ops.push(Instr::Push(Obj::Fun(f)));
        ops.push(Instr::ApplyN);
        Ok(self.immediate(ops.as_slice()))
    }

    /// `x . y`: the function `x` applied to the items of the vector that
    /// `y` gives.
    fn apply_n_to(&mut self, x: &'a Leaf<'a>, y: &'a Leaf<'a>) -> (r: Result<usize, CompileError>)
        ensures
            (final(self)@, r) == match lower(old(self)@, *y) {
                (d1, Err(e)) => (d1, Err(e)),
                (d1, Ok(m)) => match lower(d1, *x) {
                    (d2, Err(e)) => (d2, Err(e)),
                    (d2, Ok(f)) => d2.done(
                        seq![
                            Instr::Jmp(m),
                            Instr::PopVec,
                            Instr::Push(Obj::Fun(f)),
                            Instr::ApplyN,
                        ],
                    ),
                },
            },
        decreases size(*x) + size(*y), 2nat,
    {
        proof {
            size_positive(*x);
            size_positive(*y);
        }
        let m = match self.compile(y) {
            Ok(m) => m,
            Err(e) => {
                return Err(e);
            },
        };
        let f = match self.compile(x) {
            Ok(f) => f,
            Err(e) => {
                return Err(e);
            },
        };
        let ops = [Instr::Jmp(m), Instr::PopVec, Instr::Push(Obj::Fun(f)), Instr::ApplyN];
        assert(ops@ =~= seq![
            Instr::Jmp(m),
            Instr::PopVec,
            Instr::Push(Obj::Fun(f)),
            Instr::ApplyN,
        ]);
        Ok(self.immediate(&ops))
    }

    /// The counting loop for `! x`, where the block `b` gives the count.
    fn count_up(&mut self, b: usize) -> (r: Result<usize, CompileError>)
        ensures
            (final(self)@, r) == if old(self).labeln == usize::MAX {
                (old(self)@, Err(CompileError::Limit))
            } else if old(self).varn == usize::MAX {
                (old(self)@.mk_label(), Err(CompileError::Limit))
            } else {
                old(self)@.mk_label().mk_var().done(counting(b, old(self).labeln, old(self).varn))
            },
    {
        let l = match self.mk_label() {
            Ok(l) => l,
            Err(e) => {
                return Err(e);
            },
        };
        let r = match self.mk_var() {
            Ok(r) => r,
            Err(e) => {
                return Err(e);
            },
        };
        let one = Double { bits: ONE };
        let ops = [
            Instr::Jmp(b),
            Instr::Push(Obj::F(one)),
            Instr::SubF,
            Instr::Push(Obj::F(Double { bits: 0 })),
            Instr::Vec(1),
            Instr::Local(r),
            Instr::Label(l),
            Instr::Dup,
            Instr::VecLast(r),
            Instr::Push(Obj::F(one)),
            Instr::AddF,
            Instr::Dup,
            Instr::VecPush(r),
            Instr::CmpF,
            Instr::LJmpNZ(l),
            Instr::Load(r),
        ];
        assert(ops@ =~= counting(b, l, r));
        Ok(self.immediate(&ops))
    }

    /// Compiles `l` and returns the number of the block to execute, or the
    /// reason why `l` cannot be compiled. What was compiled before stays as
    /// it was, and a well-formed state stays well formed.
    pub fn compile(&mut self, l: &'a Leaf<'a>) -> (r: Result<usize, CompileError>)
        ensures
            (final(self)@, r) == lower(old(self)@, *l),
            final(self)@.extends(old(self)@),
            old(self)@.well_formed() ==> final(self)@.well_formed(),
            old(self)@.well_formed() ==> (r matches Ok(b) ==> b < final(self).blocks.len()),
        decreases size(*l), 1nat,
    {
        let r = self.emit(l);
        proof {
            lower_extends(old(self)@, *l);
            if old(self)@.well_formed() {
                assert(self@.fits()) by {
                    assert(self.instrs@.len() == self.instrs.len());
                    assert(self.blocks@.len() == self.blocks.len());
                    assert(body_views(self.bodies@).len() == self.bodies.len());
                }
                lower_well_formed(old(self)@, *l);
            }
        }
        r
    }

    /// Compiles `l` by the rule for its shape.
    fn emit(&mut self, l: &'a Leaf<'a>) -> (r: Result<usize, CompileError>)
        ensures
            (final(self)@, r) == lower(old(self)@, *l),
        decreases size(*l), 0nat,
    {
        match l {
            Leaf::X(_) => match self.operand(l) {
                Ok(i) => {
                    let ops = [i];
                    assert(ops@ =~= seq![i]);
                    Ok(self.immediate(&ops))
                },
                Err(e) => Err(e),
            },
            Leaf::F(v) => {
                let ops = [Instr::Push(Obj::F(*v))];
                assert(ops@ =~= seq![Instr::Push(Obj::F(*v))]);
                Ok(self.immediate(&ops))
            },
            Leaf::C(c) => {
                let ops = [Instr::Push(Obj::C(*c))];
                assert(ops@ =~= seq![Instr::Push(Obj::C(*c))]);
                Ok(self.immediate(&ops))
            },
            Leaf::A(xs) => {
                let ids = match self.compile_all(xs) {
                    Ok(ids) => ids,
                    Err(e) => {
                        return Err(e);
                    },
                };
                let mut ops = jumps_to(&ids);
                ops.push(Instr::Vec(ids.len()));
                Ok(self.immediate(ops.as_slice()))
            },
            Leaf::D(op, x, y) => {
                let arith = arith_instr(op);
                if arith.is_some() && operand_like(x) && operand_like(y) {
                    let ix = match self.operand(x) {
                        Ok(i) => i,
                        Err(e) => {
                            return Err(e);
                        },
                    };
                    let iy = match self.operand(y) {
                        Ok(i) => i,
                        Err(e) => {
                            return Err(e);
                        },
                    };
                    let ops = [ix, iy, arith.unwrap()];
                    assert(ops@ =~= seq![ix, iy, arith_of(op@).unwrap()]);
                    Ok(self.immediate(&ops))
                } else if same(op, "@") && is_fun(x) {
                    self.apply1(x, y)
                } else if same(op, ".") && is_fun(x) {
                    match y {
                        Leaf::A(ys) => {
                            proof {
                                assert(size(**y) == 1 + size_all(ys@, 0));
                            }
                            self.apply_n(x, ys)
                        },
                        Leaf::M(_, _) => self.apply_n_to(x, y),
                        Leaf::D(_, _, _) => self.apply_n_to(x, y),
                        _ => Err(CompileError::Unsupported),
                    }
                } else {
                    Err(CompileError::Unsupported)
                }
            },
            Leaf::M(op, x) => {
                if same(op, "-") {
                    match x {
                        Leaf::F(v) => self.negate(*v),
                        _ => {
                            let b = match self.compile(x) {
                                Ok(b) => b,
                                Err(e) => {
                                    return Err(e);
                                },
                            };
                            let ops = [Instr::Jmp(b), Instr::NegF];
                            assert(ops@ =~= seq![Instr::Jmp(b), Instr::NegF]);
                            Ok(self.immediate(&ops))
                        },
                    }
                } else if same(op, "!") {
                    match x {
                        Leaf::F(v) => self.iota(v.to_index()),
                        _ => {
                            let b = match self.compile(x) {
                                Ok(b) => b,
                                Err(e) => {
                                    return Err(e);
                                },
                            };
                            self.count_up(b)
                        },
                    }
                } else {
                    Err(CompileError::Unsupported)
                }
            },
            Leaf::Fun { a, v } => {
                if !kinds_ok(a) {
                    return Err(CompileError::Unsupported);
                }
                let mut ins = match self.declare(a) {
                    Ok(ins) => ins,
                    Err(e) => {
                        return Err(e);
                    },
                };
                if v.len() == 0 {
                    return Err(CompileError::Empty);
                }
                let ids = match self.compile_all(v) {
                    Ok(ids) => ids,
                    Err(e) => {
                        return Err(e);
                    },
                };
                ins.push(Instr::Jmp(ids[0]));
                ins.push(Instr::Ret);
                Ok(self.block(ins, Time::Deferred, a.len(), names(a)))
            },
        }
    }
}

/// Whether the expression is a function.
fn is_fun(l: &Leaf) -> (r: bool)
    ensures
        r == (*l is Fun),
{
    match l {
        Leaf::Fun { .. } => true,
        _ => false,
    }
}

/// Whether the expression is a literal number or a variable.
fn operand_like(l: &Leaf) -> (r: bool)
    ensures
        r == is_operand(*l),
{
    match l {
        Leaf::F(_) => true,
        Leaf::X(_) => true,
        _ => false,
    }
}

} // verus!
