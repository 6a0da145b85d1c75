//! The bytecode: values, instructions, bodies and blocks.
use crate::num::Double;
use crate::text::{decimal, digits, put_decimal, Piece, Token};
use vstd::prelude::*;
use vstd::string::*;

verus! {

/// A value of the machine.
#[derive(Debug, Copy, Clone, PartialEq, Eq, Structural)]
pub enum Obj {
    /// A character.
    C(char),
    /// A number; zero is false and every other number is true.
    F(Double),
    /// A raw count or position.
    U(usize),
    /// A handle of a table on the machine's heap.
    T(usize),
    /// A function: the number of its block.
    Fun(usize),
}

/// The variant of a value, without what it holds.
#[derive(Debug, Copy, Clone, PartialEq, Eq, Structural)]
pub enum ObjType {
    C,
    F,
    U,
    T,
    Fun,
}

impl Obj {
    /// The variant of this value.
    pub open spec fn variant(&self) -> ObjType {
        match *self {
            Obj::C(_) => ObjType::C,
            Obj::F(_) => ObjType::F,
            Obj::U(_) => ObjType::U,
            Obj::T(_) => ObjType::T,
            Obj::Fun(_) => ObjType::Fun,
        }
    }

    /// The value shown by itself: a character as it is, a number as a number
    /// token, a count in decimal, a table as `[&h]` and a function as `{&b}`.
    pub open spec fn token(self) -> Token {
        match self {
            Obj::C(c) => Token::Text(seq![c]),
            Obj::F(d) => Token::Num(d),
            Obj::U(n) => Token::Text(digits(n as nat)),
            Obj::T(h) => Token::Text("[&"@ + digits(h as nat) + "]"@),
            Obj::Fun(b) => Token::Text("{&"@ + digits(b as nat) + "}"@),
        }
    }

    #[verifier::when_used_as_spec(variant)]
    pub fn kind(&self) -> (k: ObjType)
        ensures
            k == self.variant(),
    {
        match self {
            Obj::C(_) => ObjType::C,
            Obj::F(_) => ObjType::F,
            Obj::U(_) => ObjType::U,
            Obj::T(_) => ObjType::T,
            Obj::Fun(_) => ObjType::Fun,
        }
    }

    /// Renders the value by itself; a table shows as its bare handle.
    pub fn fmt(&self) -> (p: Piece)
        ensures
            p@ == self.token(),
    {
        match self {
            Obj::C(c) => Piece::Char(*c),
            Obj::F(d) => Piece::Num(*d),
            Obj::U(n) => Piece::Text(decimal(*n)),
            Obj::T(h) => {
                let mut s = String::from_str("[&");
                put_decimal(&mut s, *h);
                s.append("]");
                Piece::Text(s)
            },
            Obj::Fun(b) => {
                let mut s = String::from_str("{&");
                put_decimal(&mut s, *b);
                s.append("}");
                Piece::Text(s)
            },
        }
    }
}

/// One instruction.
#[derive(Debug, Copy, Clone, PartialEq, Eq, Structural)]
pub enum Instr {
    /// Push a value.
    Push(Obj),
    /// Discard the top, if there is one.
    Pop,
    /// Pop the top into a variable slot.
    Local(usize),
    /// Push the value of a variable slot.
    Load(usize),
    /// The target of the labelled jumps with the same number.
    Label(usize),
    AddF,
    SubF,
    MulF,
    DivF,
    NegF,
    CmpF,
    /// Pop twice as many values and make a table of that many pairs.
    Table(usize),
    /// Pop that many values and make a vector of them.
    Vec(usize),
    /// Pop every value and make a vector of them.
    VecFull,
    /// Pop a value and append it to the vector held by a variable.
    VecPush(usize),
    /// Push the last item of the vector held by a variable.
    VecLast(usize),
    /// Drop the last item of the vector held by a variable.
    VecPop(usize),
    /// Call the function on top with no argument.
    Apply0,
    /// Call the function under the top with the top as its argument.
    Apply1,
    /// Call the function on top with the rest of the stack as its arguments.
    ApplyN,
    /// Push a copy of the top.
    Dup,
    /// Swap the two topmost values.
    Swap2,
    /// Pop a vector, push its items, and free it.
    PopVec,
    /// The end of a body.
    Ret,
    Break,
    Nop,
    /// Run a block and push its result.
    Jmp(usize),
    /// Pop a number; run a block and push its result if the number is zero.
    JmpZ(usize),
    /// Pop a number; go to a label if it is zero.
    LJmpZ(usize),
    /// Pop a number; go to a label if it is not zero.
    LJmpNZ(usize),
}

/// The kind of a block. Only `Fun` is in use.
#[derive(Debug, Copy, Clone, PartialEq, Eq, Structural)]
pub enum BlkType {
    Fun,
    One,
    Two,
}

/// When a block runs: as soon as it is dispatched, or only once its
/// arguments are on the stack.
#[derive(Debug, Copy, Clone, PartialEq, Eq, Structural)]
pub enum Time {
    Immediate,
    Deferred,
}

/// A block: its kind, its time, and the number of its body.
#[derive(Debug, Copy, Clone, PartialEq, Eq, Structural)]
pub struct Blk(pub BlkType, pub Time, pub usize);

impl Blk {
    /// The number of the block's body.
    pub open spec fn body(&self) -> usize {
        self.2
    }

    #[verifier::when_used_as_spec(body)]
    pub fn idx(&self) -> (i: usize)
        ensures
            i == self.2,
    {
        self.2
    }
}

/// A body: a run of instructions from `start` up to the next `Ret`.
#[derive(Debug, Clone, PartialEq)]
pub struct Body<'a> {
    /// Where the body begins in the instruction buffer.
    pub start: usize,
    /// How many arguments the body takes off the stack.
    pub vars: usize,
    /// The parameters, in source order.
    pub names: Vec<(&'a str, ObjType)>,
    /// For each name, whether it is visible from outside.
    pub export: Vec<bool>,
}

/// A body with its lists as sequences.
pub struct BodyView<'a> {
    pub start: usize,
    pub vars: usize,
    pub names: Seq<(&'a str, ObjType)>,
    pub export: Seq<bool>,
}

impl<'a> View for Body<'a> {
    type V = BodyView<'a>;

    open spec fn view(&self) -> BodyView<'a> {
        BodyView { start: self.start, vars: self.vars, names: self.names@, export: self.export@ }
    }
}

/// The bodies of a sequence, each with its lists as sequences.
pub open spec fn body_views<'a>(bodies: Seq<Body<'a>>) -> Seq<BodyView<'a>> {
    bodies.map_values(|b: Body<'a>| b@)
}

/// The items of `items` whose flag in `flags` is set, in their order.
pub open spec fn chosen<A>(items: Seq<A>, flags: Seq<bool>) -> Seq<A>
    recommends
        items.len() == flags.len(),
    decreases items.len(),
{
    if items.len() == 0 {
        Seq::empty()
    } else if flags.last() {
        chosen(items.drop_last(), flags.drop_last()).push(items.last())
    } else {
        chosen(items.drop_last(), flags.drop_last())
    }
}

impl<'a> Body<'a> {
    /// The names that are visible from outside, in source order.
    pub fn exported(&self) -> (r: Vec<(&'a str, ObjType)>)
        requires
            self.names.len() == self.export.len(),
        ensures
            r@ == chosen(self.names@, self.export@),
    {
        let mut r: Vec<(&'a str, ObjType)> = Vec::new();
        let mut i: usize = 0;
        while i < self.names.len()
            invariant
                i <= self.names.len(),
                self.names.len() == self.export.len(),
                r@ == chosen(self.names@.take(i as int), self.export@.take(i as int)),
            decreases self.names.len() - i,
        {
            proof {
                let n = self.names@.take(i + 1);
                let e = self.export@.take(i + 1);
                assert(n.drop_last() =~= self.names@.take(i as int));
                assert(e.drop_last() =~= self.export@.take(i as int));
            }
            if self.export[i] {
                r.push(self.names[i]);
            }
            i = i + 1;
        }
        proof {
            assert(self.names@.take(i as int) =~= self.names@);
            assert(self.export@.take(i as int) =~= self.export@);
        }
        r
    }
}

} // verus!
