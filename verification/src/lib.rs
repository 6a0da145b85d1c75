//! A compiler from expressions to bytecode, and a stack machine that runs
//! the bytecode.
//!
//! `lisp` holds the expressions and the compiler, `bc` the bytecode, `vm`
//! the machine. `lower` says what the compiler produces, `sem` what the
//! instructions mean and `show` how values are rendered; the code is
//! verified against the three. Numbers are carried as bits (`num`), and
//! what is shown to a reader is text with holes for numbers (`text`).
//! `shape` proves that what the compiler makes is well formed, `sound` that
//! such a program never sends the machine to a block, a body or a label
//! that is not there, and `laws` what else holds of the compiler and the
//! machine together.
//!
//! The machine never computes a sum, a difference, a product or a quotient
//! and never writes a number in decimal: its host does, and the machine
//! tells it when.
pub mod bc;
pub mod laws;
pub mod lisp;
pub mod lower;
pub mod num;
pub mod sem;
pub mod shape;
pub mod show;
pub mod sound;
pub mod text;
pub mod vm;

use crate::bc::{Body, Instr};
use vstd::pervasive::unreached;
use vstd::prelude::*;

verus! {

/// The value of a result that is known to be one.
pub fn or_fatal<X, Y>(x: Result<X, Y>) -> (r: X)
    requires
        x is Ok,
    ensures
        x == Ok::<X, Y>(r),
{
    match x {
        Ok(r) => r,
        Err(_) => unreached(),
    }
}

/// The instructions from a position on, handed out one by one up to the
/// next `Ret`.
#[derive(Debug)]
pub struct BodyIterator<'a> {
    /// The instruction buffer.
    pub src: &'a [Instr],
    /// The position of the next instruction.
    pub pos: usize,
}

impl<'a> BodyIterator<'a> {
    /// The instructions that are left, a `Ret` among them or not.
    pub open spec fn rest(&self) -> Seq<Instr> {
        if self.pos <= self.src@.len() {
            self.src@.skip(self.pos as int)
        } else {
            Seq::empty()
        }
    }

    /// The instructions of `src` from the start of the body `b` on.
    pub fn from(src: &'a [Instr], b: &Body) -> (it: Self)
        requires
            b.start <= src@.len(),
        ensures
            it.src == src,
            it.pos == b.start,
            it.rest() == src@.skip(b.start as int),
    {
        BodyIterator { src, pos: b.start }
    }

    /// The next instruction, and nothing at a `Ret` or at the end of the
    /// buffer. A `Ret` is passed over, so that what is left begins behind
    /// it.
    pub fn next(&mut self) -> (r: Option<&'a Instr>)
        ensures
            final(self).src == old(self).src,
            match r {
                Some(x) => old(self).rest().len() > 0 && *x == old(self).rest()[0] && *x
                    != Instr::Ret && final(self).rest() == old(self).rest().skip(1),
                None => if old(self).rest().len() == 0 {
                    final(self).rest() == old(self).rest()
                } else {
                    old(self).rest()[0] == Instr::Ret && final(self).rest() == old(
                        self,
                    ).rest().skip(1)
                },
            },
    {
        if self.pos >= self.src.len() {
            return None;
        }
        let x = &self.src[self.pos];
        self.pos = self.pos + 1;
        assert(self.rest() =~= old(self).rest().skip(1));
        match x {
            Instr::Ret => None,
            _ => Some(x),
        }
    }
}

} // verus!
