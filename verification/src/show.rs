//! How values, tables, instructions and faults are shown.
//!
//! The functions here say, token by token, what the machine's renderings
//! are. A table shows as `[k: v, ..|a, ..]` with what it holds shown in the
//! same way. The depth to which tables are opened is bounded: a handle that
//! is met with no depth left, or whose table is gone, shows as the bare
//! handle `[&h]`.
use crate::bc::{Blk, BlkType, BodyView, Instr, Obj, ObjType, Time};
use crate::lisp::LeafType;
use crate::lower::Draft;
use crate::sem::{Call, Fault, Frame, Missing, State, TableView};
use crate::text::{digits, padded, put_decimal, text, tokens, Piece, Token};
use vstd::prelude::*;
use vstd::string::*;

verus! {

/// A piece of text as a token.
pub open spec fn lit(s: &str) -> Token {
    Token::Text(s@)
}

/// The value `x` with the tables it holds opened to the depth `depth`.
pub open spec fn render(tables: Map<usize, TableView>, x: Obj, depth: nat) -> Seq<Token>
    decreases depth, 0nat, 0nat,
{
    match x {
        Obj::T(h) => if depth > 0 && tables.contains_key(h) {
            let t = tables[h];
            let inner = (depth - 1) as nat;
            let pairs = seq![lit("[")] + render_pairs(tables, t.pairs, inner, t.pairs.len());
            let items = pairs.push(lit("|")) + render_items(tables, t.array, inner, t.array.len());
            items.push(lit("]"))
        } else {
            seq![x.token()]
        },
        _ => seq![x.token()],
    }
}

/// `before`, and behind it `sep` unless this is the first entry.
pub open spec fn entry(before: Seq<Token>, first: bool, sep: &str) -> Seq<Token> {
    if first {
        before
    } else {
        before.push(lit(sep))
    }
}

/// The first `upto` items, with `, ` between them.
pub open spec fn render_items(
    tables: Map<usize, TableView>,
    items: Seq<Obj>,
    depth: nat,
    upto: nat,
) -> Seq<Token>
    decreases depth, 1nat, upto,
{
    if upto == 0 {
        Seq::empty()
    } else {
        let before = render_items(tables, items, depth, (upto - 1) as nat);
        entry(before, upto == 1, ", ") + render(tables, items[upto - 1], depth)
    }
}

/// The first `upto` pairs, each as `k: v`, with `, ` between them.
pub open spec fn render_pairs(
    tables: Map<usize, TableView>,
    pairs: Seq<(Obj, Obj)>,
    depth: nat,
    upto: nat,
) -> Seq<Token>
    decreases depth, 1nat, upto,
{
    if upto == 0 {
        Seq::empty()
    } else {
        let before = render_pairs(tables, pairs, depth, (upto - 1) as nat);
        let key = entry(before, upto == 1, ", ") + render(tables, pairs[upto - 1].0, depth);
        key.push(lit(": ")) + render(tables, pairs[upto - 1].1, depth)
    }
}

/// The first `upto` pairs of a table in a listing, one to a line.
pub open spec fn list_pairs(
    tables: Map<usize, TableView>,
    pairs: Seq<(Obj, Obj)>,
    depth: nat,
    upto: nat,
) -> Seq<Token>
    decreases upto,
{
    if upto == 0 {
        Seq::empty()
    } else {
        let before = list_pairs(tables, pairs, depth, (upto - 1) as nat);
        let key = entry(before, upto == 1, "\n").push(lit("\t")) + render(
            tables,
            pairs[upto - 1].0,
            depth,
        );
        key.push(lit(" :\t")) + render(tables, pairs[upto - 1].1, depth)
    }
}

/// The first `upto` items of a table in a listing, one to a line, each
/// behind its position.
pub open spec fn list_items(
    tables: Map<usize, TableView>,
    items: Seq<Obj>,
    depth: nat,
    upto: nat,
) -> Seq<Token>
    decreases upto,
{
    if upto == 0 {
        Seq::empty()
    } else {
        let before = list_items(tables, items, depth, (upto - 1) as nat);
        entry(before, upto == 1, "\n").push(
            Token::Text("\t"@ + padded((upto - 1) as nat) + ": "@),
        ) + render(tables, items[upto - 1], depth)
    }
}

/// The table under the handle `h` in a listing: the handle, the pairs, a
/// rule, the items.
pub open spec fn list_table(tables: Map<usize, TableView>, h: usize, depth: nat) -> Seq<Token> {
    let t = tables[h];
    let pairs = seq![Token::Text(digits(h as nat) + " /\n"@)] + list_pairs(
        tables,
        t.pairs,
        depth,
        t.pairs.len(),
    );
    pairs.push(lit("\n\t--------\n")) + list_items(tables, t.array, depth, t.array.len())
}

/// The listing of the tables whose handles are under `upto`, by handle,
/// with a line break between two tables.
pub open spec fn list_tables(tables: Map<usize, TableView>, upto: nat, depth: nat) -> Seq<Token>
    decreases upto,
{
    if upto == 0 {
        Seq::empty()
    } else {
        let before = list_tables(tables, (upto - 1) as nat, depth);
        let h = (upto - 1) as usize;
        if tables.contains_key(h) {
            entry(before, before.len() == 0, "\n") + list_table(tables, h, depth)
        } else {
            before
        }
    }
}

/// The listing of the first `upto` slots that were bound, in that order:
/// each slot and its value between quotes, one to a line.
pub open spec fn list_vars(s: State, upto: nat, depth: nat) -> Seq<Token>
    decreases upto,
{
    if upto == 0 {
        Seq::empty()
    } else {
        let before = list_vars(s, (upto - 1) as nat, depth);
        let slot = s.slots[upto - 1];
        if s.vars.contains_key(slot) {
            let value = entry(before, before.len() == 0, "\n").push(
                Token::Text(padded(slot as nat) + ": '"@),
            ) + render(s.tables, s.vars[slot], depth);
            value.push(lit("'"))
        } else {
            before
        }
    }
}

/// For each of the first `upto` frames that a block's dispatch began, from
/// the outermost on, the words that name the block.
pub open spec fn list_blocks(frames: Seq<Frame>, upto: nat) -> Seq<Token>
    decreases upto,
{
    if upto == 0 {
        Seq::empty()
    } else {
        let before = list_blocks(frames, (upto - 1) as nat);
        match frames[upto - 1].call {
            Call::Block(b) => before.push(
                Token::Text("err while executing block "@ + digits(b as nat) + ": "@),
            ),
            _ => before,
        }
    }
}

/// `before`, and behind it the word `at` and the instruction at which the
/// running frame stands; `before` alone where no frame is running or the
/// frame stands at the end of the code.
pub open spec fn at_instr(before: Seq<Token>, code: Seq<Instr>, frames: Seq<Frame>) -> Seq<Token> {
    if frames.len() > 0 && frames.last().pc < code.len() {
        before.push(lit(" at ")) + code[frames.last().pc as int].listing()
    } else {
        before
    }
}

/// A fault as the machine reports it: the blocks that were running, what
/// went wrong and at which instruction, and the tables and the variables as
/// they stand.
pub open spec fn report(code: Seq<Instr>, s: State, f: Fault, depth: nat) -> Seq<Token> {
    let what = list_blocks(s.frames, s.frames.len()).push(Token::Text(f.text()));
    let tables = at_instr(what, code, s.frames).push(lit("\ntables:\n")) + list_tables(
        s.tables,
        s.next as nat,
        depth,
    );
    tables.push(lit("\nvars:\n")) + list_vars(s, s.slots.len(), depth)
}

/// A line that begins with `n`, right-aligned in a width of three, and a
/// colon.
pub open spec fn numbered(n: nat) -> Token {
    Token::Text(padded(n) + ": "@)
}

/// The first `upto` instructions, one to a line, each behind its position.
pub open spec fn list_instrs(code: Seq<Instr>, upto: nat) -> Seq<Token>
    decreases upto,
{
    if upto == 0 {
        Seq::empty()
    } else {
        let before = list_instrs(code, (upto - 1) as nat);
        (before.push(numbered((upto - 1) as nat)) + code[upto - 1].listing()).push(lit("\n"))
    }
}

/// The instructions from the position `from` up to the next `Ret` or the
/// end of the code, one to a line behind an arrow.
pub open spec fn list_run(code: Seq<Instr>, from: int, acc: Seq<Token>) -> Seq<Token>
    decreases code.len() - from,
{
    if from < 0 || from >= code.len() || code[from] == Instr::Ret {
        acc
    } else {
        list_run(code, from + 1, (acc.push(lit("    > ")) + code[from].listing()).push(lit("\n")))
    }
}

/// The first `upto` bodies: for each a line with its number, its start and
/// the number of its parameters, and under it its instructions.
pub open spec fn list_bodies(code: Seq<Instr>, bodies: Seq<BodyView>, upto: nat) -> Seq<Token>
    decreases upto,
{
    if upto == 0 {
        Seq::empty()
    } else {
        let before = list_bodies(code, bodies, (upto - 1) as nat);
        let b = bodies[upto - 1];
        list_run(
            code,
            b.start as int,
            before.push(numbered((upto - 1) as nat)).push(
                Token::Text("start "@ + digits(b.start as nat) + ", vars "@ + digits(b.vars as nat)),
            ).push(lit("\n")),
        )
    }
}

/// The first `upto` blocks, one to a line: the number, the kind, the time
/// and the body.
pub open spec fn list_blks(blocks: Seq<Blk>, upto: nat) -> Seq<Token>
    decreases upto,
{
    if upto == 0 {
        Seq::empty()
    } else {
        let before = list_blks(blocks, (upto - 1) as nat);
        let b = blocks[upto - 1];
        before.push(numbered((upto - 1) as nat)).push(
            Token::Text(b.0.label() + " "@ + b.1.label() + " "@ + digits(b.2 as nat) + "\n"@),
        )
    }
}

/// The named variables among the first `upto` slots, one to a line: the
/// slot, the name and the kind.
pub open spec fn list_names(vars: Map<usize, (&'static str, LeafType)>, upto: nat) -> Seq<Token>
    decreases upto,
{
    if upto == 0 {
        Seq::empty()
    } else {
        let before = list_names(vars, (upto - 1) as nat);
        let slot = (upto - 1) as usize;
        if vars.contains_key(slot) {
            before.push(numbered(slot as nat)).push(
                Token::Text(vars[slot].0@ + " = "@ + vars[slot].1.label() + "\n"@),
            )
        } else {
            before
        }
    }
}

/// What a compiler holds, as it is listed: the instructions, the bodies,
/// the blocks, and the named variables by slot.
pub open spec fn listing(d: Draft) -> Seq<Token> {
    let instrs = seq![lit("instrs:\n")] + list_instrs(d.instrs, d.instrs.len());
    let bodies = instrs.push(lit("bodies:\n")) + list_bodies(d.instrs, d.bodies, d.bodies.len());
    let blocks = bodies.push(lit("blocks:\n")) + list_blks(d.blocks, d.blocks.len());
    blocks.push(lit("vars:\n")) + list_names(d.vars, d.varn as nat)
}

impl BlkType {
    /// The name of the kind.
    pub open spec fn label(self) -> Seq<char> {
        match self {
            BlkType::Fun => "Fun"@,
            BlkType::One => "One"@,
            BlkType::Two => "Two"@,
        }
    }

    pub fn name(&self) -> (s: &'static str)
        ensures
            s@ == self.label(),
    {
        match self {
            BlkType::Fun => "Fun",
            BlkType::One => "One",
            BlkType::Two => "Two",
        }
    }
}

impl Time {
    /// The name of the time.
    pub open spec fn label(self) -> Seq<char> {
        match self {
            Time::Immediate => "Immediate"@,
            Time::Deferred => "Deferred"@,
        }
    }

    pub fn name(&self) -> (s: &'static str)
        ensures
            s@ == self.label(),
    {
        match self {
            Time::Immediate => "Immediate",
            Time::Deferred => "Deferred",
        }
    }
}

impl LeafType {
    /// The name of the kind.
    pub open spec fn label(self) -> Seq<char> {
        match self {
            LeafType::C => "C"@,
            LeafType::F => "F"@,
            LeafType::M => "M"@,
            LeafType::D => "D"@,
            LeafType::A => "A"@,
            LeafType::Fun => "Fun"@,
        }
    }

    pub fn name(&self) -> (s: &'static str)
        ensures
            s@ == self.label(),
    {
        match self {
            LeafType::C => "C",
            LeafType::F => "F",
            LeafType::M => "M",
            LeafType::D => "D",
            LeafType::A => "A",
            LeafType::Fun => "Fun",
        }
    }
}

impl ObjType {
    /// The name of the variant.
    pub open spec fn label(self) -> Seq<char> {
        match self {
            ObjType::C => "C"@,
            ObjType::F => "F"@,
            ObjType::U => "U"@,
            ObjType::T => "T"@,
            ObjType::Fun => "Fun"@,
        }
    }

    pub fn name(&self) -> (s: &'static str)
        ensures
            s@ == self.label(),
    {
        match self {
            ObjType::C => "C",
            ObjType::F => "F",
            ObjType::U => "U",
            ObjType::T => "T",
            ObjType::Fun => "Fun",
        }
    }
}

impl Missing {
    /// What was not found, in words.
    pub open spec fn text(self) -> Seq<char> {
        match self {
            Missing::Var(i) => "no var "@ + digits(i as nat),
            Missing::Table(h) => "no table "@ + digits(h as nat),
            Missing::Label(l) => "no label "@ + digits(l as nat),
            Missing::Block(b) => "no block "@ + digits(b as nat),
            Missing::Body(i) => "no body "@ + digits(i as nat),
            Missing::Code(p) => "no instruction "@ + digits(p as nat),
        }
    }

    pub fn message(&self) -> (s: String)
        ensures
            s@ == self.text(),
    {
        let (what, n) = match self {
            Missing::Var(i) => ("no var ", *i),
            Missing::Table(h) => ("no table ", *h),
            Missing::Label(l) => ("no label ", *l),
            Missing::Block(b) => ("no block ", *b),
            Missing::Body(i) => ("no body ", *i),
            Missing::Code(p) => ("no instruction ", *p),
        };
        let mut s = String::from_str(what);
        put_decimal(&mut s, n);
        s
    }
}

impl Fault {
    /// The fault in words.
    pub open spec fn text(self) -> Seq<char> {
        match self {
            Fault::Type { expected, found } => "invalid operand: expected "@ + expected.label()
                + ", found "@ + found.label(),
            Fault::Underflow => "no value on top of stack"@,
            Fault::Return => "invalid return: no value on top of stack"@,
            Fault::Lookup(m) => m.text(),
            Fault::Arity(b) => "deferred block called with too few arguments: block "@ + digits(
                b as nat,
            ),
            Fault::Reserved(b) => "block "@ + digits(b as nat) + " is of a reserved kind"@,
            Fault::Invalid => "invalid instruction: Ret"@,
            Fault::Full => "no table handle left"@,
            Fault::Idle => "nothing to run"@,
        }
    }

    pub fn message(&self) -> (s: String)
        ensures
            s@ == self.text(),
    {
        match self {
            Fault::Type { expected, found } => {
                let mut s = String::from_str("invalid operand: expected ");
                s.append(expected.name());
                s.append(", found ");
                s.append(found.name());
                s
            },
            Fault::Underflow => String::from_str("no value on top of stack"),
            Fault::Return => String::from_str("invalid return: no value on top of stack"),
            Fault::Lookup(m) => m.message(),
            Fault::Arity(b) => {
                let mut s = String::from_str(
                    "deferred block called with too few arguments: block ",
                );
                put_decimal(&mut s, *b);
                s
            },
            Fault::Reserved(b) => {
                let mut s = String::from_str("block ");
                put_decimal(&mut s, *b);
                s.append(" is of a reserved kind");
                s
            },
            Fault::Invalid => String::from_str("invalid instruction: Ret"),
            Fault::Full => String::from_str("no table handle left"),
            Fault::Idle => String::from_str("nothing to run"),
        }
    }
}

/// The text of the arity fault begins with the words `deferred block
/// called with too few arguments`, unbroken, and the number of the block
/// stands behind them.
pub proof fn arity_text(b: usize)
    ensures
        ({
            let words = "deferred block called with too few arguments"@;
            let text = Fault::Arity(b).text();
            &&& words.len() <= text.len()
            &&& text.subrange(0, words.len() as int) == words
            &&& text.subrange(words.len() as int, text.len() as int) == ": block "@ + digits(
                b as nat,
            )
        }),
{
    reveal_strlit("deferred block called with too few arguments");
    reveal_strlit("deferred block called with too few arguments: block ");
    reveal_strlit(": block ");
    let words = "deferred block called with too few arguments"@;
    let text = Fault::Arity(b).text();
    assert(text.subrange(0, words.len() as int) =~= words);
    assert(text.subrange(words.len() as int, text.len() as int) =~= ": block "@ + digits(b as nat));
}

impl Instr {
    /// The name of the instruction.
    pub open spec fn mnemonic(self) -> Seq<char> {
        match self {
            Instr::Push(_) => "Push"@,
            Instr::Pop => "Pop"@,
            Instr::Local(_) => "Local"@,
            Instr::Load(_) => "Load"@,
            Instr::Label(_) => "Label"@,
            Instr::AddF => "AddF"@,
            Instr::SubF => "SubF"@,
            Instr::MulF => "MulF"@,
            Instr::DivF => "DivF"@,
            Instr::NegF => "NegF"@,
            Instr::CmpF => "CmpF"@,
            Instr::Table(_) => "Table"@,
            Instr::Vec(_) => "Vec"@,
            Instr::VecFull => "VecFull"@,
            Instr::VecPush(_) => "VecPush"@,
            Instr::VecLast(_) => "VecLast"@,
            Instr::VecPop(_) => "VecPop"@,
            Instr::Apply0 => "Apply0"@,
            Instr::Apply1 => "Apply1"@,
            Instr::ApplyN => "ApplyN"@,
            Instr::Dup => "Dup"@,
            Instr::Swap2 => "Swap2"@,
            Instr::PopVec => "PopVec"@,
            Instr::Ret => "Ret"@,
            Instr::Break => "Break"@,
            Instr::Nop => "Nop"@,
            Instr::Jmp(_) => "Jmp"@,
            Instr::JmpZ(_) => "JmpZ"@,
            Instr::LJmpZ(_) => "LJmpZ"@,
            Instr::LJmpNZ(_) => "LJmpNZ"@,
        }
    }

    /// The number that the instruction carries, if it carries one.
    pub open spec fn operand(self) -> Option<usize> {
        match self {
            Instr::Local(n) => Some(n),
            Instr::Load(n) => Some(n),
            Instr::Label(n) => Some(n),
            Instr::Table(n) => Some(n),
            Instr::Vec(n) => Some(n),
            Instr::VecPush(n) => Some(n),
            Instr::VecLast(n) => Some(n),
            Instr::VecPop(n) => Some(n),
            Instr::Jmp(n) => Some(n),
            Instr::JmpZ(n) => Some(n),
            Instr::LJmpZ(n) => Some(n),
            Instr::LJmpNZ(n) => Some(n),
            _ => None,
        }
    }

    /// The instruction as it is listed: its name, and in brackets the value
    /// or the number that it carries.
    pub open spec fn listing(self) -> Seq<Token> {
        match self {
            Instr::Push(v) => seq![lit("Push("), v.token(), lit(")")],
            _ => match self.operand() {
                Some(n) => seq![Token::Text(self.mnemonic() + "("@ + digits(n as nat) + ")"@)],
                None => seq![Token::Text(self.mnemonic())],
            },
        }
    }

    pub fn name(&self) -> (s: &'static str)
        ensures
            s@ == self.mnemonic(),
    {
        match self {
            Instr::Push(_) => "Push",
            Instr::Pop => "Pop",
            Instr::Local(_) => "Local",
            Instr::Load(_) => "Load",
            Instr::Label(_) => "Label",
            Instr::AddF => "AddF",
            Instr::SubF => "SubF",
            Instr::MulF => "MulF",
            Instr::DivF => "DivF",
            Instr::NegF => "NegF",
            Instr::CmpF => "CmpF",
            Instr::Table(_) => "Table",
            Instr::Vec(_) => "Vec",
            Instr::VecFull => "VecFull",
            Instr::VecPush(_) => "VecPush",
            Instr::VecLast(_) => "VecLast",
            Instr::VecPop(_) => "VecPop",
            Instr::Apply0 => "Apply0",
            Instr::Apply1 => "Apply1",
            Instr::ApplyN => "ApplyN",
            Instr::Dup => "Dup",
            Instr::Swap2 => "Swap2",
            Instr::PopVec => "PopVec",
            Instr::Ret => "Ret",
            Instr::Break => "Break",
            Instr::Nop => "Nop",
            Instr::Jmp(_) => "Jmp",
            Instr::JmpZ(_) => "JmpZ",
            Instr::LJmpZ(_) => "LJmpZ",
            Instr::LJmpNZ(_) => "LJmpNZ",
        }
    }

    fn number(&self) -> (r: Option<usize>)
        ensures
            r == self.operand(),
    {
        match self {
            Instr::Local(n) => Some(*n),
            Instr::Load(n) => Some(*n),
            Instr::Label(n) => Some(*n),
            Instr::Table(n) => Some(*n),
            Instr::Vec(n) => Some(*n),
            Instr::VecPush(n) => Some(*n),
            Instr::VecLast(n) => Some(*n),
            Instr::VecPop(n) => Some(*n),
            Instr::Jmp(n) => Some(*n),
            Instr::JmpZ(n) => Some(*n),
            Instr::LJmpZ(n) => Some(*n),
            Instr::LJmpNZ(n) => Some(*n),
            _ => None,
        }
    }

    /// Renders the instruction as it is listed.
    pub fn fmt(&self) -> (r: Vec<Piece>)
        ensures
            tokens(r@) == self.listing(),
    {
        let mut r: Vec<Piece> = Vec::new();
        match self {
            Instr::Push(v) => {
                r.push(text("Push("));
                r.push(v.fmt());
                r.push(text(")"));
            },
            _ => {
                let mut s = String::from_str(self.name());
                match self.number() {
                    Some(n) => {
                        s.append("(");
                        put_decimal(&mut s, n);
                        s.append(")");
                    },
                    None => {},
                }
                r.push(Piece::Text(s));
            },
        }
        assert(tokens(r@) =~= self.listing());
        r
    }
}

} // verus!
