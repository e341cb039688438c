//! The code that the native backend emits: functions made of basic blocks, in
//! a form that maps one for one to the instructions of an LLVM builder.
//!
//! Every instruction goes to the end of the block that is current. A block
//! takes no instruction after the one that leaves it.

use crate::text::texts;
use vstd::prelude::*;

verus! {

/// How a word of memory is read or written.
#[derive(Debug, Clone, Copy, PartialEq, Eq, Structural)]
pub enum Ty {
    Byte,
    Word,
    Real,
    Ptr,
}

/// An operand.
#[derive(Debug, Clone, Copy, PartialEq, Eq, Structural)]
pub enum Val {
    /// A 64-bit number.
    Word(i64),
    /// A 32-bit number.
    Half(i32),
    /// An 8-bit number.
    Byte(u8),
    Null,
    /// A floating-point constant, by its place among the module's constants.
    Real(usize),
    /// The address of a constant C string, by its place among the module's
    /// texts.
    Text(usize),
    /// The address of the body of a counted string constant, by its place among
    /// the module's texts.
    Str(usize),
    /// What the instruction of that number in the same function gave.
    Reg(usize),
    /// A parameter of the function.
    Param(usize),
    /// The address of a slot of the function's frame.
    Slot(usize),
    /// The address of a variable of the module.
    Global(usize),
}

#[derive(Debug, Clone, Copy, PartialEq, Eq, Structural)]
pub enum Arith {
    Add,
    Sub,
    Mul,
    Div,
    Rem,
    And,
    Or,
}

#[derive(Debug, Clone, Copy, PartialEq, Eq, Structural)]
pub enum FloatArith {
    Add,
    Sub,
    Mul,
    Div,
    Rem,
}

#[derive(Debug, Clone, Copy, PartialEq, Eq, Structural)]
pub enum Cond {
    Eq,
    Ne,
    Lt,
    Le,
    Gt,
    Ge,
}

#[derive(Debug, Clone, Copy, PartialEq, Eq, Structural)]
pub enum FloatCond {
    Eq,
    Ne,
    Lt,
    Le,
    Gt,
    Ge,
    /// Either side is not a number.
    Unordered,
}

#[derive(Debug, Clone, Copy, PartialEq, Eq, Structural)]
pub enum Cast {
    /// A truth value as a word.
    BoolToWord,
    /// A 32-bit number as a word, with its sign.
    HalfToWord,
    WordToHalf,
    /// A word whose bits are those of a floating-point number.
    WordToReal,
    RealToWord,
    WordToPtr,
    PtrToWord,
}

/// An instruction.
#[derive(Debug)]
pub enum Op {
    Arith(Arith, Val, Val),
    Neg(Val),
    Float(FloatArith, Val, Val),
    FloatNeg(Val),
    Compare(Cond, Val, Val),
    FloatCompare(FloatCond, Val, Val),
    Not(Val),
    Cast(Cast, Val),
    Load(Ty, Val),
    /// Put a value at an address.
    Store(Val, Val),
    /// The address some elements past another.
    Offset(Ty, Val, Val),
    /// Bytes of the frame, up to the next time the stack is restored.
    Reserve(Val),
    Select(Val, Val, Val),
    /// A call that gives a value of a type.
    Call(Ty, String, Vec<Val>),
    /// A call that gives a 32-bit number.
    CallHalf(String, Vec<Val>),
    /// A call that gives nothing.
    Run(String, Vec<Val>),
    /// The value that belongs to the block from which control came.
    Phi(Vec<(Val, usize)>),
    Jump(usize),
    Branch(Val, usize, usize),
    Return(Option<Val>),
    Unreachable,
}

/// The model of an `Op`.
pub enum OpV {
    Arith(Arith, Val, Val),
    Neg(Val),
    Float(FloatArith, Val, Val),
    FloatNeg(Val),
    Compare(Cond, Val, Val),
    FloatCompare(FloatCond, Val, Val),
    Not(Val),
    Cast(Cast, Val),
    Load(Ty, Val),
    Store(Val, Val),
    Offset(Ty, Val, Val),
    Reserve(Val),
    Select(Val, Val, Val),
    Call(Ty, Seq<char>, Seq<Val>),
    CallHalf(Seq<char>, Seq<Val>),
    Run(Seq<char>, Seq<Val>),
    Phi(Seq<(Val, usize)>),
    Jump(usize),
    Branch(Val, usize, usize),
    Return(Option<Val>),
    Unreachable,
}

impl Op {
    pub open spec fn view(&self) -> OpV {
        match self {
            Op::Arith(k, a, b) => OpV::Arith(*k, *a, *b),
            Op::Neg(a) => OpV::Neg(*a),
            Op::Float(k, a, b) => OpV::Float(*k, *a, *b),
            Op::FloatNeg(a) => OpV::FloatNeg(*a),
            Op::Compare(k, a, b) => OpV::Compare(*k, *a, *b),
            Op::FloatCompare(k, a, b) => OpV::FloatCompare(*k, *a, *b),
            Op::Not(a) => OpV::Not(*a),
            Op::Cast(k, a) => OpV::Cast(*k, *a),
            Op::Load(t, a) => OpV::Load(*t, *a),
            Op::Store(a, v) => OpV::Store(*a, *v),
            Op::Offset(t, a, n) => OpV::Offset(*t, *a, *n),
            Op::Reserve(n) => OpV::Reserve(*n),
            Op::Select(c, a, b) => OpV::Select(*c, *a, *b),
            Op::Call(t, f, args) => OpV::Call(*t, f@, args@),
            Op::CallHalf(f, args) => OpV::CallHalf(f@, args@),
            Op::Run(f, args) => OpV::Run(f@, args@),
            Op::Phi(vs) => OpV::Phi(vs@),
            Op::Jump(b) => OpV::Jump(*b),
            Op::Branch(c, a, b) => OpV::Branch(*c, *a, *b),
            Op::Return(v) => OpV::Return(*v),
            Op::Unreachable => OpV::Unreachable,
        }
    }

    /// Whether control leaves the block here.
    pub fn leaves(&self) -> (r: bool)
        ensures
            r == self@.leaves(),
    {
        matches!(self, Op::Jump(_) | Op::Branch(_, _, _) | Op::Return(_) | Op::Unreachable)
    }
}

impl OpV {
    /// Whether control leaves the block here.
    pub open spec fn leaves(self) -> bool {
        self is Jump || self is Branch || self is Return || self is Unreachable
    }
}

/// An instruction, the block it stands in, and the name of what it gives.
#[derive(Debug)]
pub struct Inst {
    pub block: usize,
    pub name: String,
    pub op: Op,
}

/// The model of an `Inst`.
pub struct InstV {
    pub block: usize,
    pub name: Seq<char>,
    pub op: OpV,
}

impl Inst {
    pub open spec fn view(&self) -> InstV {
        InstV { block: self.block, name: self.name@, op: self.op@ }
    }
}

/// What a slot of a frame holds.
#[derive(Debug, Clone, Copy, PartialEq, Eq, Structural)]
pub enum Room {
    Word,
    Real,
    Ptr,
    Bytes(u32),
}

/// A slot of a frame.
#[derive(Debug)]
pub struct Slot {
    pub room: Room,
    pub name: String,
}

/// A basic block: its name, and whether control leaves it already.
#[derive(Debug)]
pub struct Block {
    pub name: String,
    pub left: bool,
}

/// A function. Its parameters are words.
#[derive(Debug)]
pub struct Func {
    pub name: String,
    /// What each parameter is: a word or an address.
    pub params: Vec<Ty>,
    pub gives: bool,
    pub slots: Vec<Slot>,
    pub blocks: Vec<Block>,
    pub insts: Vec<Inst>,
}

/// The model of a `Func`.
pub struct FuncV {
    pub name: Seq<char>,
    pub params: Seq<Ty>,
    pub gives: bool,
    pub slots: Seq<(Room, Seq<char>)>,
    pub blocks: Seq<(Seq<char>, bool)>,
    pub insts: Seq<InstV>,
}

pub open spec fn slots_of(s: Seq<Slot>) -> Seq<(Room, Seq<char>)> {
    s.map_values(|x: Slot| (x.room, x.name@))
}

pub open spec fn blocks_of(s: Seq<Block>) -> Seq<(Seq<char>, bool)> {
    s.map_values(|x: Block| (x.name@, x.left))
}

pub open spec fn insts_of(s: Seq<Inst>) -> Seq<InstV> {
    s.map_values(|x: Inst| x@)
}

impl Func {
    pub open spec fn view(&self) -> FuncV {
        FuncV {
            name: self.name@,
            params: self.params@,
            gives: self.gives,
            slots: slots_of(self.slots@),
            blocks: blocks_of(self.blocks@),
            insts: insts_of(self.insts@),
        }
    }
}

pub open spec fn funcs_of(s: Seq<Func>) -> Seq<FuncV> {
    s.map_values(|x: Func| x@)
}

/// Everything that goes into an executable, and where the next instruction
/// goes: into the last of the functions.
#[derive(Debug)]
pub struct Module {
    pub texts: Vec<String>,
    /// The floating-point constants, as they were written.
    pub reals: Vec<String>,
    /// The variables of the module. Each of them is zero at first.
    pub globals: Vec<Slot>,
    pub done: Vec<Func>,
    pub func: Func,
    pub at: usize,
}

/// The model of a `Module`.
pub struct ModuleV {
    pub texts: Seq<Seq<char>>,
    pub reals: Seq<Seq<char>>,
    pub globals: Seq<(Room, Seq<char>)>,
    pub done: Seq<FuncV>,
    pub func: FuncV,
    pub at: usize,
}

impl FuncV {
    /// A function that holds nothing but its entry block.
    pub open spec fn new(name: Seq<char>, params: Seq<Ty>, gives: bool) -> FuncV {
        FuncV {
            name,
            params,
            gives,
            slots: Seq::empty(),
            blocks: seq![("entry"@, false)],
            insts: Seq::empty(),
        }
    }

    /// Whether control has left a block.
    pub open spec fn is_left(self, b: usize) -> bool {
        b >= self.blocks.len() || self.blocks[b as int].1
    }

    /// The function with one more instruction at the end of a block. A block
    /// that control has left stays as it is.
    pub open spec fn push(self, b: usize, op: OpV, name: Seq<char>) -> FuncV {
        if self.is_left(b) {
            self
        } else {
            FuncV {
                insts: self.insts.push(InstV { block: b, name, op }),
                blocks: if op.leaves() {
                    self.blocks.update(b as int, (self.blocks[b as int].0, true))
                } else {
                    self.blocks
                },
                ..self
            }
        }
    }

    /// The function with every block from `i` on left.
    pub open spec fn seal(self, i: usize) -> FuncV
        decreases self.blocks.len() - i,
    {
        if i >= self.blocks.len() || i == usize::MAX {
            self
        } else {
            self.push(i, OpV::Unreachable, ""@).seal((i + 1) as usize)
        }
    }

    /// Each instruction stands in a block that there is. A block is marked as
    /// left if and only if the last of its instructions leaves it; none before
    /// that one does.
    pub open spec fn ordered(self) -> bool {
        &&& self.blocks.len() <= usize::MAX
        &&& forall|i: int|
            0 <= i < self.insts.len() ==> (#[trigger] self.insts[i]).block < self.blocks.len()
        &&& forall|i: int, j: int|
            #![trigger self.insts[i], self.insts[j]]
            0 <= i < j < self.insts.len() && self.insts[i].block == self.insts[j].block
                ==> !self.insts[i].op.leaves()
        &&& forall|i: int|
            0 <= i < self.insts.len() && (#[trigger] self.insts[i]).op.leaves()
                ==> self.blocks[self.insts[i].block as int].1
        &&& forall|b: int|
            0 <= b < self.blocks.len() && (#[trigger] self.blocks[b]).1 ==> exists|i: int|
                0 <= i < self.insts.len() && (#[trigger] self.insts[i]).block == b
                    && self.insts[i].op.leaves()
    }
}

impl FuncV {
    /// The function is in order, has an entry, and control leaves every block
    /// of it: each ends in exactly one instruction that leaves it.
    pub open spec fn complete(self) -> bool {
        &&& self.ordered()
        &&& self.blocks.len() > 0
        &&& forall|b: int| 0 <= b < self.blocks.len() ==> (#[trigger] self.blocks[b]).1
    }
}

impl ModuleV {
    /// The functions that are done are complete, and the one that is being made
    /// is in order.
    pub open spec fn sound(self) -> bool {
        &&& self.func.ordered()
        &&& self.func.blocks.len() > 0
        &&& forall|i: int| 0 <= i < self.done.len() ==> (#[trigger] self.done[i]).complete()
    }

    /// The module before anything is in it.
    pub open spec fn new() -> ModuleV {
        ModuleV {
            texts: Seq::empty(),
            reals: Seq::empty(),
            globals: Seq::empty(),
            done: Seq::empty(),
            func: FuncV::new(""@, Seq::empty(), false),
            at: 0,
        }
    }

    /// An instruction at the end of the current block, and what it gives.
    pub open spec fn emit(self, op: OpV, name: Seq<char>) -> (ModuleV, Val) {
        (
            ModuleV { func: self.func.push(self.at, op, name), ..self },
            Val::Reg(self.func.insts.len() as usize),
        )
    }

    /// One more block of the function.
    pub open spec fn block(self, name: Seq<char>) -> (ModuleV, usize) {
        (
            ModuleV {
                func: FuncV { blocks: self.func.blocks.push((name, false)), ..self.func },
                ..self
            },
            self.func.blocks.len() as usize,
        )
    }

    /// The next instruction goes to the end of a block.
    pub open spec fn position(self, b: usize) -> ModuleV {
        ModuleV { at: b, ..self }
    }

    /// A slot of the function's frame.
    pub open spec fn slot(self, room: Room, name: Seq<char>) -> (ModuleV, Val) {
        (
            ModuleV {
                func: FuncV { slots: self.func.slots.push((room, name)), ..self.func },
                ..self
            },
            Val::Slot(self.func.slots.len() as usize),
        )
    }

    /// A variable of the module.
    pub open spec fn global(self, room: Room, name: Seq<char>) -> (ModuleV, Val) {
        (
            ModuleV { globals: self.globals.push((room, name)), ..self },
            Val::Global(self.globals.len() as usize),
        )
    }

    /// A text among the constants, and its place there.
    pub open spec fn text(self, t: Seq<char>) -> (ModuleV, usize) {
        (ModuleV { texts: self.texts.push(t), ..self }, self.texts.len() as usize)
    }

    /// A floating-point constant.
    pub open spec fn number(self, t: Seq<char>) -> (ModuleV, Val) {
        (
            ModuleV { reals: self.reals.push(t), ..self },
            Val::Real(self.reals.len() as usize),
        )
    }

    /// Start a function.
    pub open spec fn begin(self, name: Seq<char>, params: Seq<Ty>, gives: bool) -> ModuleV {
        ModuleV { func: FuncV::new(name, params, gives), at: 0, ..self }
    }

    /// The function is complete.
    pub open spec fn finish(self) -> ModuleV {
        ModuleV {
            done: self.done.push(self.func.seal(0)),
            func: FuncV::new(""@, Seq::empty(), false),
            at: 0,
            ..self
        }
    }

    /// Whether control has left the current block.
    pub open spec fn is_left(self) -> bool {
        self.func.is_left(self.at)
    }
}

impl Func {
    fn new(name: String, params: Vec<Ty>, gives: bool) -> (f: Self)
        ensures
            f@ == FuncV::new(name@, params@, gives),
    {
        let mut blocks: Vec<Block> = Vec::new();
        blocks.push(Block { name: "entry".to_owned(), left: false });
        let f = Func {
            name,
            params,
            gives,
            slots: Vec::new(),
            blocks,
            insts: Vec::new(),
        };
        assert(slots_of(f.slots@) =~= Seq::empty());
        assert(insts_of(f.insts@) =~= Seq::empty());
        assert(blocks_of(f.blocks@) =~= seq![("entry"@, false)]);
        f
    }

    /// Whether control has left a block.
    pub fn is_left(&self, b: usize) -> (r: bool)
        ensures
            r == self@.is_left(b),
    {
        assert(blocks_of(self.blocks@).len() == self.blocks@.len());
        b >= self.blocks.len() || self.blocks[b].left
    }

    fn push(&mut self, b: usize, op: Op, name: &str)
        ensures
            final(self)@ == old(self)@.push(b, op@, name@),
    {
        if self.is_left(b) {
            return;
        }
        let ghost before = *self;
        let ghost ov = op@;
        let leaves = op.leaves();
        let inst = Inst { block: b, name: name.to_owned(), op };
        let ghost iv = inst@;
        self.insts.push(inst);
        assert(insts_of(self.insts@) =~= insts_of(before.insts@).push(iv));
        if leaves {
            let label = self.blocks[b].name.clone();
            self.blocks.set(b, Block { name: label, left: true });
            assert(blocks_of(self.blocks@) =~= blocks_of(before.blocks@).update(
                b as int,
                (blocks_of(before.blocks@)[b as int].0, true),
            ));
        }
    }

    fn seal(&mut self)
        ensures
            final(self)@ == old(self)@.seal(0),
    {
        let ghost start = self@;
        let mut i: usize = 0;
        while i < self.blocks.len()
            invariant
                i <= self.blocks@.len(),
                start == old(self)@,
                self@.seal(i) == start.seal(0),
            decreases self.blocks@.len() - i,
        {
            assert(self@.blocks.len() == self.blocks@.len());
            let ghost n = self.blocks@.len();
            self.push(i, Op::Unreachable, "");
            assert(self@.blocks.len() == self.blocks@.len());
            i += 1;
        }
        assert(self@.blocks.len() == self.blocks@.len());
    }
}

impl Module {
    pub open spec fn view(&self) -> ModuleV {
        ModuleV {
            texts: texts(self.texts@),
            reals: texts(self.reals@),
            globals: slots_of(self.globals@),
            done: funcs_of(self.done@),
            func: self.func@,
            at: self.at,
        }
    }

    pub fn new() -> (m: Self)
        ensures
            m@ == ModuleV::new(),
    {
        let m = Module {
            texts: Vec::new(),
            reals: Vec::new(),
            globals: Vec::new(),
            done: Vec::new(),
            func: Func::new("".to_owned(), Vec::new(), false),
            at: 0,
        };
        assert(texts(m.texts@) =~= Seq::empty());
        assert(texts(m.reals@) =~= Seq::empty());
        assert(slots_of(m.globals@) =~= Seq::empty());
        assert(funcs_of(m.done@) =~= Seq::empty());
        m
    }

    /// An instruction at the end of the current block, and what it gives.
    pub fn emit(&mut self, op: Op, name: &str) -> (r: Val)
        ensures
            (final(self)@, r) == old(self)@.emit(op@, name@),
    {
        assert(insts_of(self.func.insts@).len() == self.func.insts@.len());
        let n = self.func.insts.len();
        self.func.push(self.at, op, name);
        Val::Reg(n)
    }

    /// One more block of the function.
    pub fn block(&mut self, name: &str) -> (b: usize)
        ensures
            (final(self)@, b) == old(self)@.block(name@),
            old(self)@.func.blocks.len() < usize::MAX,
    {
        let ghost before = self.func.blocks@;
        assert(blocks_of(before).len() == before.len());
        let n = self.func.blocks.len();
        self.func.blocks.push(Block { name: name.to_owned(), left: false });
        assert(blocks_of(self.func.blocks@) =~= blocks_of(before).push((name@, false)));
        assert(self.func.blocks.len() == n + 1);
        n
    }

    /// The next instruction goes to the end of a block.
    pub fn position(&mut self, b: usize)
        ensures
            final(self)@ == old(self)@.position(b),
    {
        self.at = b;
    }

    /// A slot of the function's frame.
    pub fn slot(&mut self, room: Room, name: &str) -> (r: Val)
        ensures
            (final(self)@, r) == old(self)@.slot(room, name@),
    {
        let ghost before = self.func.slots@;
        assert(slots_of(before).len() == before.len());
        let n = self.func.slots.len();
        self.func.slots.push(Slot { room, name: name.to_owned() });
        assert(slots_of(self.func.slots@) =~= slots_of(before).push((room, name@)));
        Val::Slot(n)
    }

    /// A variable of the module.
    pub fn global(&mut self, room: Room, name: &str) -> (r: Val)
        ensures
            (final(self)@, r) == old(self)@.global(room, name@),
    {
        let ghost before = self.globals@;
        assert(slots_of(before).len() == before.len());
        let n = self.globals.len();
        self.globals.push(Slot { room, name: name.to_owned() });
        assert(slots_of(self.globals@) =~= slots_of(before).push((room, name@)));
        Val::Global(n)
    }

    /// A text among the constants, and its place there.
    pub fn text(&mut self, t: &str) -> (n: usize)
        ensures
            (final(self)@, n) == old(self)@.text(t@),
    {
        let ghost before = self.texts@;
        assert(texts(before).len() == before.len());
        let n = self.texts.len();
        self.texts.push(t.to_owned());
        assert(texts(self.texts@) =~= texts(before).push(t@));
        n
    }

    /// A floating-point constant.
    pub fn number(&mut self, t: &str) -> (r: Val)
        ensures
            (final(self)@, r) == old(self)@.number(t@),
    {
        let ghost before = self.reals@;
        assert(texts(before).len() == before.len());
        let n = self.reals.len();
        self.reals.push(t.to_owned());
        assert(texts(self.reals@) =~= texts(before).push(t@));
        Val::Real(n)
    }

    /// Start a function.
    pub fn begin(&mut self, name: &str, params: Vec<Ty>, gives: bool)
        ensures
            final(self)@ == old(self)@.begin(name@, params@, gives),
    {
        self.func = Func::new(name.to_owned(), params, gives);
        self.at = 0;
    }

    /// The function is complete.
    pub fn finish(&mut self)
        ensures
            final(self)@ == old(self)@.finish(),
    {
        let ghost before = self.done@;
        self.func.seal();
        let mut whole = Func::new("".to_owned(), Vec::new(), false);
        std::mem::swap(&mut whole, &mut self.func);
        let ghost w = whole@;
        self.done.push(whole);
        assert(funcs_of(self.done@) =~= funcs_of(before).push(w));
        self.at = 0;
    }

    /// Whether control has left the current block.
    pub fn is_left(&self) -> (r: bool)
        ensures
            r == self@.is_left(),
    {
        self.func.is_left(self.at)
    }
}

// ---- laws ----

/// A function that has only its entry block is in order.
pub proof fn law_new_function_is_ordered(name: Seq<char>, params: Seq<Ty>, gives: bool)
    ensures
        FuncV::new(name, params, gives).ordered(),
{
}

/// One more instruction keeps a function in order.
pub proof fn law_push_keeps_order(f: FuncV, b: usize, op: OpV, name: Seq<char>)
    requires
        f.ordered(),
    ensures
        f.push(b, op, name).ordered(),
{
    let g = f.push(b, op, name);
    if !f.is_left(b) {
        let n = f.insts.len() as int;
        assert(g.insts[n] == (InstV { block: b, name, op }));
        assert forall|i: int, j: int|
            #![trigger g.insts[i], g.insts[j]]
            0 <= i < j < g.insts.len() && g.insts[i].block == g.insts[j].block implies !g.insts[i].op.leaves() by {
            assert(g.insts[i] == f.insts[i]);
            if j < n {
                assert(g.insts[j] == f.insts[j]);
            }
        }
        assert forall|i: int|
            0 <= i < g.insts.len() && (#[trigger] g.insts[i]).op.leaves() implies g.blocks[g.insts[i].block as int].1 by {
            if i < n {
                assert(g.insts[i] == f.insts[i]);
            }
        }
        assert forall|c: int|
            0 <= c < g.blocks.len() && (#[trigger] g.blocks[c]).1 implies exists|i: int|
            0 <= i < g.insts.len() && (#[trigger] g.insts[i]).block == c && g.insts[i].op.leaves() by {
            if c == b && op.leaves() {
                assert(g.insts[n].block == c && g.insts[n].op.leaves());
            } else {
                assert(f.blocks[c].1);
                let i = choose|i: int|
                    0 <= i < f.insts.len() && (#[trigger] f.insts[i]).block == c
                        && f.insts[i].op.leaves();
                assert(g.insts[i] == f.insts[i]);
            }
        }
        assert forall|i: int| 0 <= i < g.insts.len() implies (#[trigger] g.insts[i]).block < g.blocks.len() by {
            if i < n {
                assert(g.insts[i] == f.insts[i]);
            }
        }
    }
}

proof fn lemma_seal_keeps_signature(f: FuncV, i: usize)
    ensures
        f.seal(i).name == f.name,
        f.seal(i).params == f.params,
        f.seal(i).gives == f.gives,
    decreases f.blocks.len() - i,
{
    if i < f.blocks.len() && i != usize::MAX {
        lemma_seal_keeps_signature(f.push(i, OpV::Unreachable, ""@), (i + 1) as usize);
    }
}

/// A completed function has the signature that it was begun with, and stands
/// behind those that were done before.
pub proof fn law_finish_keeps_signature(m: ModuleV)
    ensures
        m.finish().done.len() == m.done.len() + 1,
        forall|k: int| 0 <= k < m.done.len() ==> #[trigger] m.finish().done[k] == m.done[k],
        m.finish().done.last().name == m.func.name,
        m.finish().done.last().params == m.func.params,
        m.finish().done.last().gives == m.func.gives,
{
    lemma_seal_keeps_signature(m.func, 0);
}

/// A completed function is in order, and control leaves every block of it:
/// each ends in exactly one instruction that leaves it.
pub proof fn law_sealed_blocks_are_left(f: FuncV, i: usize)
    requires
        f.ordered(),
        forall|b: int| 0 <= b < i && b < f.blocks.len() ==> (#[trigger] f.blocks[b]).1,
    ensures
        f.seal(i).ordered(),
        f.seal(i).blocks.len() == f.blocks.len(),
        forall|b: int| 0 <= b < f.blocks.len() ==> (#[trigger] f.seal(i).blocks[b]).1,
    decreases f.blocks.len() - i,
{
    if i < f.blocks.len() && i != usize::MAX {
        let g = f.push(i, OpV::Unreachable, ""@);
        law_push_keeps_order(f, i, OpV::Unreachable, ""@);
        assert forall|b: int| 0 <= b < (i + 1) && b < g.blocks.len() implies (#[trigger] g.blocks[b]).1 by {
            if b < i {
                assert(f.blocks[b].1);
            }
        }
        law_sealed_blocks_are_left(g, (i + 1) as usize);
    }
}

/// Making code keeps a module sound: an instruction, a block, a function that is
/// begun and one that is completed.
pub proof fn law_modules_stay_sound(
    m: ModuleV,
    op: OpV,
    name: Seq<char>,
    params: Seq<Ty>,
    gives: bool,
)
    requires
        m.sound(),
    ensures
        m.emit(op, name).0.sound(),
        m.func.blocks.len() < usize::MAX ==> m.block(name).0.sound(),
        m.begin(name, params, gives).sound(),
        m.finish().sound(),
        m.finish().done.last().complete(),
{
    law_push_keeps_order(m.func, m.at, op, name);
    let g = m.block(name).0.func;
    if m.func.blocks.len() < usize::MAX {
        let f = m.func;
        assert forall|i: int|
            0 <= i < g.insts.len() && (#[trigger] g.insts[i]).op.leaves() implies g.blocks[g.insts[i].block as int].1 by {
            assert(f.blocks[f.insts[i].block as int].1);
        }
        assert forall|c: int|
            0 <= c < g.blocks.len() && (#[trigger] g.blocks[c]).1 implies exists|i: int|
            0 <= i < g.insts.len() && (#[trigger] g.insts[i]).block == c && g.insts[i].op.leaves() by {
            assert(f.blocks[c].1);
        }
        assert(g.ordered());
    }
    law_new_function_is_ordered(name, params, gives);
    law_new_function_is_ordered(""@, Seq::empty(), false);
    law_sealed_blocks_are_left(m.func, 0);
    assert(m.finish().done.last() == m.func.seal(0));
    assert forall|i: int| 0 <= i < m.finish().done.len() implies (#[trigger] m.finish().done[i]).complete() by {
        if i < m.done.len() {
            assert(m.finish().done[i] == m.done[i]);
        }
    }
}

} // verus!
