//! The control-flow-graph representation that both instrumentation passes
//! walk: blocks of tagged statements, one terminator per block, and a table
//! of locals.
//!
//! Every statement and terminator carries a [`SafetyTag`], inherited from its
//! enclosing lexical scope.  Blocks are immutable once built; the passes
//! produce rewritten graphs rather than mutating in place.

use vstd::prelude::*;

verus! {

/// Per-instruction safety classification: a program point lies in safe or in
/// unsafe code, as decided by the front end's scope information.
#[derive(Clone, Copy, PartialEq, Eq, Structural, Debug)]
pub enum SafetyTag {
    Safe,
    Unsafe,
}

/// What a statement does, as far as the passes care.
#[derive(Clone, Copy, PartialEq, Eq, Structural, Debug)]
pub enum StmtKind {
    /// An ordinary instruction from the front end; the passes never read its
    /// payload, only its tag.
    Inst,
    /// A spliced call marking the start of an unsafe region.  The counter is
    /// the marker's position in the recorded boundary list, kept purely for
    /// diagnostic correlation.
    BoundaryStart { counter: usize },
    /// A spliced call marking the end of an unsafe region.
    BoundaryEnd { counter: usize },
    /// A synthesized `dest = &src` borrow of a validator call's receiver.
    RefAssign { dest: usize, src: usize },
}

/// One statement: an instruction plus its safety tag.
#[derive(Clone, Copy, PartialEq, Eq, Structural, Debug)]
pub struct Statement {
    pub tag: SafetyTag,
    pub kind: StmtKind,
}

/// A place names a local variable.  The type of local `l` in graph `g` is
/// `g.locals[l]`.
#[derive(Clone, Copy, PartialEq, Eq, Structural, Debug)]
pub struct Place {
    pub local: usize,
}

/// A call argument.
#[derive(Clone, Copy, PartialEq, Eq, Structural, Debug)]
pub enum Operand {
    Copy(Place),
    Move(Place),
    Const,
}

/// What the front end's capability-resolution service knows about a callee.
#[derive(Clone, Copy, PartialEq, Eq, Structural, Debug)]
pub struct CalleeInfo {
    /// Identity of the called function.
    pub fn_id: usize,
    /// The type the callee's `impl` block is for, when the callee is a
    /// method: the identity of that type with references peeled off, or
    /// `None` when the callee is a free function or the self type is not a
    /// nominal type.
    pub impl_ty: Option<usize>,
    /// `Some(u)` when the callee comes through a trait impl, where `u` says
    /// whether the trait itself is declared unsafe; `None` for an inherent
    /// method or free function.
    pub trait_unsafe: Option<bool>,
    /// Whether the callee's own signature is declared unsafe.
    pub sig_unsafe: bool,
}

impl CalleeInfo {
    /// The capability is unsafe when the trait it comes through is unsafe,
    /// or, outside a trait, when the signature itself is.
    pub open spec fn capability_unsafe(self) -> bool {
        match self.trait_unsafe {
            Option::Some(u) => u,
            Option::None => self.sig_unsafe,
        }
    }
}

/// How control leaves a block.
#[derive(PartialEq, Eq, Debug)]
pub enum TerminatorKind {
    /// A call; on return, control continues at `dest`'s block and the result
    /// lands in `dest`'s place.  `None` means the call never returns.
    Call { callee: CalleeInfo, args: Vec<Operand>, dest: Option<(Place, usize)> },
    /// Any other terminator, reduced to its successor list.
    Other { succs: Vec<usize> },
}

/// A block's terminator: its kind plus the safety tag of its program point.
#[derive(PartialEq, Eq, Debug)]
pub struct Terminator {
    pub tag: SafetyTag,
    pub kind: TerminatorKind,
}

/// The two terminators say the same thing: same tag and same kind, with
/// argument and successor lists compared by contents.
pub open spec fn term_like(t1: Terminator, t2: Terminator) -> bool {
    &&& t1.tag == t2.tag
    &&& match (t1.kind, t2.kind) {
        (
            TerminatorKind::Call { callee: c1, args: a1, dest: d1 },
            TerminatorKind::Call { callee: c2, args: a2, dest: d2 },
        ) => c1 == c2 && a1@ == a2@ && d1 == d2,
        (TerminatorKind::Other { succs: s1 }, TerminatorKind::Other { succs: s2 }) => s1@ == s2@,
        _ => false,
    }
}

impl Terminator {
    /// The blocks this terminator can continue to.
    pub open spec fn successors(self) -> Seq<usize> {
        match self.kind {
            TerminatorKind::Call { dest, .. } => match dest {
                Option::Some((_p, b)) => seq![b],
                Option::None => Seq::empty(),
            },
            TerminatorKind::Other { succs } => succs@,
        }
    }
}

/// A basic block: an ordered statement list closed by one terminator.
#[derive(PartialEq, Eq, Debug)]
pub struct Block {
    pub stmts: Vec<Statement>,
    pub term: Terminator,
}

impl Block {
    pub open spec fn n_stmts(self) -> int {
        self.stmts@.len() as int
    }

    /// The safety tag of program point `i` of this block: statement `i`, or
    /// the terminator when `i` is one past the last statement.
    pub open spec fn tag_at(self, i: int) -> SafetyTag {
        if i < self.n_stmts() {
            self.stmts@[i].tag
        } else {
            self.term.tag
        }
    }
}

/// A function body: a table of locals (each recorded as the identity of its
/// type with references peeled off, or `None` for a non-nominal type such as
/// unit) and the blocks.
#[derive(PartialEq, Eq, Debug)]
pub struct Cfg {
    pub locals: Vec<Option<usize>>,
    pub blocks: Vec<Block>,
}

impl Cfg {
    pub open spec fn n_blocks(self) -> int {
        self.blocks@.len() as int
    }

    /// Every successor edge stays inside the graph and every place names a
    /// declared local.
    pub open spec fn wf(self) -> bool {
        forall|b: int| 0 <= b < self.n_blocks() ==> self.block_wf(#[trigger] self.blocks@[b])
    }

    pub open spec fn block_wf(self, blk: Block) -> bool {
        &&& forall|j: int|
            0 <= j < blk.term.successors().len() ==> 0 <= #[trigger] blk.term.successors()[j]
                < self.n_blocks()
        &&& match blk.term.kind {
            TerminatorKind::Call { callee: _, args, dest } => {
                &&& forall|j: int| 0 <= j < args@.len() ==> self.operand_wf(#[trigger] args@[j])
                &&& match dest {
                    Option::Some((p, _b)) => p.local < self.locals@.len(),
                    Option::None => true,
                }
            },
            TerminatorKind::Other { .. } => true,
        }
    }

    pub open spec fn operand_wf(self, op: Operand) -> bool {
        match op {
            Operand::Copy(p) => p.local < self.locals@.len(),
            Operand::Move(p) => p.local < self.locals@.len(),
            Operand::Const => true,
        }
    }
}

/// The two blocks say the same thing: same statements and terminator,
/// compared by contents.
pub open spec fn block_like(b1: Block, b2: Block) -> bool {
    b1.stmts@ == b2.stmts@ && term_like(b1.term, b2.term)
}

/// The two graphs say the same thing, block for block.
pub open spec fn cfg_like(c1: Cfg, c2: Cfg) -> bool {
    &&& c1.locals@ == c2.locals@
    &&& c1.n_blocks() == c2.n_blocks()
    &&& forall|b: int| 0 <= b < c2.n_blocks() ==> block_like(#[trigger] c1.blocks@[b], c2.blocks@[b])
}

/// Copies a terminator, contents for contents.
pub fn copy_terminator(t: &Terminator) -> (r: Terminator)
    ensures
        term_like(r, *t),
{
    match &t.kind {
        TerminatorKind::Call { callee, args, dest } => {
            let mut args2: Vec<Operand> = Vec::new();
            let mut j: usize = 0;
            while j < args.len()
                invariant
                    j <= args@.len(),
                    args2@ == args@.take(j as int),
                decreases args@.len() - j,
            {
                args2.push(args[j]);
                proof {
                    assert(args@.take(j as int + 1) =~= args@.take(j as int).push(args@[j as int]));
                }
                j += 1;
            }
            proof {
                assert(args@.take(args@.len() as int) =~= args@);
            }
            Terminator {
                tag: t.tag,
                kind: TerminatorKind::Call { callee: *callee, args: args2, dest: *dest },
            }
        },
        TerminatorKind::Other { succs } => {
            let mut succs2: Vec<usize> = Vec::new();
            let mut j: usize = 0;
            while j < succs.len()
                invariant
                    j <= succs@.len(),
                    succs2@ == succs@.take(j as int),
                decreases succs@.len() - j,
            {
                succs2.push(succs[j]);
                proof {
                    assert(succs@.take(j as int + 1) =~= succs@.take(j as int).push(
                        succs@[j as int],
                    ));
                }
                j += 1;
            }
            proof {
                assert(succs@.take(succs@.len() as int) =~= succs@);
            }
            Terminator { tag: t.tag, kind: TerminatorKind::Other { succs: succs2 } }
        },
    }
}

/// Copies the locals table.
pub fn copy_locals(locals: &Vec<Option<usize>>) -> (r: Vec<Option<usize>>)
    ensures
        r@ == locals@,
{
    let mut r: Vec<Option<usize>> = Vec::new();
    let mut j: usize = 0;
    while j < locals.len()
        invariant
            j <= locals@.len(),
            r@ == locals@.take(j as int),
        decreases locals@.len() - j,
    {
        r.push(locals[j]);
        proof {
            assert(locals@.take(j as int + 1) =~= locals@.take(j as int).push(locals@[j as int]));
        }
        j += 1;
    }
    proof {
        assert(locals@.take(locals@.len() as int) =~= locals@);
    }
    r
}

/// Copies a statement list.
pub fn copy_stmts(stmts: &Vec<Statement>) -> (r: Vec<Statement>)
    ensures
        r@ == stmts@,
{
    let mut r: Vec<Statement> = Vec::new();
    let mut j: usize = 0;
    while j < stmts.len()
        invariant
            j <= stmts@.len(),
            r@ == stmts@.take(j as int),
        decreases stmts@.len() - j,
    {
        r.push(stmts[j]);
        proof {
            assert(stmts@.take(j as int + 1) =~= stmts@.take(j as int).push(stmts@[j as int]));
        }
        j += 1;
    }
    proof {
        assert(stmts@.take(stmts@.len() as int) =~= stmts@);
    }
    r
}

/// Copies a block, contents for contents.
pub fn copy_block(blk: &Block) -> (r: Block)
    ensures
        block_like(r, *blk),
{
    Block { stmts: copy_stmts(&blk.stmts), term: copy_terminator(&blk.term) }
}

/// Copies a whole graph, contents for contents.
pub fn copy_cfg(cfg: &Cfg) -> (r: Cfg)
    ensures
        cfg_like(r, *cfg),
{
    let mut blocks: Vec<Block> = Vec::new();
    let mut b: usize = 0;
    while b < cfg.blocks.len()
        invariant
            b <= cfg.blocks@.len(),
            blocks@.len() == b,
            forall|x: int|
                0 <= x < b ==> block_like(#[trigger] blocks@[x], cfg.blocks@[x]),
        decreases cfg.blocks@.len() - b,
    {
        let nb = copy_block(&cfg.blocks[b]);
        blocks.push(nb);
        b += 1;
    }
    Cfg { locals: copy_locals(&cfg.locals), blocks }
}

} // verus!
