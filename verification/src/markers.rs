//! The region-marker pass: given a graph whose program points carry safety
//! tags, it records a boundary marker at every transition into or out of an
//! unsafe region and splices matching marker calls into the graph.
//!
//! A region that is still open when control leaves a block is closed in each
//! successor: the successor's first safe program point receives the end
//! marker, and a start marker at the successor's entry is suppressed so the
//! propagated region is never restarted.

use vstd::prelude::*;

use crate::cfg::{
    copy_locals, copy_terminator, term_like, Block, Cfg, SafetyTag, Statement, StmtKind,
    Terminator, TerminatorKind,
};
use crate::pass::PassContext;

verus! {

/// Whether a boundary marks the start or the end of an unsafe region.
#[derive(Clone, Copy, PartialEq, Eq, Structural, Debug)]
pub enum BoundaryKind {
    Start,
    End,
}

/// A recorded region boundary: program point `offset` of block `block`
/// (offset `n` with `n` statements means the terminator's point).
#[derive(Clone, Copy, PartialEq, Eq, Structural, Debug)]
pub struct RegionBoundary {
    pub block: usize,
    pub offset: usize,
    pub kind: BoundaryKind,
}

/// Block `b` must close a region begun by a predecessor: some block with an
/// unsafe terminator continues to `b`.
pub open spec fn pending_close(cfg: Cfg, b: int) -> bool {
    exists|p: int, j: int|
        0 <= p < cfg.n_blocks() && cfg.blocks@[p].term.tag == SafetyTag::Unsafe && 0 <= j
            < cfg.blocks@[p].term.successors().len() && (
        #[trigger] cfg.blocks@[p].term.successors()[j]) == b
}

/// Whether an unsafe region is open just before program point `i` of block
/// `b`: at the block's entry that is exactly the pending-close state handed
/// over by predecessors; later it is decided by the previous point's tag.
pub open spec fn open_before(cfg: Cfg, b: int, i: int) -> bool {
    if i == 0 {
        pending_close(cfg, b)
    } else {
        cfg.blocks@[b].tag_at(i - 1) == SafetyTag::Unsafe
    }
}

/// A start marker belongs at point `i` of block `b`: the point is unsafe
/// and no region is open yet.
pub open spec fn start_at(cfg: Cfg, b: int, i: int) -> bool {
    &&& 0 <= b < cfg.n_blocks()
    &&& 0 <= i <= cfg.blocks@[b].n_stmts()
    &&& !open_before(cfg, b, i)
    &&& cfg.blocks@[b].tag_at(i) == SafetyTag::Unsafe
}

/// An end marker belongs at point `i` of block `b`: a region is open and
/// the point is safe again.
pub open spec fn end_at(cfg: Cfg, b: int, i: int) -> bool {
    &&& 0 <= b < cfg.n_blocks()
    &&& 0 <= i <= cfg.blocks@[b].n_stmts()
    &&& open_before(cfg, b, i)
    &&& cfg.blocks@[b].tag_at(i) == SafetyTag::Safe
}

/// The marker recorded at a program point, if any.
pub open spec fn marker_at(cfg: Cfg, b: int, i: int) -> Option<BoundaryKind> {
    if start_at(cfg, b, i) {
        Option::Some(BoundaryKind::Start)
    } else if end_at(cfg, b, i) {
        Option::Some(BoundaryKind::End)
    } else {
        Option::None
    }
}

/// Strict ordering of program points: earlier block, or same block and
/// earlier offset.
pub open spec fn lex_lt(b1: int, i1: int, b2: int, i2: int) -> bool {
    b1 < b2 || (b1 == b2 && i1 < i2)
}

/// The marker list is strictly ordered by program point.
pub open spec fn sorted_markers(ms: Seq<RegionBoundary>) -> bool {
    forall|k1: int, k2: int|
        0 <= k1 < k2 < ms.len() ==> lex_lt(
            (#[trigger] ms[k1]).block as int,
            ms[k1].offset as int,
            (#[trigger] ms[k2]).block as int,
            ms[k2].offset as int,
        )
}

/// Some recorded marker sits at point `i` of block `b`.
pub open spec fn has_marker(ms: Seq<RegionBoundary>, b: int, i: int) -> bool {
    exists|k: int| 0 <= k < ms.len() && (#[trigger] ms[k]).block == b && ms[k].offset == i
}

/// The marker list is exactly the set of marked program points of the
/// graph, in program-point order.
pub open spec fn marker_list_correct(cfg: Cfg, ms: Seq<RegionBoundary>) -> bool {
    &&& forall|k: int|
        0 <= k < ms.len() ==> marker_at(
            cfg,
            (#[trigger] ms[k]).block as int,
            ms[k].offset as int,
        ) == Option::Some(ms[k].kind)
    &&& forall|b: int, i: int| #[trigger] marker_at(cfg, b, i) is Some ==> has_marker(ms, b, i)
    &&& sorted_markers(ms)
}

/// Computes, for every block, whether a predecessor with an unsafe
/// terminator hands it an open region.
fn compute_pending(cfg: &Cfg) -> (pend: Vec<bool>)
    requires
        cfg.wf(),
    ensures
        pend@.len() == cfg.n_blocks(),
        forall|b: int| 0 <= b < cfg.n_blocks() ==> pend@[b] == pending_close(*cfg, b),
{
    let n = cfg.blocks.len();
    let mut pend: Vec<bool> = Vec::new();
    let mut b: usize = 0;
    while b < n
        invariant
            n == cfg.n_blocks(),
            b <= n,
            pend@.len() == b,
            forall|x: int| 0 <= x < b ==> pend@[x] == false,
        decreases n - b,
    {
        pend.push(false);
        b += 1;
    }
    let mut p: usize = 0;
    while p < n
        invariant
            cfg.wf(),
            n == cfg.n_blocks(),
            p <= n,
            pend@.len() == n,
            forall|x: int| 0 <= x < n ==> pend@[x] == pending_upto(*cfg, x, p as int),
        decreases n - p,
    {
        if matches!(cfg.blocks[p].term.tag, SafetyTag::Unsafe) {
            let succs = successors_of(&cfg.blocks[p].term);
            let mut j: usize = 0;
            while j < succs.len()
                invariant
                    cfg.wf(),
                    n == cfg.n_blocks(),
                    p < n,
                    pend@.len() == n,
                    j <= succs@.len(),
                    succs@ == cfg.blocks@[p as int].term.successors(),
                    cfg.blocks@[p as int].term.tag == SafetyTag::Unsafe,
                    forall|x: int|
                        0 <= x < n ==> pend@[x] == (pending_upto(*cfg, x, p as int)
                            || pending_within(*cfg, x, p as int, j as int)),
                decreases succs@.len() - j,
            {
                let s = succs[j];
                proof {
                    assert(cfg.block_wf(cfg.blocks@[p as int]));
                    assert(cfg.blocks@[p as int].term.successors()[j as int] == s);
                }
                pend.set(s, true);
                proof {
                    assert(pending_within(*cfg, s as int, p as int, j as int + 1));
                    assert forall|x: int|
                        0 <= x < n && x != s implies (pending_within(*cfg, x, p as int, j as int + 1)
                        == pending_within(*cfg, x, p as int, j as int)) by {
                        if pending_within(*cfg, x, p as int, j as int + 1) {
                            let jj = choose|jj: int|
                                0 <= jj < j as int + 1 && (#[trigger] cfg.blocks@[p as int].term.successors()[jj])
                                    == x;
                            assert(jj < j as int);
                        }
                    }
                }
                j += 1;
            }
            proof {
                assert forall|x: int| 0 <= x < n implies (pending_upto(*cfg, x, p as int + 1) == (
                pending_upto(*cfg, x, p as int) || pending_within(
                    *cfg,
                    x,
                    p as int,
                    succs@.len() as int,
                ))) by {
                    lemma_pending_step(*cfg, x, p as int);
                }
            }
        } else {
            proof {
                assert forall|x: int| 0 <= x < n implies (pending_upto(*cfg, x, p as int + 1)
                    == pending_upto(*cfg, x, p as int)) by {
                    lemma_pending_step(*cfg, x, p as int);
                }
            }
        }
        p += 1;
    }
    proof {
        assert forall|x: int| 0 <= x < n implies (pending_upto(*cfg, x, n as int) == pending_close(
            *cfg,
            x,
        )) by {
            if pending_close(*cfg, x) {
                let (pp, jj) = choose|pp: int, jj: int|
                    0 <= pp < cfg.n_blocks() && cfg.blocks@[pp].term.tag == SafetyTag::Unsafe && 0
                        <= jj < cfg.blocks@[pp].term.successors().len() && (
                    #[trigger] cfg.blocks@[pp].term.successors()[jj]) == x;
                assert(pending_upto(*cfg, x, n as int));
            }
        }
    }
    pend
}

/// Like [`pending_close`], considering only predecessors below `pmax`.
pub open spec fn pending_upto(cfg: Cfg, b: int, pmax: int) -> bool {
    exists|p: int, j: int|
        0 <= p < pmax && cfg.blocks@[p].term.tag == SafetyTag::Unsafe && 0 <= j
            < cfg.blocks@[p].term.successors().len() && (
        #[trigger] cfg.blocks@[p].term.successors()[j]) == b
}

/// Block `p` has an unsafe terminator and hands an open region to `b`
/// through one of its first `jmax` successor edges.
pub open spec fn pending_within(cfg: Cfg, b: int, p: int, jmax: int) -> bool {
    cfg.blocks@[p].term.tag == SafetyTag::Unsafe && exists|j: int|
        0 <= j < jmax && (#[trigger] cfg.blocks@[p].term.successors()[j]) == b
}

proof fn lemma_pending_step(cfg: Cfg, b: int, p: int)
    requires
        0 <= p < cfg.n_blocks(),
    ensures
        pending_upto(cfg, b, p + 1) == (pending_upto(cfg, b, p) || pending_within(
            cfg,
            b,
            p,
            cfg.blocks@[p].term.successors().len() as int,
        )),
{
    if pending_upto(cfg, b, p + 1) {
        let (pp, jj) = choose|pp: int, jj: int|
            0 <= pp < p + 1 && cfg.blocks@[pp].term.tag == SafetyTag::Unsafe && 0 <= jj
                < cfg.blocks@[pp].term.successors().len() && (
            #[trigger] cfg.blocks@[pp].term.successors()[jj]) == b;
        if pp < p {
            assert(pending_upto(cfg, b, p));
        } else {
            assert(pending_within(cfg, b, p, cfg.blocks@[p].term.successors().len() as int));
        }
    }
    if pending_upto(cfg, b, p) {
        let (pp, jj) = choose|pp: int, jj: int|
            0 <= pp < p && cfg.blocks@[pp].term.tag == SafetyTag::Unsafe && 0 <= jj
                < cfg.blocks@[pp].term.successors().len() && (
            #[trigger] cfg.blocks@[pp].term.successors()[jj]) == b;
        assert(pending_upto(cfg, b, p + 1));
    }
    if pending_within(cfg, b, p, cfg.blocks@[p].term.successors().len() as int) {
        let jj = choose|jj: int|
            0 <= jj < cfg.blocks@[p].term.successors().len() && (#[trigger] cfg.blocks@[p].term.successors()[jj])
                == b;
        assert(pending_upto(cfg, b, p + 1));
    }
}

/// Reads a terminator's successor list.
fn successors_of(t: &Terminator) -> (r: Vec<usize>)
    ensures
        r@ == t.successors(),
{
    match &t.kind {
        TerminatorKind::Call { dest, .. } => {
            match dest {
                Option::Some((_p, b)) => {
                    let mut v: Vec<usize> = Vec::new();
                    v.push(*b);
                    proof {
                        assert(v@ =~= t.successors());
                    }
                    v
                },
                Option::None => {
                    let v: Vec<usize> = Vec::new();
                    proof {
                        assert(v@ =~= t.successors());
                    }
                    v
                },
            }
        },
        TerminatorKind::Other { succs } => {
            let mut v: Vec<usize> = Vec::new();
            let mut j: usize = 0;
            while j < succs.len()
                invariant
                    j <= succs@.len(),
                    v@ == succs@.take(j as int),
                decreases succs@.len() - j,
            {
                v.push(succs[j]);
                proof {
                    assert(succs@.take(j as int + 1) =~= succs@.take(j as int).push(
                        succs@[j as int],
                    ));
                }
                j += 1;
            }
            proof {
                assert(succs@.take(succs@.len() as int) =~= succs@);
                assert(v@ =~= t.successors());
            }
            v
        },
    }
}

/// The collected marker list is in a good intermediate state: every entry
/// is a real marker, the list is sorted, nothing at or past point `(b, i)`
/// has been emitted yet, and everything strictly before it has been.
pub open spec fn emission_state(cfg: Cfg, ms: Seq<RegionBoundary>, b: int, i: int) -> bool {
    &&& forall|k: int|
        0 <= k < ms.len() ==> marker_at(
            cfg,
            (#[trigger] ms[k]).block as int,
            ms[k].offset as int,
        ) == Option::Some(ms[k].kind)
    &&& forall|bx: int, ix: int|
        lex_lt(bx, ix, b, i) && #[trigger] marker_at(cfg, bx, ix) is Some ==> has_marker(
            ms,
            bx,
            ix,
        )
    &&& sorted_markers(ms)
    &&& forall|k: int|
        0 <= k < ms.len() ==> lex_lt((#[trigger] ms[k]).block as int, ms[k].offset as int, b, i)
}

/// Emits the marker of program point `(b, i)`, if that point has one.
fn emit_point(cfg: &Cfg, pend: &Vec<bool>, b: usize, i: usize, markers: &mut Vec<RegionBoundary>)
    requires
        b < cfg.n_blocks(),
        i <= cfg.blocks@[b as int].n_stmts(),
        pend@.len() == cfg.n_blocks(),
        forall|x: int| 0 <= x < cfg.n_blocks() ==> pend@[x] == pending_close(*cfg, x),
        emission_state(*cfg, old(markers)@, b as int, i as int),
    ensures
        emission_state(*cfg, final(markers)@, b as int, i as int + 1),
{
    let open = if i == 0 {
        pend[b]
    } else {
        matches!(cfg.blocks[b].stmts[i - 1].tag, SafetyTag::Unsafe)
    };
    let tag_unsafe = if i < cfg.blocks[b].stmts.len() {
        matches!(cfg.blocks[b].stmts[i].tag, SafetyTag::Unsafe)
    } else {
        matches!(cfg.blocks[b].term.tag, SafetyTag::Unsafe)
    };
    proof {
        assert(open == open_before(*cfg, b as int, i as int));
        assert(tag_unsafe == (cfg.blocks@[b as int].tag_at(i as int) == SafetyTag::Unsafe));
    }
    if !open && tag_unsafe {
        let m = RegionBoundary { block: b, offset: i, kind: BoundaryKind::Start };
        markers.push(m);
    } else if open && !tag_unsafe {
        let m = RegionBoundary { block: b, offset: i, kind: BoundaryKind::End };
        markers.push(m);
    }
    proof {
        assert forall|bx: int, ix: int|
            lex_lt(bx, ix, b as int, i as int + 1) && #[trigger] marker_at(
                *cfg,
                bx,
                ix,
            ) is Some implies has_marker(markers@, bx, ix) by {
            if lex_lt(bx, ix, b as int, i as int) {
                assert(has_marker(old(markers)@, bx, ix));
                let k = choose|k: int|
                    0 <= k < old(markers)@.len() && (#[trigger] old(markers)@[k]).block == bx && old(
                        markers,
                    )@[k].offset == ix;
                assert(markers@[k].block == bx && markers@[k].offset == ix);
            } else {
                assert(bx == b as int && ix == i as int);
                assert(markers@[markers@.len() - 1].block == bx && markers@[markers@.len()
                    - 1].offset == ix);
            }
        }
    }
}

/// Records every region boundary of the graph, in program-point order.
fn compute_markers(cfg: &Cfg, pend: &Vec<bool>) -> (markers: Vec<RegionBoundary>)
    requires
        pend@.len() == cfg.n_blocks(),
        forall|b: int| 0 <= b < cfg.n_blocks() ==> pend@[b] == pending_close(*cfg, b),
    ensures
        marker_list_correct(*cfg, markers@),
{
    let n = cfg.blocks.len();
    let mut markers: Vec<RegionBoundary> = Vec::new();
    let mut b: usize = 0;
    while b < n
        invariant
            n == cfg.n_blocks(),
            b <= n,
            pend@.len() == cfg.n_blocks(),
            forall|x: int| 0 <= x < cfg.n_blocks() ==> pend@[x] == pending_close(*cfg, x),
            emission_state(*cfg, markers@, b as int, 0),
        decreases n - b,
    {
        let blk_len = cfg.blocks[b].stmts.len();
        let mut i: usize = 0;
        while i < blk_len
            invariant
                n == cfg.n_blocks(),
                b < n,
                blk_len == cfg.blocks@[b as int].n_stmts(),
                i <= blk_len,
                pend@.len() == cfg.n_blocks(),
                forall|x: int| 0 <= x < cfg.n_blocks() ==> pend@[x] == pending_close(*cfg, x),
                emission_state(*cfg, markers@, b as int, i as int),
            decreases blk_len - i,
        {
            emit_point(cfg, pend, b, i, &mut markers);
            i += 1;
        }
        emit_point(cfg, pend, b, blk_len, &mut markers);
        proof {
            assert forall|bx: int, ix: int|
                lex_lt(bx, ix, b as int + 1, 0) && #[trigger] marker_at(
                    *cfg,
                    bx,
                    ix,
                ) is Some implies has_marker(markers@, bx, ix) by {
                assert(lex_lt(bx, ix, b as int, blk_len as int + 1));
            }
            assert forall|k: int| 0 <= k < markers@.len() implies lex_lt(
                (#[trigger] markers@[k]).block as int,
                markers@[k].offset as int,
                b as int + 1,
                0,
            ) by {
                assert(marker_at(*cfg, markers@[k].block as int, markers@[k].offset as int)
                    == Option::Some(markers@[k].kind));
            }
        }
        b += 1;
    }
    proof {
        assert forall|bx: int, ix: int| #[trigger]
            marker_at(*cfg, bx, ix) is Some implies has_marker(markers@, bx, ix) by {
            assert(0 <= bx < cfg.n_blocks());
            assert(lex_lt(bx, ix, n as int, 0));
        }
    }
    markers
}

/// Every recorded marker names a real program point of the graph.
pub open spec fn markers_in_bounds(cfg: Cfg, ms: Seq<RegionBoundary>) -> bool {
    forall|k: int|
        0 <= k < ms.len() ==> (#[trigger] ms[k]).block < cfg.n_blocks() && ms[k].offset
            <= cfg.blocks@[ms[k].block as int].n_stmts()
}

/// The position of the marker recorded at point `(b, i)` in the list.
pub open spec fn marker_index(ms: Seq<RegionBoundary>, b: int, i: int) -> int {
    choose|k: int| 0 <= k < ms.len() && (#[trigger] ms[k]).block == b && ms[k].offset == i
}

/// The marker call spliced in for the marker at point `(b, i)`: its counter
/// is the marker's position in the recorded list, kept for diagnostic
/// correlation only.
pub open spec fn boundary_statement(ms: Seq<RegionBoundary>, b: int, i: int) -> Statement {
    let k = marker_index(ms, b, i);
    match ms[k].kind {
        BoundaryKind::Start => Statement {
            tag: SafetyTag::Unsafe,
            kind: StmtKind::BoundaryStart { counter: k as usize },
        },
        BoundaryKind::End => Statement {
            tag: SafetyTag::Safe,
            kind: StmtKind::BoundaryEnd { counter: k as usize },
        },
    }
}

/// What the rewritten block holds for program point `i`: the marker call,
/// if the point has one, followed by the original statement when the point
/// is a statement.
pub open spec fn stmt_group(cfg: Cfg, ms: Seq<RegionBoundary>, b: int, i: int) -> Seq<Statement> {
    let bdry = if has_marker(ms, b, i) {
        seq![boundary_statement(ms, b, i)]
    } else {
        Seq::empty()
    };
    if i < cfg.blocks@[b].n_stmts() {
        bdry.push(cfg.blocks@[b].stmts@[i])
    } else {
        bdry
    }
}

/// The first `i` program points of block `b`, rewritten.
pub open spec fn spliced_prefix(cfg: Cfg, ms: Seq<RegionBoundary>, b: int, i: int) -> Seq<Statement>
    decreases i,
{
    if i <= 0 {
        Seq::empty()
    } else {
        spliced_prefix(cfg, ms, b, i - 1) + stmt_group(cfg, ms, b, i - 1)
    }
}

/// The full rewritten statement list of block `b`.
pub open spec fn spliced_stmts(cfg: Cfg, ms: Seq<RegionBoundary>, b: int) -> Seq<Statement> {
    spliced_prefix(cfg, ms, b, cfg.blocks@[b].n_stmts() + 1)
}

/// The rewritten graph `r` is the input graph with the recorded marker
/// calls spliced in: same locals, same terminators, and each block's
/// statement list replaced by its spliced form.
pub open spec fn rewrite_correct(cfg: Cfg, ms: Seq<RegionBoundary>, r: Cfg) -> bool {
    &&& r.locals@ == cfg.locals@
    &&& r.n_blocks() == cfg.n_blocks()
    &&& forall|b: int|
        0 <= b < cfg.n_blocks() ==> term_like((#[trigger] r.blocks@[b]).term, cfg.blocks@[b].term)
    &&& forall|b: int|
        0 <= b < cfg.n_blocks() ==> (#[trigger] r.blocks@[b]).stmts@ == spliced_stmts(cfg, ms, b)
}

/// In a sorted list, the marker sitting at index `k` is the one the list
/// holds for its program point.
proof fn lemma_marker_index(ms: Seq<RegionBoundary>, k: int, b: int, i: int)
    requires
        sorted_markers(ms),
        0 <= k < ms.len(),
        ms[k].block == b,
        ms[k].offset == i,
    ensures
        has_marker(ms, b, i),
        marker_index(ms, b, i) == k,
{
    assert(has_marker(ms, b, i));
    let kk = marker_index(ms, b, i);
    if kk < k {
        assert(lex_lt(ms[kk].block as int, ms[kk].offset as int, ms[k].block as int, ms[k].offset as int));
    } else if kk > k {
        assert(lex_lt(ms[k].block as int, ms[k].offset as int, ms[kk].block as int, ms[kk].offset as int));
    }
}

/// Splices what the rewritten block holds for program point `(b, i)`: the
/// marker call, if the point has one, then the original statement when the
/// point is a statement.  `k` is the cursor into the sorted marker list.
fn splice_point(
    cfg: &Cfg,
    markers: &Vec<RegionBoundary>,
    b: usize,
    i: usize,
    k: &mut usize,
    ns: &mut Vec<Statement>,
)
    requires
        sorted_markers(markers@),
        markers_in_bounds(*cfg, markers@),
        b < cfg.n_blocks(),
        i <= cfg.blocks@[b as int].n_stmts(),
        *old(k) <= markers@.len(),
        forall|idx: int|
            0 <= idx < *old(k) ==> lex_lt(
                (#[trigger] markers@[idx]).block as int,
                markers@[idx].offset as int,
                b as int,
                i as int,
            ),
        forall|idx: int|
            *old(k) <= idx < markers@.len() ==> !lex_lt(
                (#[trigger] markers@[idx]).block as int,
                markers@[idx].offset as int,
                b as int,
                i as int,
            ),
        old(ns)@ == spliced_prefix(*cfg, markers@, b as int, i as int),
    ensures
        *final(k) <= markers@.len(),
        forall|idx: int|
            0 <= idx < *final(k) ==> lex_lt(
                (#[trigger] markers@[idx]).block as int,
                markers@[idx].offset as int,
                b as int,
                i as int + 1,
            ),
        forall|idx: int|
            *final(k) <= idx < markers@.len() ==> !lex_lt(
                (#[trigger] markers@[idx]).block as int,
                markers@[idx].offset as int,
                b as int,
                i as int + 1,
            ),
        final(ns)@ == spliced_prefix(*cfg, markers@, b as int, i as int + 1),
{
    let ghost old_ns = ns@;
    let ghost old_k = *k as int;
    let mut took_marker = false;
    if *k < markers.len() && markers[*k].block == b && markers[*k].offset == i {
        let m = markers[*k];
        proof {
            lemma_marker_index(markers@, *k as int, b as int, i as int);
        }
        match m.kind {
            BoundaryKind::Start => {
                ns.push(
                    Statement {
                        tag: SafetyTag::Unsafe,
                        kind: StmtKind::BoundaryStart { counter: *k },
                    },
                );
            },
            BoundaryKind::End => {
                ns.push(
                    Statement { tag: SafetyTag::Safe, kind: StmtKind::BoundaryEnd { counter: *k } },
                );
            },
        }
        *k += 1;
        took_marker = true;
        proof {
            assert(ns@ == old_ns.push(boundary_statement(markers@, b as int, i as int)));
        }
    } else {
        proof {
            assert(!has_marker(markers@, b as int, i as int)) by {
                if has_marker(markers@, b as int, i as int) {
                    let kk = choose|kk: int|
                        0 <= kk < markers@.len() && (#[trigger] markers@[kk]).block == b as int
                            && markers@[kk].offset == i as int;
                    if kk < old_k {
                        assert(lex_lt(
                            markers@[kk].block as int,
                            markers@[kk].offset as int,
                            b as int,
                            i as int,
                        ));
                    } else {
                        assert(!lex_lt(
                            markers@[kk].block as int,
                            markers@[kk].offset as int,
                            b as int,
                            i as int,
                        ));
                    }
                }
            }
        }
    }
    if i < cfg.blocks[b].stmts.len() {
        ns.push(cfg.blocks[b].stmts[i]);
    }
    proof {
        assert(ns@ =~= spliced_prefix(*cfg, markers@, b as int, i as int + 1));
        assert forall|idx: int| *k <= idx < markers@.len() implies !lex_lt(
            (#[trigger] markers@[idx]).block as int,
            markers@[idx].offset as int,
            b as int,
            i as int + 1,
        ) by {
            if took_marker {
                assert(lex_lt(
                    markers@[old_k].block as int,
                    markers@[old_k].offset as int,
                    markers@[idx].block as int,
                    markers@[idx].offset as int,
                ));
            } else {
                if markers@[idx].block == b as int && markers@[idx].offset == i as int {
                    lemma_marker_index(markers@, idx, b as int, i as int);
                    assert(has_marker(markers@, b as int, i as int));
                }
            }
        }
    }
}

/// Builds the rewritten graph: the input graph with the recorded marker
/// calls spliced in at their program points.
pub fn apply_markers(cfg: &Cfg, markers: &Vec<RegionBoundary>) -> (r: Cfg)
    requires
        sorted_markers(markers@),
        markers_in_bounds(*cfg, markers@),
    ensures
        rewrite_correct(*cfg, markers@, r),
{
    let n = cfg.blocks.len();
    let mut blocks: Vec<Block> = Vec::new();
    let mut k: usize = 0;
    while blocks.len() < n
        invariant
            sorted_markers(markers@),
            markers_in_bounds(*cfg, markers@),
            n == cfg.n_blocks(),
            blocks@.len() <= n,
            k <= markers@.len(),
            forall|idx: int|
                0 <= idx < k ==> lex_lt(
                    (#[trigger] markers@[idx]).block as int,
                    markers@[idx].offset as int,
                    blocks@.len() as int,
                    0,
                ),
            forall|idx: int|
                k <= idx < markers@.len() ==> !lex_lt(
                    (#[trigger] markers@[idx]).block as int,
                    markers@[idx].offset as int,
                    blocks@.len() as int,
                    0,
                ),
            forall|b: int|
                0 <= b < blocks@.len() ==> term_like(
                    (#[trigger] blocks@[b]).term,
                    cfg.blocks@[b].term,
                ),
            forall|b: int|
                0 <= b < blocks@.len() ==> (#[trigger] blocks@[b]).stmts@ == spliced_stmts(
                    *cfg,
                    markers@,
                    b,
                ),
        decreases n - blocks@.len(),
    {
        let b = blocks.len();
        let blk_len = cfg.blocks[b].stmts.len();
        let mut ns: Vec<Statement> = Vec::new();
        let mut i: usize = 0;
        while i < blk_len
            invariant
                sorted_markers(markers@),
                markers_in_bounds(*cfg, markers@),
                n == cfg.n_blocks(),
                b < n,
                blk_len == cfg.blocks@[b as int].n_stmts(),
                i <= blk_len,
                k <= markers@.len(),
                forall|idx: int|
                    0 <= idx < k ==> lex_lt(
                        (#[trigger] markers@[idx]).block as int,
                        markers@[idx].offset as int,
                        b as int,
                        i as int,
                    ),
                forall|idx: int|
                    k <= idx < markers@.len() ==> !lex_lt(
                        (#[trigger] markers@[idx]).block as int,
                        markers@[idx].offset as int,
                        b as int,
                        i as int,
                    ),
                ns@ == spliced_prefix(*cfg, markers@, b as int, i as int),
            decreases blk_len - i,
        {
            splice_point(cfg, markers, b, i, &mut k, &mut ns);
            i += 1;
        }
        splice_point(cfg, markers, b, blk_len, &mut k, &mut ns);
        proof {
            assert(ns@ == spliced_stmts(*cfg, markers@, b as int));
        }
        let term = copy_terminator(&cfg.blocks[b].term);
        blocks.push(Block { stmts: ns, term });
        proof {
            assert forall|idx: int| 0 <= idx < k implies lex_lt(
                (#[trigger] markers@[idx]).block as int,
                markers@[idx].offset as int,
                blocks@.len() as int,
                0,
            ) by {
                assert(markers@[idx].offset <= cfg.blocks@[markers@[idx].block as int].n_stmts());
            }
            assert forall|idx: int| k <= idx < markers@.len() implies !lex_lt(
                (#[trigger] markers@[idx]).block as int,
                markers@[idx].offset as int,
                blocks@.len() as int,
                0,
            ) by {
                assert(markers@[idx].offset <= cfg.blocks@[markers@[idx].block as int].n_stmts());
            }
        }
    }
    let locals = copy_locals(&cfg.locals);
    Cfg { locals, blocks }
}

/// The region-marker pass.
pub struct MetaSafeUnsafeMarkers;

impl MetaSafeUnsafeMarkers {
    /// Runs the pass over one function body.
    ///
    /// When the context makes the pass applicable, the returned list records
    /// exactly the region boundaries of the graph, in program-point order,
    /// and the returned graph is the input with the matching marker calls
    /// spliced in.  Otherwise the pass is a no-op: no markers, and the graph
    /// comes back unchanged (the empty splice).
    pub fn run_pass(&self, ctx: &PassContext, cfg: &Cfg) -> (r: (Vec<RegionBoundary>, Cfg))
        requires
            cfg.wf(),
        ensures
            ctx.markers_applicable() ==> marker_list_correct(*cfg, r.0@),
            !ctx.markers_applicable() ==> r.0@ == Seq::<RegionBoundary>::empty(),
            rewrite_correct(*cfg, r.0@, r.1),
    {
        let markers: Vec<RegionBoundary> = if ctx.check_markers_applicable() {
            let pend = compute_pending(cfg);
            compute_markers(cfg, &pend)
        } else {
            Vec::new()
        };
        proof {
            assert forall|k: int| 0 <= k < markers@.len() implies (#[trigger] markers@[k]).block
                < cfg.n_blocks() && markers@[k].offset
                <= cfg.blocks@[markers@[k].block as int].n_stmts() by {
            }
        }
        let rewritten = apply_markers(cfg, &markers);
        (markers, rewritten)
    }
}


/// A correct marker list and the marked program points of the graph are
/// the same thing: the list holds an entry at a point exactly when the
/// point is marked, and then the entry's kind is the point's marker.  The
/// balance laws below, stated over the marked points, therefore speak of
/// exactly the recorded list.
pub proof fn lemma_markers_match_points(cfg: Cfg, ms: Seq<RegionBoundary>, b: int, i: int)
    requires
        marker_list_correct(cfg, ms),
    ensures
        has_marker(ms, b, i) <==> marker_at(cfg, b, i) is Some,
        forall|k: int|
            0 <= k < ms.len() && (#[trigger] ms[k]).block == b && ms[k].offset == i ==> marker_at(
                cfg,
                b,
                i,
            ) == Option::Some(ms[k].kind),
{
    if has_marker(ms, b, i) {
        let k = choose|k: int|
            0 <= k < ms.len() && (#[trigger] ms[k]).block == b && ms[k].offset == i;
        assert(marker_at(cfg, ms[k].block as int, ms[k].offset as int) == Option::Some(ms[k].kind));
    }
}

/// The kinds of the markers recorded at the first `i` program points of
/// block `b`, in order.
pub open spec fn kind_seq_prefix(cfg: Cfg, b: int, i: int) -> Seq<BoundaryKind>
    decreases i,
{
    if i <= 0 {
        Seq::empty()
    } else {
        let rest = kind_seq_prefix(cfg, b, i - 1);
        match marker_at(cfg, b, i - 1) {
            Option::Some(kd) => rest.push(kd),
            Option::None => rest,
        }
    }
}

/// The kinds of all markers recorded in block `b`, in program-point order.
pub open spec fn block_kind_seq(cfg: Cfg, b: int) -> Seq<BoundaryKind> {
    kind_seq_prefix(cfg, b, cfg.blocks@[b].n_stmts() + 1)
}

/// The marker kinds strictly alternate, starting with an end marker when a
/// region is `open` on entry and with a start marker otherwise.  In
/// particular, no two start markers occur without an end marker between
/// them.
pub open spec fn alternates_from(s: Seq<BoundaryKind>, open: bool) -> bool
    decreases s.len(),
{
    if s.len() == 0 {
        true
    } else {
        &&& s[0] == (if open {
            BoundaryKind::End
        } else {
            BoundaryKind::Start
        })
        &&& alternates_from(s.drop_first(), !open)
    }
}

/// Whether a region is open after an alternating marker sequence `s` has
/// run, starting from state `open`: each marker flips the state.
pub open spec fn state_after(s: Seq<BoundaryKind>, open: bool) -> bool {
    if s.len() % 2 == 0 {
        open
    } else {
        !open
    }
}

/// How many markers of kind `kd` a sequence holds.
pub open spec fn count_kind(s: Seq<BoundaryKind>, kd: BoundaryKind) -> nat
    decreases s.len(),
{
    if s.len() == 0 {
        0
    } else {
        count_kind(s.drop_first(), kd) + (if s[0] == kd {
            1nat
        } else {
            0nat
        })
    }
}

proof fn lemma_alternates_push(s: Seq<BoundaryKind>, o: bool, kd: BoundaryKind)
    requires
        alternates_from(s, o),
        kd == (if state_after(s, o) {
            BoundaryKind::End
        } else {
            BoundaryKind::Start
        }),
    ensures
        alternates_from(s.push(kd), o),
    decreases s.len(),
{
    if s.len() == 0 {
        assert(s.push(kd) =~= seq![kd]);
        assert(s.push(kd).drop_first() =~= Seq::<BoundaryKind>::empty());
        assert(s.push(kd)[0] == kd);
        assert(alternates_from(s.push(kd).drop_first(), !o));
    } else {
        assert(state_after(s.drop_first(), !o) == state_after(s, o)) by {
            assert(s.drop_first().len() == s.len() - 1);
        }
        lemma_alternates_push(s.drop_first(), !o, kd);
        assert(s.push(kd).drop_first() =~= s.drop_first().push(kd));
        assert(s.push(kd)[0] == s[0]);
    }
}

/// Within one block the recorded markers alternate, beginning with an end
/// marker exactly when a predecessor hands the block an open region; the
/// region is open after the block's markers exactly when the block's
/// terminator is unsafe.
pub proof fn lemma_block_markers(cfg: Cfg, b: int)
    requires
        0 <= b < cfg.n_blocks(),
    ensures
        alternates_from(block_kind_seq(cfg, b), pending_close(cfg, b)),
        state_after(block_kind_seq(cfg, b), pending_close(cfg, b)) == (cfg.blocks@[b].term.tag
            == SafetyTag::Unsafe),
{
    lemma_block_markers_prefix(cfg, b, cfg.blocks@[b].n_stmts() + 1);
}

proof fn lemma_block_markers_prefix(cfg: Cfg, b: int, i: int)
    requires
        0 <= b < cfg.n_blocks(),
        0 <= i <= cfg.blocks@[b].n_stmts() + 1,
    ensures
        alternates_from(kind_seq_prefix(cfg, b, i), pending_close(cfg, b)),
        state_after(kind_seq_prefix(cfg, b, i), pending_close(cfg, b)) == open_before(cfg, b, i),
    decreases i,
{
    if i > 0 {
        lemma_block_markers_prefix(cfg, b, i - 1);
        let rest = kind_seq_prefix(cfg, b, i - 1);
        match marker_at(cfg, b, i - 1) {
            Option::Some(kd) => {
                lemma_alternates_push(rest, pending_close(cfg, b), kd);
            },
            Option::None => {
            },
        }
    }
}

proof fn lemma_alternates_concat(s1: Seq<BoundaryKind>, s2: Seq<BoundaryKind>, o: bool)
    requires
        alternates_from(s1, o),
        alternates_from(s2, state_after(s1, o)),
    ensures
        alternates_from(s1 + s2, o),
        state_after(s1 + s2, o) == state_after(s2, state_after(s1, o)),
    decreases s1.len(),
{
    if s1.len() == 0 {
        assert(s1 + s2 =~= s2);
    } else {
        assert(state_after(s1.drop_first(), !o) == state_after(s1, o));
        lemma_alternates_concat(s1.drop_first(), s2, !o);
        assert((s1 + s2).drop_first() =~= s1.drop_first() + s2);
    }
}

/// An alternating marker sequence is balanced: starts and ends pair up,
/// with at most one extra marker deciding the final open state.
pub proof fn lemma_alternates_counts(s: Seq<BoundaryKind>, o: bool)
    requires
        alternates_from(s, o),
    ensures
        !o && !state_after(s, o) ==> count_kind(s, BoundaryKind::Start) == count_kind(
            s,
            BoundaryKind::End,
        ),
        !o && state_after(s, o) ==> count_kind(s, BoundaryKind::Start) == count_kind(
            s,
            BoundaryKind::End,
        ) + 1,
        o && state_after(s, o) ==> count_kind(s, BoundaryKind::End) == count_kind(
            s,
            BoundaryKind::Start,
        ),
        o && !state_after(s, o) ==> count_kind(s, BoundaryKind::End) == count_kind(
            s,
            BoundaryKind::Start,
        ) + 1,
    decreases s.len(),
{
    if s.len() > 0 {
        lemma_alternates_counts(s.drop_first(), !o);
        assert(state_after(s.drop_first(), !o) == state_after(s, o));
    }
}

/// A walk through the graph: consecutive entries are successor blocks.
pub open spec fn is_path(cfg: Cfg, path: Seq<usize>) -> bool {
    &&& path.len() > 0
    &&& forall|x: int| 0 <= x < path.len() ==> (#[trigger] path[x]) < cfg.n_blocks()
    &&& forall|x: int|
        0 <= x < path.len() - 1 ==> cfg.blocks@[#[trigger] path[x] as int].term.successors().contains(
            path[x + 1],
        )
}

/// The marker kinds met along a path, block after block.
pub open spec fn path_kind_seq(cfg: Cfg, path: Seq<usize>) -> Seq<BoundaryKind>
    decreases path.len(),
{
    if path.len() == 0 {
        Seq::empty()
    } else {
        path_kind_seq(cfg, path.drop_last()) + block_kind_seq(cfg, path.last() as int)
    }
}

/// Every block of the path agrees with the predecessor it is entered from:
/// it is marked pending-close exactly when that predecessor's terminator is
/// unsafe.  This rules out merge points whose predecessors disagree, where
/// the propagated close is attributed to the wrong entry path.
pub open spec fn handoff_consistent(cfg: Cfg, path: Seq<usize>) -> bool {
    forall|x: int|
        1 <= x < path.len() ==> (pending_close(cfg, #[trigger] path[x] as int) == (
        cfg.blocks@[path[x - 1] as int].term.tag == SafetyTag::Unsafe))
}

/// Balance along a path: starting outside any region, the markers met along
/// the path alternate start, end, start, ... — so no path meets two start
/// markers without an end marker between them — and the region is still
/// open at the path's end exactly when the last terminator is unsafe.
#[verifier::rlimit(100)]
#[verifier::spinoff_prover]
pub proof fn lemma_path_balance(cfg: Cfg, path: Seq<usize>)
    requires
        is_path(cfg, path),
        !pending_close(cfg, path[0] as int),
        handoff_consistent(cfg, path),
    ensures
        alternates_from(path_kind_seq(cfg, path), false),
        state_after(path_kind_seq(cfg, path), false) == (cfg.blocks@[path[path.len()
            - 1] as int].term.tag == SafetyTag::Unsafe),
    decreases path.len(),
{
    let lastb = path.last() as int;
    lemma_block_markers(cfg, lastb);
    if path.len() == 1 {
        assert(path_kind_seq(cfg, path.drop_last()) =~= Seq::<BoundaryKind>::empty());
        assert(path_kind_seq(cfg, path) =~= block_kind_seq(cfg, lastb));
        assert(!pending_close(cfg, lastb));
    } else {
        let pre = path.drop_last();
        assert(pre[0] == path[0]);
        assert(is_path(cfg, pre)) by {
            assert forall|x: int| 0 <= x < pre.len() implies (#[trigger] pre[x])
                < cfg.n_blocks() by {
                assert(pre[x] == path[x]);
            }
            assert forall|x: int| 0 <= x < pre.len() - 1 implies cfg.blocks@[#[trigger] pre[x] as int].term.successors().contains(
                pre[x + 1],
            ) by {
                assert(pre[x] == path[x] && pre[x + 1] == path[x + 1]);
            }
        }
        assert(handoff_consistent(cfg, pre)) by {
            assert forall|x: int| 1 <= x < pre.len() implies (pending_close(
                cfg,
                #[trigger] pre[x] as int,
            ) == (cfg.blocks@[pre[x - 1] as int].term.tag == SafetyTag::Unsafe)) by {
                assert(pre[x] == path[x] && pre[x - 1] == path[x - 1]);
            }
        }
        lemma_path_balance(cfg, pre);
        assert(pre[pre.len() - 1] == path[path.len() - 2]);
        assert(pending_close(cfg, lastb) == (cfg.blocks@[path[path.len() - 2] as int].term.tag
            == SafetyTag::Unsafe)) by {
            assert(path[path.len() - 1] == path.last());
        }
        lemma_alternates_concat(
            path_kind_seq(cfg, pre),
            block_kind_seq(cfg, lastb),
            false,
        );
    }
}

/// Balance as counts: along a consistent path whose last block leaves in
/// safe code, the number of recorded start boundaries equals the number of
/// recorded end boundaries.
pub proof fn lemma_region_balance(cfg: Cfg, path: Seq<usize>)
    requires
        is_path(cfg, path),
        !pending_close(cfg, path[0] as int),
        handoff_consistent(cfg, path),
        cfg.blocks@[path[path.len() - 1] as int].term.tag == SafetyTag::Safe,
    ensures
        alternates_from(path_kind_seq(cfg, path), false),
        count_kind(path_kind_seq(cfg, path), BoundaryKind::Start) == count_kind(
            path_kind_seq(cfg, path),
            BoundaryKind::End,
        ),
{
    lemma_path_balance(cfg, path);
    lemma_alternates_counts(path_kind_seq(cfg, path), false);
}

/// An empty marker list splices to the block's original statements: the
/// pass leaves a body it does not apply to unchanged.
pub proof fn lemma_empty_splice(cfg: Cfg, r: Cfg)
    requires
        rewrite_correct(cfg, Seq::<RegionBoundary>::empty(), r),
    ensures
        forall|b: int|
            0 <= b < cfg.n_blocks() ==> (#[trigger] r.blocks@[b]).stmts@ == cfg.blocks@[b].stmts@,
{
    assert forall|b: int| 0 <= b < cfg.n_blocks() implies (#[trigger] r.blocks@[b]).stmts@
        == cfg.blocks@[b].stmts@ by {
        lemma_empty_splice_prefix(cfg, b, cfg.blocks@[b].n_stmts() + 1);
        assert(cfg.blocks@[b].stmts@.take(cfg.blocks@[b].n_stmts()) =~= cfg.blocks@[b].stmts@);
    }
}

proof fn lemma_empty_splice_prefix(cfg: Cfg, b: int, i: int)
    requires
        0 <= b < cfg.n_blocks(),
        0 <= i <= cfg.blocks@[b].n_stmts() + 1,
    ensures
        spliced_prefix(cfg, Seq::<RegionBoundary>::empty(), b, i) == cfg.blocks@[b].stmts@.take(
            if i <= cfg.blocks@[b].n_stmts() {
                i
            } else {
                cfg.blocks@[b].n_stmts()
            },
        ),
    decreases i,
{
    if i > 0 {
        lemma_empty_splice_prefix(cfg, b, i - 1);
        if i - 1 < cfg.blocks@[b].n_stmts() {
            assert(cfg.blocks@[b].stmts@.take(i) =~= cfg.blocks@[b].stmts@.take(i - 1).push(
                cfg.blocks@[b].stmts@[i - 1],
            ));
        } else {
            assert(spliced_prefix(cfg, Seq::<RegionBoundary>::empty(), b, i) =~= spliced_prefix(
                cfg,
                Seq::<RegionBoundary>::empty(),
                b,
                i - 1,
            ));
        }
    } else {
        assert(cfg.blocks@[b].stmts@.take(0) =~= Seq::<Statement>::empty());
    }
}

} // verus!
