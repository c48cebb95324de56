use metasafe::cfg::{Block, Cfg, SafetyTag, Statement, StmtKind, Terminator, TerminatorKind};
use metasafe::markers::{BoundaryKind, MetaSafeUnsafeMarkers, RegionBoundary};
use metasafe::pass::{is_exempt_crate, PassContext};

fn inst(tag: SafetyTag) -> Statement {
    Statement { tag, kind: StmtKind::Inst }
}

fn goto(tag: SafetyTag, succs: Vec<usize>) -> Terminator {
    Terminator { tag, kind: TerminatorKind::Other { succs } }
}

fn ctx() -> PassContext {
    PassContext {
        instrumentation_enabled: true,
        body_is_local: true,
        crate_name: String::from("widgets"),
    }
}

fn marker(block: usize, offset: usize, kind: BoundaryKind) -> RegionBoundary {
    RegionBoundary { block, offset, kind }
}

#[test]
fn single_block_region() {
    // Tags [Safe, Unsafe, Unsafe, Safe, Safe] on one block: a start marker
    // at offset 1 and an end marker at offset 3, nothing else.
    let cfg = Cfg {
        locals: vec![],
        blocks: vec![Block {
            stmts: vec![
                inst(SafetyTag::Safe),
                inst(SafetyTag::Unsafe),
                inst(SafetyTag::Unsafe),
                inst(SafetyTag::Safe),
                inst(SafetyTag::Safe),
            ],
            term: goto(SafetyTag::Safe, vec![]),
        }],
    };
    let (markers, _rewritten) = MetaSafeUnsafeMarkers.run_pass(&ctx(), &cfg);
    assert_eq!(
        markers,
        vec![marker(0, 1, BoundaryKind::Start), marker(0, 3, BoundaryKind::End)]
    );
}

#[test]
fn cross_block_propagation() {
    // Block 0 has tags [Safe, Unsafe] with an unsafe terminator and single
    // successor block 1 whose first statement is safe: the start is
    // recorded at block 0 offset 1, the end lands at block 1 offset 0, and
    // no start is duplicated in block 1.
    let cfg = Cfg {
        locals: vec![],
        blocks: vec![
            Block {
                stmts: vec![inst(SafetyTag::Safe), inst(SafetyTag::Unsafe)],
                term: goto(SafetyTag::Unsafe, vec![1]),
            },
            Block {
                stmts: vec![inst(SafetyTag::Safe), inst(SafetyTag::Safe)],
                term: goto(SafetyTag::Safe, vec![]),
            },
        ],
    };
    let (markers, _rewritten) = MetaSafeUnsafeMarkers.run_pass(&ctx(), &cfg);
    assert_eq!(
        markers,
        vec![marker(0, 1, BoundaryKind::Start), marker(1, 0, BoundaryKind::End)]
    );
    assert!(!markers
        .iter()
        .any(|m| m.block == 1 && m.kind == BoundaryKind::Start));
}

#[test]
fn suppressed_start_at_propagated_entry() {
    // The successor itself starts unsafe: the region handed over continues,
    // so no start marker is placed at its entry; the end lands on its first
    // safe statement.
    let cfg = Cfg {
        locals: vec![],
        blocks: vec![
            Block {
                stmts: vec![inst(SafetyTag::Unsafe)],
                term: goto(SafetyTag::Unsafe, vec![1]),
            },
            Block {
                stmts: vec![inst(SafetyTag::Unsafe), inst(SafetyTag::Safe)],
                term: goto(SafetyTag::Safe, vec![]),
            },
        ],
    };
    let (markers, _rewritten) = MetaSafeUnsafeMarkers.run_pass(&ctx(), &cfg);
    assert_eq!(
        markers,
        vec![marker(0, 0, BoundaryKind::Start), marker(1, 1, BoundaryKind::End)]
    );
}

#[test]
fn balance_counts_on_branching_graph() {
    // A diamond: an unsafe region opened in block 0 is closed in both
    // successors; along each path the starts and ends pair up.
    let cfg = Cfg {
        locals: vec![],
        blocks: vec![
            Block {
                stmts: vec![inst(SafetyTag::Safe), inst(SafetyTag::Unsafe)],
                term: goto(SafetyTag::Unsafe, vec![1, 2]),
            },
            Block {
                stmts: vec![inst(SafetyTag::Safe)],
                term: goto(SafetyTag::Safe, vec![]),
            },
            Block {
                stmts: vec![inst(SafetyTag::Unsafe), inst(SafetyTag::Safe)],
                term: goto(SafetyTag::Safe, vec![]),
            },
        ],
    };
    let (markers, _rewritten) = MetaSafeUnsafeMarkers.run_pass(&ctx(), &cfg);
    assert_eq!(
        markers,
        vec![
            marker(0, 1, BoundaryKind::Start),
            marker(1, 0, BoundaryKind::End),
            marker(2, 1, BoundaryKind::End),
        ]
    );
    // Along path 0 -> 1: one start, one end.  Along path 0 -> 2: one start,
    // one end.  No path sees two starts without an end between them.
    let path_a: Vec<&RegionBoundary> =
        markers.iter().filter(|m| m.block == 0 || m.block == 1).collect();
    assert_eq!(path_a.len(), 2);
    assert_eq!(path_a[0].kind, BoundaryKind::Start);
    assert_eq!(path_a[1].kind, BoundaryKind::End);
    let path_b: Vec<&RegionBoundary> =
        markers.iter().filter(|m| m.block == 0 || m.block == 2).collect();
    assert_eq!(path_b.len(), 2);
    assert_eq!(path_b[0].kind, BoundaryKind::Start);
    assert_eq!(path_b[1].kind, BoundaryKind::End);
}

#[test]
fn splice_inserts_boundary_calls() {
    let cfg = Cfg {
        locals: vec![],
        blocks: vec![Block {
            stmts: vec![
                inst(SafetyTag::Safe),
                inst(SafetyTag::Unsafe),
                inst(SafetyTag::Safe),
            ],
            term: goto(SafetyTag::Safe, vec![]),
        }],
    };
    let (_markers, rewritten) = MetaSafeUnsafeMarkers.run_pass(&ctx(), &cfg);
    let stmts = &rewritten.blocks[0].stmts;
    assert_eq!(stmts.len(), 5);
    assert_eq!(stmts[0].kind, StmtKind::Inst);
    assert_eq!(stmts[1].kind, StmtKind::BoundaryStart { counter: 0 });
    assert_eq!(stmts[2].kind, StmtKind::Inst);
    assert_eq!(stmts[3].kind, StmtKind::BoundaryEnd { counter: 1 });
    assert_eq!(stmts[4].kind, StmtKind::Inst);
}

#[test]
fn exempt_crate_is_left_alone() {
    let cfg = Cfg {
        locals: vec![],
        blocks: vec![Block {
            stmts: vec![inst(SafetyTag::Unsafe)],
            term: goto(SafetyTag::Safe, vec![]),
        }],
    };
    let exempt_ctx = PassContext {
        instrumentation_enabled: true,
        body_is_local: true,
        crate_name: String::from("core"),
    };
    let (markers, rewritten) = MetaSafeUnsafeMarkers.run_pass(&exempt_ctx, &cfg);
    assert!(markers.is_empty());
    assert_eq!(rewritten.blocks[0].stmts, cfg.blocks[0].stmts);
}

#[test]
fn foreign_body_is_left_alone() {
    let cfg = Cfg {
        locals: vec![],
        blocks: vec![Block {
            stmts: vec![inst(SafetyTag::Unsafe)],
            term: goto(SafetyTag::Safe, vec![]),
        }],
    };
    let foreign_ctx = PassContext {
        instrumentation_enabled: true,
        body_is_local: false,
        crate_name: String::from("widgets"),
    };
    let (markers, _rewritten) = MetaSafeUnsafeMarkers.run_pass(&foreign_ctx, &cfg);
    assert!(markers.is_empty());
}

#[test]
fn exemption_list_membership() {
    assert!(is_exempt_crate(&String::from("std")));
    assert!(is_exempt_crate(&String::from("alloc")));
    assert!(is_exempt_crate(&String::from("portable-simd")));
    assert!(is_exempt_crate(&String::from("adler")));
    assert!(!is_exempt_crate(&String::from("widgets")));
    assert!(!is_exempt_crate(&String::from("serde")));
}
